//! Parsing and validation of `host:port` strings.
//!
//! A [`HostPort`] pairs a validated host token (a network alias, a
//! DNS-style domain name, or a dotted-quad IPv4 literal) with a 16-bit
//! port number. The host rules live in [`validate`]; parsing, rendering
//! and comparison of the combined `host:port` form live here.

use vstd::prelude::*;

pub mod digits;
pub mod laws;
pub mod text;
pub mod validate;

verus! {

/// A validated host-and-port pair.
///
/// A value of this type can only be built through [`HostPort::new`] or
/// [`HostPort::parse`], both of which reject any host that fails
/// [`validate::valid_host`]; every live value therefore carries a
/// valid host.
#[derive(Debug, PartialEq, Eq, PartialOrd, Ord, Hash)]
pub struct HostPort {
    host: String,
    port: u16,
}

/// Errors from building or parsing a [`HostPort`].
#[derive(Clone, Debug, PartialEq, Eq)]
pub enum HostPortParseError {
    /// The input string does not follow the `host:port` format.
    InvalidFormat,
    /// The host part of the input is invalid; carries the offending text.
    InvalidHost(String),
    /// The port part of the input is invalid; carries the offending text.
    InvalidPort(String),
}

/// What parsing a `host:port` string yields: the pair, or the error
/// that the input earns, with the offending text.
pub enum ParseOutcome {
    /// A valid pair of host text and port number.
    Parsed { host: Seq<char>, port: u16 },
    /// No `:` separator anywhere in the input.
    NoSeparator,
    /// The text before the first `:` fails the host rule.
    BadHost { host: Seq<char> },
    /// The text after the first `:` is not an in-range decimal numeral.
    BadPort { port: Seq<char> },
}

/// The meaning of parsing: split on the first `:`, then check the
/// port numeral, then the host.
pub open spec fn parse_spec(s: Seq<char>) -> ParseOutcome {
    let i = text::find_char(s, ':');
    if i == -1 {
        ParseOutcome::NoSeparator
    } else {
        let h = s.subrange(0, i);
        let p = s.subrange(i + 1, s.len() as int);
        if !digits::valid_port(p) {
            ParseOutcome::BadPort { port: p }
        } else if !validate::valid_host(h) {
            ParseOutcome::BadHost { host: h }
        } else {
            ParseOutcome::Parsed { host: h, port: digits::decimal_value(p) as u16 }
        }
    }
}

/// How a parse result realizes an outcome: same case, same payloads.
pub open spec fn outcome_matches(
    r: Result<HostPort, HostPortParseError>,
    o: ParseOutcome,
) -> bool {
    match o {
        ParseOutcome::Parsed { host, port } => r matches Ok(hp) && hp.host_view() == host
            && hp.port_view() == port,
        ParseOutcome::NoSeparator => r matches Err(HostPortParseError::InvalidFormat),
        ParseOutcome::BadHost { host } => r matches Err(HostPortParseError::InvalidHost(h))
            && h@ == host,
        ParseOutcome::BadPort { port } => r matches Err(HostPortParseError::InvalidPort(p))
            && p@ == port,
    }
}

/// The canonical textual form `host:port`.
pub open spec fn render_spec(h: Seq<char>, p: u16) -> Seq<char> {
    h + seq![':'] + digits::decimal_string(p as int)
}

/// Whether the pair `(h, p)` equals a raw `host:port` string: split on
/// the last `:`, and both the host text and the port number must match.
pub open spec fn eq_str_spec(h: Seq<char>, p: u16, s: Seq<char>) -> bool {
    let j = text::rfind_char(s, ':');
    &&& j != -1
    &&& s.subrange(0, j) == h
    &&& digits::valid_port(s.subrange(j + 1, s.len() as int))
    &&& digits::decimal_value(s.subrange(j + 1, s.len() as int)) == p
}

impl Clone for HostPort {
    /// A clone is equal to the original.
    fn clone(&self) -> (r: Self)
        ensures
            r == *self,
    {
        proof {
            use_type_invariant(self);
        }
        HostPort { host: self.host.clone(), port: self.port }
    }
}

impl HostPort {
    /// The host text.
    pub closed spec fn host_view(&self) -> Seq<char> {
        self.host@
    }

    /// The port number.
    pub closed spec fn port_view(&self) -> u16 {
        self.port
    }

    /// Every live `HostPort` carries a valid host.
    #[verifier::type_invariant]
    pub open spec fn wf(&self) -> bool {
        validate::valid_host(self.host_view())
    }

    /// Builds a pair from a host and a port. The port is taken as-is;
    /// the host must pass the host rule, else the pair is refused with
    /// `InvalidHost` carrying the offending text.
    pub fn new(host: &str, port: u16) -> (r: Result<HostPort, HostPortParseError>)
        ensures
            validate::valid_host(host@) ==> (r matches Ok(hp) && hp.host_view() == host@
                && hp.port_view() == port),
            !validate::valid_host(host@) ==> (r matches Err(HostPortParseError::InvalidHost(h))
                && h@ == host@),
    {
        if !validate::is_valid_host(host) {
            return Err(HostPortParseError::InvalidHost(host.to_owned()));
        }
        Ok(HostPort { host: host.to_owned(), port })
    }

    /// The host part.
    pub fn host(&self) -> (r: &str)
        ensures
            r@ == self.host_view(),
            validate::valid_host(self.host_view()),
    {
        proof {
            use_type_invariant(self);
        }
        self.host.as_str()
    }

    /// The port part.
    pub fn port(&self) -> (r: u16)
        ensures
            r == self.port_view(),
    {
        self.port
    }

    /// Parses a single `host:port` string: the part before the first
    /// `:` is the host candidate, the part after it the port numeral.
    pub fn parse(value: &str) -> (r: Result<HostPort, HostPortParseError>)
        ensures
            outcome_matches(r, parse_spec(value@)),
    {
        let n = value.unicode_len();
        let sep = match text::find_first(value, ':') {
            None => {
                return Err(HostPortParseError::InvalidFormat);
            },
            Some(i) => i,
        };
        proof {
            text::lemma_find_char(value@, ':');
        }
        let host_part = value.substring_char(0, sep);
        let port_part = value.substring_char(sep + 1, n);
        let port = match digits::parse_port(port_part) {
            None => {
                return Err(HostPortParseError::InvalidPort(port_part.to_owned()));
            },
            Some(p) => p,
        };
        Self::new(host_part, port)
    }

    /// Renders the canonical `host:port` form.
    pub fn render(&self) -> (r: String)
        ensures
            r@ == render_spec(self.host_view(), self.port_view()),
    {
        let mut s = self.host.clone();
        proof {
            reveal_strlit(":");
        }
        s.append(":");
        let digits_part = digits::decimal_to_string(self.port);
        s.append(digits_part.as_str());
        proof {
            assert(s@ =~= render_spec(self.host_view(), self.port_view()));
        }
        s
    }

    /// Compares the pair against a raw `host:port` string: the string
    /// is split on its last `:`, and both sides must match exactly; a
    /// malformed string compares unequal.
    pub fn eq_str(&self, other: &str) -> (r: bool)
        ensures
            r == eq_str_spec(self.host_view(), self.port_view(), other@),
    {
        let n = other.unicode_len();
        let sep = match text::find_last(other, ':') {
            None => {
                return false;
            },
            Some(i) => i,
        };
        proof {
            text::lemma_rfind_char(other@, ':');
        }
        let host_part = other.substring_char(0, sep);
        let port_part = other.substring_char(sep + 1, n);
        match digits::parse_port(port_part) {
            None => false,
            Some(p) => p == self.port && text::str_eq(host_part, self.host.as_str()),
        }
    }
}

/// A character that may appear in a host: a label character or `.`.
pub open spec fn host_char(c: char) -> bool {
    label_char(c) || c == '.'
}

/// A character that may appear in a domain label: ASCII alphanumeric or `-`.
pub open spec fn label_char(c: char) -> bool {
    ascii_alphanumeric(c) || c == '-'
}

/// ASCII letter or decimal digit.
pub open spec fn ascii_alphanumeric(c: char) -> bool {
    ascii_digit(c) || (65 <= c as u32 <= 90) || (97 <= c as u32 <= 122)
}

/// ASCII decimal digit `0` through `9`.
pub open spec fn ascii_digit(c: char) -> bool {
    48 <= c as u32 <= 57
}

/// Numeric value of an ASCII decimal digit.
pub open spec fn digit_value(c: char) -> int {
    c as u32 - 48
}

} // verus!
