//! Laws relating parsing, construction and rendering: what `parse`
//! yields on a string assembled from a known host and a suffix, and
//! that rendering a valid pair parses back to the same pair.

use vstd::prelude::*;

use crate::digits::decimal_string;
use crate::digits::decimal_value;
use crate::digits::lemma_decimal_string_value;
use crate::digits::lemma_decimal_value_push;
use crate::digits::valid_port;
use crate::parse_spec;
use crate::render_spec;
use crate::text::find_char;
use crate::text::lemma_rfind_char;
use crate::text::rfind_char;
use crate::text::lemma_find_char;
use crate::validate::valid_host;
use crate::ParseOutcome;

verus! {

/// A valid host never contains a `:`.
pub proof fn lemma_valid_host_no_colon(h: Seq<char>)
    requires
        valid_host(h),
    ensures
        forall|i: int| 0 <= i < h.len() ==> h[i] != ':',
{
    assert forall|i: int| 0 <= i < h.len() implies h[i] != ':' by {
        assert(crate::host_char(h[i]));
    }
}

/// In `h ++ ":" ++ rest` with `h` colon-free, the first `:` is the one
/// written, and the string splits there into `h` and `rest`.
proof fn lemma_first_colon_split(h: Seq<char>, rest: Seq<char>)
    requires
        forall|i: int| 0 <= i < h.len() ==> h[i] != ':',
    ensures
        find_char(h + seq![':'] + rest, ':') == h.len(),
        (h + seq![':'] + rest).subrange(0, h.len() as int) == h,
        (h + seq![':'] + rest).subrange(h.len() as int + 1, (h + seq![':'] + rest).len() as int) == rest,
{
    let s = h + seq![':'] + rest;
    assert(s.subrange(0, h.len() as int) =~= h);
    assert(s.subrange(h.len() as int + 1, s.len() as int) =~= rest);
    assert(s[h.len() as int] == ':');
    lemma_find_char(s, ':');
    let f = find_char(s, ':');
    if f == -1 {
        assert(s[h.len() as int] != ':');
    } else if f < h.len() {
        assert(s[f] == h[f]);
    } else if f > h.len() {
        assert(s[h.len() as int] != ':');
    }
}

/// Joining an accepted host, a colon, and the canonical numeral of any
/// port parses to exactly that pair; building the same pair from the
/// parts succeeds with the same result (`HostPort::new`'s contract).
pub proof fn lemma_parse_joined(h: Seq<char>, p: u16)
    requires
        valid_host(h),
    ensures
        parse_spec(h + seq![':'] + decimal_string(p as int)) == (ParseOutcome::Parsed {
            host: h,
            port: p,
        }),
{
    lemma_valid_host_no_colon(h);
    lemma_first_colon_split(h, decimal_string(p as int));
    lemma_decimal_string_value(p as int);
}

/// Rendering a valid pair and parsing the result yields the pair back:
/// the round trip is the identity on valid values.
pub proof fn lemma_parse_render_round_trip(h: Seq<char>, p: u16)
    requires
        valid_host(h),
    ensures
        parse_spec(render_spec(h, p)) == (ParseOutcome::Parsed { host: h, port: p }),
{
    lemma_parse_joined(h, p);
}

/// A string with no `:` anywhere fails to parse with the format error.
pub proof fn lemma_parse_no_separator(s: Seq<char>)
    requires
        forall|i: int| 0 <= i < s.len() ==> s[i] != ':',
    ensures
        parse_spec(s) == ParseOutcome::NoSeparator,
{
    lemma_find_char(s, ':');
    let f = find_char(s, ':');
    if f != -1 {
        assert(s[f] != ':');
    }
}

/// An accepted host joined to a suffix that is no in-range decimal
/// numeral fails to parse with the port error, carrying that suffix.
pub proof fn lemma_parse_bad_port(h: Seq<char>, x: Seq<char>)
    requires
        valid_host(h),
        !valid_port(x),
    ensures
        parse_spec(h + seq![':'] + x) == (ParseOutcome::BadPort { port: x }),
{
    lemma_valid_host_no_colon(h);
    lemma_first_colon_split(h, x);
}

/// Appending a character that no host may contain invalidates any
/// accepted host: `h ++ "$:1"` fails with the host error on `h ++ "$"`.
pub proof fn lemma_parse_spoiled_host(h: Seq<char>)
    requires
        valid_host(h),
    ensures
        parse_spec(h + seq!['$', ':', '1']) == (ParseOutcome::BadHost { host: h + seq!['$'] }),
{
    let hs = h + seq!['$'];
    let one = seq!['1'];
    lemma_valid_host_no_colon(h);
    assert forall|i: int| 0 <= i < hs.len() implies hs[i] != ':' by {
        if i < h.len() {
            assert(hs[i] == h[i]);
        }
    }
    lemma_first_colon_split(hs, one);
    assert(h + seq!['$', ':', '1'] =~= hs + seq![':'] + one);
    assert(one =~= Seq::<char>::empty().push('1'));
    lemma_decimal_value_push(Seq::<char>::empty(), '1');
    assert(decimal_value(one) == 1);
    assert(valid_port(one));
    assert(hs[hs.len() - 1] == '$');
    assert(!crate::ascii_alphanumeric('$'));
    assert(!valid_host(hs));
}

/// A pair equals its own canonical form under the raw-string
/// comparison: the last `:` of `render` is the separator, and host
/// and port match exactly.
pub proof fn lemma_eq_str_canonical(h: Seq<char>, p: u16)
    requires
        valid_host(h),
    ensures
        crate::eq_str_spec(h, p, render_spec(h, p)),
{
    let d = decimal_string(p as int);
    let s = h + seq![':'] + d;
    lemma_valid_host_no_colon(h);
    lemma_decimal_string_value(p as int);
    lemma_first_colon_split(h, d);
    lemma_rfind_char(s, ':');
    assert(s[h.len() as int] == ':');
    assert forall|i: int| h.len() < i < s.len() implies s[i] != ':' by {
        assert(d[i - h.len() - 1] == s.subrange(h.len() as int + 1, s.len() as int)[i - h.len()
            - 1]);
        assert(crate::ascii_digit(d[i - h.len() - 1]));
    }
    let j = rfind_char(s, ':');
    if j == -1 {
        assert(s[h.len() as int] != ':');
    } else if j < h.len() {
        assert(s[h.len() as int] != ':');
    } else if j > h.len() {
        assert(s[j] != ':');
    }
}

} // verus!

