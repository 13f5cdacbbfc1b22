//! The host validator: decides whether a string is an acceptable host
//! token (network alias, domain name, or dotted-quad IPv4 literal).

use vstd::prelude::*;

use crate::ascii_alphanumeric;
use crate::ascii_digit;
use crate::digits::decimal_value;
use crate::host_char;
use crate::label_char;

verus! {

/// The parts of a string split on `.`: one part per maximal dot-free
/// run, so a string with `k` dots has `k + 1` parts (possibly empty).
pub open spec fn split_dots(s: Seq<char>) -> Seq<Seq<char>>
    decreases s.len(),
{
    if s.len() == 0 {
        seq![Seq::<char>::empty()]
    } else if s[0] == '.' {
        seq![Seq::<char>::empty()] + split_dots(s.drop_first())
    } else {
        let rest = split_dots(s.drop_first());
        seq![seq![s[0]] + rest[0]] + rest.drop_first()
    }
}

/// Splitting always yields at least one part.
pub proof fn lemma_split_dots_len(s: Seq<char>)
    ensures
        split_dots(s).len() >= 1,
    decreases s.len(),
{
    if s.len() > 0 {
        lemma_split_dots_len(s.drop_first());
    }
}

/// Extending the string by one character either opens a fresh empty
/// part (on a dot) or extends the last part (on anything else).
pub proof fn lemma_split_dots_push(s: Seq<char>, c: char)
    ensures
        split_dots(s).len() >= 1,
        c == '.' ==> split_dots(s.push(c)) == split_dots(s).push(Seq::<char>::empty()),
        c != '.' ==> split_dots(s.push(c)) == split_dots(s).update(
            split_dots(s).len() - 1,
            split_dots(s).last().push(c),
        ),
    decreases s.len(),
{
    lemma_split_dots_len(s);
    if s.len() == 0 {
        reveal_with_fuel(split_dots, 2);
        assert(s.push(c).drop_first() =~= Seq::<char>::empty());
        if c == '.' {
            assert(split_dots(s.push(c)) =~~= split_dots(s).push(Seq::<char>::empty()));
        } else {
            assert(seq![s.push(c)[0]] + split_dots(Seq::<char>::empty())[0] =~= seq![c]);
            assert(split_dots(s.push(c)) =~~= split_dots(s).update(
                split_dots(s).len() - 1,
                split_dots(s).last().push(c),
            ));
        }
    } else {
        let t = s.drop_first();
        lemma_split_dots_len(t);
        assert(s.push(c).drop_first() =~= t.push(c));
        lemma_split_dots_push(t, c);
        if c == '.' {
            if s[0] == '.' {
                assert(split_dots(s.push(c)) =~~= split_dots(s).push(Seq::<char>::empty()));
            } else {
                let rest = split_dots(t);
                let restp = split_dots(t.push(c));
                assert(restp == rest.push(Seq::<char>::empty()));
                assert(restp[0] == rest[0]);
                assert(restp.drop_first() =~~= rest.drop_first().push(Seq::<char>::empty()));
                assert(split_dots(s.push(c)) =~~= split_dots(s).push(Seq::<char>::empty()));
            }
        } else {
            if s[0] == '.' {
                let rest = split_dots(t);
                let restp = split_dots(t.push(c));
                assert(restp == rest.update(rest.len() - 1, rest.last().push(c)));
                assert(split_dots(s).last() == rest.last());
                assert(split_dots(s.push(c)) =~~= split_dots(s).update(
                    split_dots(s).len() - 1,
                    split_dots(s).last().push(c),
                ));
            } else {
                let rest = split_dots(t);
                let restp = split_dots(t.push(c));
                assert(restp == rest.update(rest.len() - 1, rest.last().push(c)));
                if rest.len() == 1 {
                    assert(restp[0] == rest[0].push(c));
                    assert(seq![s[0]] + rest[0].push(c) =~= (seq![s[0]] + rest[0]).push(c));
                    assert(split_dots(s).last() == seq![s[0]] + rest[0]);
                    assert(split_dots(s.push(c)) =~~= split_dots(s).update(
                        split_dots(s).len() - 1,
                        split_dots(s).last().push(c),
                    ));
                } else {
                    assert(restp[0] == rest[0]);
                    assert(restp.drop_first() =~~= rest.drop_first().update(
                        rest.len() - 2,
                        rest.last().push(c),
                    ));
                    assert(split_dots(s).last() == rest.last());
                    assert(split_dots(s.push(c)) =~~= split_dots(s).update(
                        split_dots(s).len() - 1,
                        split_dots(s).last().push(c),
                    ));
                }
            }
        }
    }
}

/// A valid domain label: non-empty, at most 63 characters, made of
/// label characters, neither starting nor ending with `-`, and not
/// composed entirely of digits.
pub open spec fn valid_label(p: Seq<char>) -> bool {
    &&& 1 <= p.len() <= 63
    &&& p[0] != '-'
    &&& p[p.len() - 1] != '-'
    &&& forall|i: int| 0 <= i < p.len() ==> label_char(#[trigger] p[i])
    &&& !(forall|i: int| 0 <= i < p.len() ==> ascii_digit(#[trigger] p[i]))
}

/// Decides the label rule.
pub fn is_valid_label(label: &str) -> (r: bool)
    ensures
        r == valid_label(label@),
{
    let n = label.unicode_len();
    if n == 0 || n > 63 {
        return false;
    }
    let mut i: usize = 0;
    let mut all_digits: bool = true;
    while i < n
        invariant
            n == label@.len(),
            i <= n,
            forall|j: int| 0 <= j < i ==> label_char(#[trigger] label@[j]),
            all_digits == (forall|j: int| 0 <= j < i ==> ascii_digit(#[trigger] label@[j])),
        decreases n - i,
    {
        let c = label.get_char(i);
        let u = c as u32;
        if !((48 <= u && u <= 57) || (65 <= u && u <= 90) || (97 <= u && u <= 122) || c == '-') {
            return false;
        }
        if !(48 <= u && u <= 57) {
            all_digits = false;
        }
        i += 1;
    }
    if label.get_char(0) == '-' || label.get_char(n - 1) == '-' {
        return false;
    }
    !all_digits
}

/// A valid IPv4 octet: one to three digits, no leading zero (except
/// `0` itself), and a value of at most 255.
pub open spec fn valid_octet(p: Seq<char>) -> bool {
    &&& 1 <= p.len() <= 3
    &&& forall|i: int| 0 <= i < p.len() ==> ascii_digit(#[trigger] p[i])
    &&& (p.len() > 1 ==> p[0] != '0')
    &&& decimal_value(p) <= 255
}

fn is_valid_octet(part: &str) -> (r: bool)
    ensures
        r == valid_octet(part@),
{
    let n = part.unicode_len();
    if n == 0 || n > 3 {
        return false;
    }
    let mut i: usize = 0;
    let mut acc: u32 = 0;
    while i < n
        invariant
            n == part@.len(),
            1 <= n <= 3,
            i <= n,
            forall|j: int| 0 <= j < i ==> ascii_digit(#[trigger] part@[j]),
            acc as int == decimal_value(part@.subrange(0, i as int)),
            acc < 1000,
        decreases n - i,
    {
        let c = part.get_char(i);
        let u = c as u32;
        if !(48 <= u && u <= 57) {
            return false;
        }
        proof {
            assert(part@.subrange(0, i + 1) =~= part@.subrange(0, i as int).push(part@[i as int]));
            crate::digits::lemma_decimal_value_push(part@.subrange(0, i as int), part@[i as int]);
            crate::digits::lemma_decimal_value_nonneg(part@.subrange(0, i as int));
            assert(decimal_value(part@.subrange(0, i as int)) < if i == 0 {
                1int
            } else if i == 1 {
                10int
            } else {
                100int
            }) by {
                crate::digits::lemma_decimal_value_bound(part@.subrange(0, i as int));
            }
        }
        acc = acc * 10 + (u - 48);
        i += 1;
    }
    proof {
        assert(part@.subrange(0, n as int) =~= part@);
    }
    if n > 1 && part.get_char(0) == '0' {
        return false;
    }
    acc <= 255
}

/// The host rule: between 1 and 255 characters, starting and ending
/// with an ASCII alphanumeric character, made of host characters, and
/// either a dotted-quad IPv4 literal (four all-numeric parts, each a
/// valid octet) or a sequence of valid labels.
pub open spec fn valid_host(s: Seq<char>) -> bool {
    &&& 1 <= s.len() <= 255
    &&& ascii_alphanumeric(s[0])
    &&& ascii_alphanumeric(s[s.len() - 1])
    &&& forall|i: int| 0 <= i < s.len() ==> host_char(#[trigger] s[i])
    &&& {
        let parts = split_dots(s);
        if parts.len() == 4 && (forall|i: int|
            0 <= i < s.len() ==> ascii_digit(#[trigger] s[i]) || s[i] == '.') {
            forall|j: int| 0 <= j < parts.len() ==> valid_octet(#[trigger] parts[j])
        } else {
            forall|j: int| 0 <= j < parts.len() ==> valid_label(#[trigger] parts[j])
        }
    }
}

/// Decides the host rule.
pub fn is_valid_host(value: &str) -> (r: bool)
    ensures
        r == valid_host(value@),
{
    let ghost s = value@;
    let n = value.unicode_len();
    if n == 0 || n > 255 {
        return false;
    }
    if !exec_ascii_alphanumeric_char(value.get_char(0)) {
        return false;
    }
    if !exec_ascii_alphanumeric_char(value.get_char(n - 1)) {
        return false;
    }
    let mut i: usize = 0;
    let mut all_num: bool = true;
    while i < n
        invariant
            n == s.len(),
            s == value@,
            i <= n,
            forall|j: int| 0 <= j < i ==> host_char(#[trigger] s[j]),
            all_num == (forall|j: int| 0 <= j < i ==> ascii_digit(#[trigger] s[j]) || s[j] == '.'),
        decreases n - i,
    {
        let c = value.get_char(i);
        let u = c as u32;
        let digit = 48 <= u && u <= 57;
        if !(digit || (65 <= u && u <= 90) || (97 <= u && u <= 122) || c == '-' || c == '.') {
            return false;
        }
        if !(digit || c == '.') {
            all_num = false;
        }
        i += 1;
    }
    let mut parts: Vec<&str> = Vec::new();
    let mut start: usize = 0;
    let mut i: usize = 0;
    proof {
        assert(s.subrange(0, 0) =~= Seq::<char>::empty());
        assert(split_dots(s.subrange(0, 0)) =~~= parts@.map_values(|p: &str| p@).push(
            s.subrange(0, 0),
        ));
    }
    while i < n
        invariant
            n == s.len(),
            s == value@,
            start <= i <= n,
            split_dots(s.subrange(0, i as int)) == parts@.map_values(|p: &str| p@).push(
                s.subrange(start as int, i as int),
            ),
        decreases n - i,
    {
        proof {
            assert(s.subrange(0, i + 1) =~= s.subrange(0, i as int).push(s[i as int]));
            lemma_split_dots_push(s.subrange(0, i as int), s[i as int]);
        }
        let c = value.get_char(i);
        if c == '.' {
            let part = value.substring_char(start, i);
            parts.push(part);
            proof {
                assert(s.subrange(i + 1, i + 1) =~= Seq::<char>::empty());
                assert(split_dots(s.subrange(0, i + 1)) =~~= parts@.map_values(|p: &str| p@).push(
                    s.subrange(i + 1, i + 1),
                ));
            }
            start = i + 1;
        } else {
            proof {
                let m = parts@.map_values(|p: &str| p@);
                assert(s.subrange(start as int, i as int).push(s[i as int]) =~= s.subrange(
                    start as int,
                    i + 1,
                ));
                assert(m.push(s.subrange(start as int, i as int)).last() == s.subrange(
                    start as int,
                    i as int,
                ));
                assert(split_dots(s.subrange(0, i + 1)) =~~= m.push(s.subrange(start as int, i + 1)));
            }
        }
        i += 1;
    }
    let last_part = value.substring_char(start, n);
    parts.push(last_part);
    proof {
        assert(s.subrange(0, n as int) =~= s);
        assert(split_dots(s) =~~= parts@.map_values(|p: &str| p@));
    }
    let np = parts.len();
    if np == 4 && all_num {
        let mut j: usize = 0;
        while j < np
            invariant
                s == value@,
                np == parts@.len(),
                parts@.map_values(|p: &str| p@) == split_dots(s),
                j <= np,
                np == 4,
                forall|l: int| 0 <= l < s.len() ==> ascii_digit(#[trigger] s[l]) || s[l] == '.',
                forall|k: int| 0 <= k < j ==> valid_octet(#[trigger] split_dots(s)[k]),
            decreases np - j,
        {
            proof {
                assert(split_dots(s)[j as int] == parts@.map_values(|p: &str| p@)[j as int]);
            }
            if !is_valid_octet(parts[j]) {
                return false;
            }
            j += 1;
        }
        true
    } else {
        let mut j: usize = 0;
        while j < np
            invariant
                s == value@,
                np == parts@.len(),
                parts@.map_values(|p: &str| p@) == split_dots(s),
                j <= np,
                !(split_dots(s).len() == 4 && (forall|l: int|
                    0 <= l < s.len() ==> ascii_digit(#[trigger] s[l]) || s[l] == '.')),
                forall|k: int| 0 <= k < j ==> valid_label(#[trigger] split_dots(s)[k]),
            decreases np - j,
        {
            proof {
                assert(split_dots(s)[j as int] == parts@.map_values(|p: &str| p@)[j as int]);
            }
            if !is_valid_label(parts[j]) {
                return false;
            }
            j += 1;
        }
        true
    }
}

fn exec_ascii_alphanumeric_char(c: char) -> (r: bool)
    ensures
        r == ascii_alphanumeric(c),
{
    let u = c as u32;
    (48 <= u && u <= 57) || (65 <= u && u <= 90) || (97 <= u && u <= 122)
}

} // verus!
