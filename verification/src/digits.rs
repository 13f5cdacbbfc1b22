//! Unsigned decimal numerals: the value of a digit string, the
//! canonical digit string of a value, and the port-number parser.

use vstd::prelude::*;

use crate::ascii_digit;
use crate::digit_value;

verus! {

/// Value of a digit string read as an unsigned decimal numeral
/// (the empty string reads as 0).
pub open spec fn decimal_value(s: Seq<char>) -> int
    decreases s.len(),
{
    if s.len() == 0 {
        0
    } else {
        decimal_value(s.drop_last()) * 10 + digit_value(s.last())
    }
}

/// A well-formed port numeral: non-empty, digits only (no sign, no
/// whitespace), and in range for a 16-bit port.
pub open spec fn valid_port(s: Seq<char>) -> bool {
    &&& s.len() >= 1
    &&& forall|i: int| 0 <= i < s.len() ==> ascii_digit(#[trigger] s[i])
    &&& decimal_value(s) <= 65535
}

/// The digit character of a value below ten.
pub open spec fn digit_char(d: int) -> char {
    if d == 0 {
        '0'
    } else if d == 1 {
        '1'
    } else if d == 2 {
        '2'
    } else if d == 3 {
        '3'
    } else if d == 4 {
        '4'
    } else if d == 5 {
        '5'
    } else if d == 6 {
        '6'
    } else if d == 7 {
        '7'
    } else if d == 8 {
        '8'
    } else {
        '9'
    }
}

/// Canonical decimal numeral of a non-negative value: no leading
/// zeros, except that 0 itself reads `"0"`.
pub open spec fn decimal_string(n: int) -> Seq<char>
    decreases n,
{
    if n < 10 {
        seq![digit_char(n)]
    } else {
        decimal_string(n / 10).push(digit_char(n % 10))
    }
}

/// A digit string has a non-negative value.
pub proof fn lemma_decimal_value_nonneg(s: Seq<char>)
    requires
        forall|i: int| 0 <= i < s.len() ==> ascii_digit(#[trigger] s[i]),
    ensures
        decimal_value(s) >= 0,
    decreases s.len(),
{
    if s.len() > 0 {
        lemma_decimal_value_nonneg(s.drop_last());
    }
}

/// A digit string of at most four digits stays under the matching
/// power of ten.
pub proof fn lemma_decimal_value_bound(s: Seq<char>)
    requires
        forall|i: int| 0 <= i < s.len() ==> ascii_digit(#[trigger] s[i]),
        s.len() <= 4,
    ensures
        s.len() == 0 ==> decimal_value(s) == 0,
        s.len() == 1 ==> decimal_value(s) < 10,
        s.len() == 2 ==> decimal_value(s) < 100,
        s.len() == 3 ==> decimal_value(s) < 1000,
        s.len() == 4 ==> decimal_value(s) < 10000,
    decreases s.len(),
{
    if s.len() > 0 {
        lemma_decimal_value_bound(s.drop_last());
        assert(digit_value(s.last()) <= 9);
    }
}

/// Reading one more digit multiplies the value by ten and adds it.
pub proof fn lemma_decimal_value_push(s: Seq<char>, c: char)
    ensures
        decimal_value(s.push(c)) == decimal_value(s) * 10 + digit_value(c),
{
    assert(s.push(c).drop_last() =~= s);
}

/// The canonical numeral of a value reads back as that value, is
/// non-empty, and is made of digits.
pub proof fn lemma_decimal_string_value(n: int)
    requires
        n >= 0,
    ensures
        decimal_string(n).len() >= 1,
        forall|i: int| 0 <= i < decimal_string(n).len() ==> ascii_digit(#[trigger] decimal_string(n)[i]),
        decimal_value(decimal_string(n)) == n,
    decreases n,
{
    if n < 10 {
        assert(decimal_string(n) =~= seq![digit_char(n)]);
        assert(decimal_value(seq![digit_char(n)].drop_last()) == 0);
    } else {
        lemma_decimal_string_value(n / 10);
        lemma_decimal_value_push(decimal_string(n / 10), digit_char(n % 10));
        assert(ascii_digit(digit_char(n % 10)));
        assert(digit_value(digit_char(n % 10)) == n % 10);
        assert(forall|i: int|
            0 <= i < decimal_string(n / 10).len() ==> ascii_digit(
                #[trigger] decimal_string(n)[i],
            ));
    }
}

fn digit_str(d: u16) -> (r: &'static str)
    requires
        d < 10,
    ensures
        r@ == seq![digit_char(d as int)],
{
    let r: &'static str = if d == 0 {
        proof {
            reveal_strlit("0");
        }
        "0"
    } else if d == 1 {
        proof {
            reveal_strlit("1");
        }
        "1"
    } else if d == 2 {
        proof {
            reveal_strlit("2");
        }
        "2"
    } else if d == 3 {
        proof {
            reveal_strlit("3");
        }
        "3"
    } else if d == 4 {
        proof {
            reveal_strlit("4");
        }
        "4"
    } else if d == 5 {
        proof {
            reveal_strlit("5");
        }
        "5"
    } else if d == 6 {
        proof {
            reveal_strlit("6");
        }
        "6"
    } else if d == 7 {
        proof {
            reveal_strlit("7");
        }
        "7"
    } else if d == 8 {
        proof {
            reveal_strlit("8");
        }
        "8"
    } else {
        proof {
            reveal_strlit("9");
        }
        "9"
    };
    proof {
        assert(r@ =~= seq![digit_char(d as int)]);
    }
    r
}

/// Renders a value as its canonical decimal numeral.
pub fn decimal_to_string(n: u16) -> (r: String)
    ensures
        r@ == decimal_string(n as int),
    decreases n,
{
    if n < 10 {
        digit_str(n).to_owned()
    } else {
        let mut s = decimal_to_string(n / 10);
        s.append(digit_str(n % 10));
        proof {
            assert(s@ =~= decimal_string((n / 10) as int).push(digit_char((n % 10) as int)));
        }
        s
    }
}

/// Parses a 16-bit unsigned decimal numeral; rejects anything but a
/// plain digit string whose value fits.
pub fn parse_port(s: &str) -> (r: Option<u16>)
    ensures
        r is Some <==> valid_port(s@),
        r matches Some(p) ==> p as int == decimal_value(s@),
{
    let n = s.unicode_len();
    if n == 0 {
        return None;
    }
    let mut i: usize = 0;
    let mut acc: u32 = 0;
    let mut over: bool = false;
    while i < n
        invariant
            n == s@.len(),
            i <= n,
            forall|j: int| 0 <= j < i ==> ascii_digit(#[trigger] s@[j]),
            !over ==> acc <= 65535 && acc as int == decimal_value(s@.subrange(0, i as int)),
            over ==> decimal_value(s@.subrange(0, i as int)) > 65535,
        decreases n - i,
    {
        let c = s.get_char(i);
        let u = c as u32;
        if !(48 <= u && u <= 57) {
            return None;
        }
        proof {
            assert(s@.subrange(0, i + 1) =~= s@.subrange(0, i as int).push(s@[i as int]));
            lemma_decimal_value_push(s@.subrange(0, i as int), s@[i as int]);
            lemma_decimal_value_nonneg(s@.subrange(0, i as int));
        }
        if over {
        } else {
            let next = acc * 10 + (u - 48);
            if next > 65535 {
                over = true;
            } else {
                acc = next;
            }
        }
        i += 1;
    }
    proof {
        assert(s@.subrange(0, n as int) =~= s@);
    }
    if over {
        None
    } else {
        Some(acc as u16)
    }
}

} // verus!
