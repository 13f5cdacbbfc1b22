//! Small text utilities: locating a separator character from either
//! end of a string, and character-wise string comparison.

use vstd::prelude::*;

verus! {

/// Index of the first occurrence of `c` in `s`, or -1 when absent.
pub open spec fn find_char(s: Seq<char>, c: char) -> int
    decreases s.len(),
{
    if s.len() == 0 {
        -1
    } else if s[0] == c {
        0
    } else if find_char(s.drop_first(), c) == -1 {
        -1
    } else {
        1 + find_char(s.drop_first(), c)
    }
}

/// Index of the last occurrence of `c` in `s`, or -1 when absent.
pub open spec fn rfind_char(s: Seq<char>, c: char) -> int
    decreases s.len(),
{
    if s.len() == 0 {
        -1
    } else if s[s.len() - 1] == c {
        s.len() - 1
    } else {
        rfind_char(s.drop_last(), c)
    }
}

/// `find_char` returns -1 exactly when `c` is absent, and otherwise
/// the position of the first occurrence.
pub proof fn lemma_find_char(s: Seq<char>, c: char)
    ensures
        find_char(s, c) == -1 ==> forall|i: int| 0 <= i < s.len() ==> s[i] != c,
        find_char(s, c) != -1 ==> {
            &&& 0 <= find_char(s, c) < s.len()
            &&& s[find_char(s, c)] == c
            &&& forall|i: int| 0 <= i < find_char(s, c) ==> s[i] != c
        },
    decreases s.len(),
{
    if s.len() > 0 && s[0] != c {
        let t = s.drop_first();
        lemma_find_char(t, c);
        if find_char(t, c) == -1 {
            assert forall|i: int| 0 <= i < s.len() implies s[i] != c by {
                if i > 0 {
                    assert(t[i - 1] == s[i]);
                    assert(t[i - 1] != c);
                }
            }
        } else {
            let f = find_char(t, c);
            assert(find_char(s, c) == 1 + f);
            assert(s[1 + f] == t[f]);
            assert forall|i: int| 0 <= i < 1 + f implies s[i] != c by {
                if i > 0 {
                    assert(t[i - 1] == s[i]);
                    assert(t[i - 1] != c);
                }
            }
        }
    }
}

/// `rfind_char` returns -1 exactly when `c` is absent, and otherwise
/// the position of the last occurrence.
pub proof fn lemma_rfind_char(s: Seq<char>, c: char)
    ensures
        rfind_char(s, c) == -1 ==> forall|i: int| 0 <= i < s.len() ==> s[i] != c,
        rfind_char(s, c) != -1 ==> {
            &&& 0 <= rfind_char(s, c) < s.len()
            &&& s[rfind_char(s, c)] == c
            &&& forall|i: int| rfind_char(s, c) < i < s.len() ==> s[i] != c
        },
    decreases s.len(),
{
    if s.len() > 0 && s[s.len() - 1] != c {
        let t = s.drop_last();
        lemma_rfind_char(t, c);
        if rfind_char(t, c) == -1 {
            assert forall|i: int| 0 <= i < s.len() implies s[i] != c by {
                if i < s.len() - 1 {
                    assert(t[i] == s[i]);
                    assert(t[i] != c);
                }
            }
        } else {
            let f = rfind_char(t, c);
            assert(rfind_char(s, c) == f);
            assert(s[f] == t[f]);
            assert forall|i: int| f < i < s.len() implies s[i] != c by {
                if i < s.len() - 1 {
                    assert(t[i] == s[i]);
                    assert(t[i] != c);
                }
            }
        }
    }
}

/// Finds the first occurrence of `c` in `value`.
pub fn find_first(value: &str, c: char) -> (r: Option<usize>)
    ensures
        r matches Some(i) ==> i == find_char(value@, c),
        r is None ==> find_char(value@, c) == -1,
{
    let ghost s = value@;
    let n = value.unicode_len();
    let mut i: usize = 0;
    while i < n
        invariant
            s == value@,
            n == s.len(),
            i <= n,
            forall|j: int| 0 <= j < i ==> s[j] != c,
        decreases n - i,
    {
        if value.get_char(i) == c {
            proof {
                lemma_find_char(s, c);
            }
            return Some(i);
        }
        i += 1;
    }
    proof {
        lemma_find_char(s, c);
    }
    None
}

/// Finds the last occurrence of `c` in `value`.
pub fn find_last(value: &str, c: char) -> (r: Option<usize>)
    ensures
        r matches Some(i) ==> i == rfind_char(value@, c),
        r is None ==> rfind_char(value@, c) == -1,
{
    let ghost s = value@;
    let n = value.unicode_len();
    let mut i: usize = n;
    while i > 0
        invariant
            s == value@,
            n == s.len(),
            i <= n,
            forall|j: int| i <= j < n ==> s[j] != c,
        decreases i,
    {
        i -= 1;
        if value.get_char(i) == c {
            proof {
                lemma_rfind_char(s, c);
            }
            return Some(i);
        }
    }
    proof {
        lemma_rfind_char(s, c);
    }
    None
}

/// Character-wise string equality.
pub fn str_eq(a: &str, b: &str) -> (r: bool)
    ensures
        r == (a@ == b@),
{
    let na = a.unicode_len();
    let nb = b.unicode_len();
    if na != nb {
        return false;
    }
    let mut i: usize = 0;
    while i < na
        invariant
            na == a@.len(),
            na == b@.len(),
            i <= na,
            forall|j: int| 0 <= j < i ==> a@[j] == b@[j],
        decreases na - i,
    {
        if a.get_char(i) != b.get_char(i) {
            return false;
        }
        i += 1;
    }
    proof {
        assert(a@ =~= b@);
    }
    true
}

} // verus!
