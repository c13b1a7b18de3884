//! Small helpers for moving between `String`/`&str` and `Vec<char>`.
//!
//! The decimal-shifting code works on `Vec<char>`, which Verus reasons
//! about directly; these helpers convert at the boundary.

use vstd::prelude::*;

verus! {

/// Characters that may appear in a decimal price string.
pub open spec fn is_value_char(c: char) -> bool {
    ('0' <= c && c <= '9') || c == '.' || c == '-'
}

/// Whether two string slices hold the same characters.
pub fn str_eq(a: &str, b: &str) -> (r: bool)
    ensures
        r == (a@ == b@),
{
    let n = a.unicode_len();
    if n != b.unicode_len() {
        return false;
    }
    let mut i: usize = 0;
    while i < n
        invariant
            i <= n,
            n == a@.len(),
            n == b@.len(),
            forall|j: int| 0 <= j < i ==> a@[j] == b@[j],
        decreases n - i,
    {
        if a.get_char(i) != b.get_char(i) {
            return false;
        }
        i = i + 1;
    }
    proof {
        assert(a@ =~= b@);
    }
    true
}

/// Collects the characters of a string slice into a vector.
pub fn chars_of(s: &str) -> (v: Vec<char>)
    ensures
        v@ == s@,
{
    let n = s.unicode_len();
    let mut v: Vec<char> = Vec::new();
    let mut i: usize = 0;
    while i < n
        invariant
            i <= n,
            n == s@.len(),
            v@ == s@.take(i as int),
        decreases n - i,
    {
        v.push(s.get_char(i));
        i = i + 1;
        proof {
            assert(v@ =~= s@.take(i as int));
        }
    }
    proof {
        assert(v@ =~= s@);
    }
    v
}

/// Returns the one-character string slice holding `c`.
pub fn one_char_str(c: char) -> (r: &'static str)
    requires
        is_value_char(c),
    ensures
        r@ =~= seq![c],
{
    match c {
        '0' => {
            proof { reveal_strlit("0"); }
            "0"
        },
        '1' => {
            proof { reveal_strlit("1"); }
            "1"
        },
        '2' => {
            proof { reveal_strlit("2"); }
            "2"
        },
        '3' => {
            proof { reveal_strlit("3"); }
            "3"
        },
        '4' => {
            proof { reveal_strlit("4"); }
            "4"
        },
        '5' => {
            proof { reveal_strlit("5"); }
            "5"
        },
        '6' => {
            proof { reveal_strlit("6"); }
            "6"
        },
        '7' => {
            proof { reveal_strlit("7"); }
            "7"
        },
        '8' => {
            proof { reveal_strlit("8"); }
            "8"
        },
        '9' => {
            proof { reveal_strlit("9"); }
            "9"
        },
        '.' => {
            proof { reveal_strlit("."); }
            "."
        },
        _ => {
            proof { reveal_strlit("-"); }
            "-"
        },
    }
}

/// Builds a `String` from a vector of decimal-value characters.
pub fn string_from_chars(v: &Vec<char>) -> (s: String)
    requires
        forall|i: int| 0 <= i < v@.len() ==> is_value_char(v@[i]),
    ensures
        s@ == v@,
{
    let mut s = String::new();
    let mut i: usize = 0;
    while i < v.len()
        invariant
            i <= v@.len(),
            forall|j: int| 0 <= j < v@.len() ==> is_value_char(v@[j]),
            s@ == v@.take(i as int),
        decreases v@.len() - i,
    {
        s.append(one_char_str(v[i]));
        i = i + 1;
        proof {
            assert(s@ =~= v@.take(i as int));
        }
    }
    proof {
        assert(s@ =~= v@);
    }
    s
}

} // verus!
