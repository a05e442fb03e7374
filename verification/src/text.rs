//! Small verified helpers on strings and characters shared by the parser
//! and the response-validation logic.

use vstd::prelude::*;

verus! {

/// True when `s` holds no line-terminator character.
pub open spec fn no_terminator(s: Seq<char>) -> bool {
    forall|i: int| 0 <= i < s.len() ==> s[i] != '\n' && s[i] != '\r'
}

/// Character-by-character equality of two string slices.
pub fn str_eq(a: &str, b: &str) -> (r: bool)
    ensures
        r == (a@ == b@),
{
    let an = a.unicode_len();
    let bn = b.unicode_len();
    if an != bn {
        return false;
    }
    let mut i: usize = 0;
    while i < an
        invariant
            an == a@.len(),
            an == b@.len(),
            i <= an,
            forall|j: int| 0 <= j < i ==> a@[j] == b@[j],
        decreases an - i,
    {
        if a.get_char(i) != b.get_char(i) {
            return false;
        }
        i += 1;
    }
    proof {
        assert(a@ =~= b@);
    }
    true
}

/// `i` is the position of the first occurrence of `c` in `s`.
pub open spec fn is_first_at(s: Seq<char>, c: char, i: int) -> bool {
    &&& 0 <= i < s.len()
    &&& s[i] == c
    &&& forall|j: int| 0 <= j < i ==> s[j] != c
}

pub open spec fn has_char(s: Seq<char>, c: char) -> bool {
    exists|i: int| is_first_at(s, c, i)
}

pub open spec fn first_pos(s: Seq<char>, c: char) -> int {
    choose|i: int| is_first_at(s, c, i)
}

/// The first occurrence is unique, so `first_pos` returns the witness.
pub proof fn lemma_first_at_unique(s: Seq<char>, c: char, i: int)
    requires
        is_first_at(s, c, i),
    ensures
        has_char(s, c),
        first_pos(s, c) == i,
{
    assert(has_char(s, c));
    let k = first_pos(s, c);
    assert(is_first_at(s, c, k));
    if k < i {
        assert(s[k] == c);
        assert(false);
    }
    if k > i {
        assert(s[i] == c);
        assert(false);
    }
}

/// Finds the first occurrence of `c` in `s`, if any.
pub fn find_char(s: &str, c: char) -> (r: Option<usize>)
    ensures
        match r {
            Some(i) => is_first_at(s@, c, i as int),
            None => !has_char(s@, c),
        },
{
    let n = s.unicode_len();
    let mut i: usize = 0;
    while i < n
        invariant
            n == s@.len(),
            i <= n,
            forall|j: int| 0 <= j < i ==> s@[j] != c,
        decreases n - i,
    {
        if s.get_char(i) == c {
            return Some(i);
        }
        i += 1;
    }
    proof {
        if has_char(s@, c) {
            let k = first_pos(s@, c);
            assert(is_first_at(s@, c, k));
            assert(false);
        }
    }
    None
}

/// ASCII lower-casing of one character; everything else is unchanged.
pub open spec fn lower_char(c: char) -> char {
    if 'A' <= c && c <= 'Z' {
        ((c as u8) + 32) as char
    } else {
        c
    }
}

/// ASCII lower-casing of a character sequence.
pub open spec fn lower(s: Seq<char>) -> Seq<char> {
    s.map_values(|c: char| lower_char(c))
}

fn to_lower(c: char) -> (r: char)
    ensures
        r == lower_char(c),
{
    if 'A' <= c && c <= 'Z' {
        ((c as u8) + 32) as char
    } else {
        c
    }
}

/// Case-insensitive (ASCII) equality of two string slices.
pub fn str_eq_ignore_case(a: &str, b: &str) -> (r: bool)
    ensures
        r == (lower(a@) == lower(b@)),
{
    let an = a.unicode_len();
    let bn = b.unicode_len();
    proof {
        assert(lower(a@).len() == a@.len());
        assert(lower(b@).len() == b@.len());
    }
    if an != bn {
        return false;
    }
    let mut i: usize = 0;
    while i < an
        invariant
            an == a@.len(),
            an == b@.len(),
            i <= an,
            forall|j: int| 0 <= j < i ==> lower_char(a@[j]) == lower_char(b@[j]),
        decreases an - i,
    {
        if to_lower(a.get_char(i)) != to_lower(b.get_char(i)) {
            proof {
                assert(lower(a@)[i as int] == lower_char(a@[i as int]));
                assert(lower(b@)[i as int] == lower_char(b@[i as int]));
            }
            return false;
        }
        i += 1;
    }
    proof {
        assert(lower(a@) =~= lower(b@));
    }
    true
}

} // verus!
