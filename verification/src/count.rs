//! Occurrence counting over text: single characters and literal marker
//! sequences, matched left to right without overlap.

use vstd::prelude::*;
use vstd::string::StrSliceExecFns;

verus! {

/// Number of occurrences of the character `c` in `s`.
pub open spec fn count_char(s: Seq<char>, c: char) -> nat
    decreases s.len(),
{
    if s.len() == 0 {
        0
    } else {
        count_char(s.drop_last(), c) + if s.last() == c {
            1nat
        } else {
            0nat
        }
    }
}

/// Number of occurrences of the pattern `p` in `s`, scanning left to right
/// and resuming after the end of each match, so matches never overlap.
/// An empty pattern occurs zero times.
pub open spec fn count_matches(s: Seq<char>, p: Seq<char>) -> nat
    decreases s.len(),
{
    if p.len() == 0 || s.len() < p.len() {
        0
    } else if s.subrange(0, p.len() as int) == p {
        1 + count_matches(s.skip(p.len() as int), p)
    } else {
        count_matches(s.skip(1), p)
    }
}

/// Counts occurrences of the character `c` in `s`.
pub fn count_char_occurrences(s: &str, c: char) -> (n: usize)
    ensures
        n == count_char(s@, c),
{
    let len = s.unicode_len();
    let mut n: usize = 0;
    let mut i: usize = 0;
    while i < len
        invariant
            i <= len,
            len == s@.len(),
            n == count_char(s@.take(i as int), c),
            n <= i,
        decreases len - i,
    {
        let ch = s.get_char(i);
        proof {
            assert(s@.take(i + 1).drop_last() =~= s@.take(i as int));
            assert(s@.take(i + 1).last() == s@[i as int]);
        }
        if ch == c {
            n = n + 1;
        }
        i = i + 1;
    }
    proof {
        assert(s@.take(len as int) =~= s@);
    }
    n
}

/// True iff `p` occurs in `s` starting exactly at position `i`.
fn matches_at(s: &str, p: &str, i: usize, s_len: usize, p_len: usize) -> (b: bool)
    requires
        s_len == s@.len(),
        p_len == p@.len(),
        i + p_len <= s_len,
    ensures
        b == (s@.subrange(i as int, i + p@.len()) == p@),
{
    let mut j: usize = 0;
    while j < p_len
        invariant
            j <= p_len,
            s_len == s@.len(),
            p_len == p@.len(),
            i + p_len <= s_len,
            forall|k: int| 0 <= k < j ==> s@[i + k] == p@[k],
        decreases p_len - j,
    {
        if s.get_char(i + j) != p.get_char(j) {
            proof {
                assert(s@.subrange(i as int, i + p@.len())[j as int] != p@[j as int]);
            }
            return false;
        }
        j = j + 1;
    }
    proof {
        assert(s@.subrange(i as int, i + p@.len()) =~= p@);
    }
    true
}

/// Counts left-to-right, non-overlapping occurrences of the pattern `p`
/// in `s`.
pub fn count_pattern_occurrences(s: &str, p: &str) -> (n: usize)
    requires
        p@.len() >= 1,
    ensures
        n == count_matches(s@, p@),
{
    let s_len = s.unicode_len();
    let p_len = p.unicode_len();
    if s_len < p_len {
        return 0;
    }
    let mut n: usize = 0;
    let mut i: usize = 0;
    proof {
        assert(s@.skip(0) =~= s@);
    }
    while i <= s_len - p_len
        invariant
            i <= s_len,
            s_len == s@.len(),
            p_len == p@.len(),
            p_len >= 1,
            p_len <= s_len,
            n <= i,
            n + count_matches(s@.skip(i as int), p@) == count_matches(s@, p@),
        decreases s_len - i,
    {
        if matches_at(s, p, i, s_len, p_len) {
            proof {
                assert(s@.skip(i as int).subrange(0, p@.len() as int) =~= s@.subrange(
                    i as int,
                    i + p@.len(),
                ));
                assert(s@.skip(i as int).skip(p@.len() as int) =~= s@.skip(i + p@.len()));
                assert(count_matches(s@.skip(i as int), p@) == 1 + count_matches(
                    s@.skip(i + p@.len()),
                    p@,
                ));
            }
            n = n + 1;
            i = i + p_len;
        } else {
            proof {
                assert(s@.skip(i as int).subrange(0, p@.len() as int) =~= s@.subrange(
                    i as int,
                    i + p@.len(),
                ));
                assert(s@.skip(i as int).subrange(0, p@.len() as int) != p@);
                assert(s@.skip(i as int).skip(1) =~= s@.skip(i + 1));
                assert(count_matches(s@.skip(i as int), p@) == count_matches(s@.skip(i + 1), p@));
            }
            i = i + 1;
        }
    }
    proof {
        assert(count_matches(s@.skip(i as int), p@) == 0);
    }
    n
}

} // verus!
