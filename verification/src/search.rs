//! Case-sensitive substring search over strings, the matching rule of
//! the query filter.

use vstd::prelude::*;

verus! {

/// `needle` occurs in `hay` starting exactly at position `i`.
pub open spec fn is_substring_at(hay: Seq<char>, needle: Seq<char>, i: int) -> bool {
    &&& 0 <= i
    &&& i + needle.len() <= hay.len()
    &&& hay.subrange(i, i + needle.len()) == needle
}

/// `needle` occurs somewhere in `hay`; an empty needle always occurs.
pub open spec fn is_substring(hay: Seq<char>, needle: Seq<char>) -> bool {
    exists|i: int| is_substring_at(hay, needle, i)
}

/// An empty needle occurs in every string.
pub proof fn lemma_empty_needle(hay: Seq<char>)
    ensures
        is_substring(hay, Seq::<char>::empty()),
{
    assert(hay.subrange(0, 0) =~= Seq::<char>::empty());
    assert(is_substring_at(hay, Seq::<char>::empty(), 0));
}

/// Whether `needle` occurs in `hay` as a contiguous run of characters.
pub fn str_contains(hay: &str, needle: &str) -> (r: bool)
    ensures
        r == is_substring(hay@, needle@),
{
    let n: usize = hay.unicode_len();
    let m: usize = needle.unicode_len();
    if m == 0 {
        proof {
            assert(needle@ =~= Seq::<char>::empty());
            lemma_empty_needle(hay@);
        }
        return true;
    }
    if m > n {
        proof {
            assert(forall|i: int| !is_substring_at(hay@, needle@, i));
        }
        return false;
    }
    let mut i: usize = 0;
    while i <= n - m
        invariant
            1 <= m <= n,
            n == hay@.len(),
            m == needle@.len(),
            i <= n - m + 1,
            forall|k: int| 0 <= k < i ==> !is_substring_at(hay@, needle@, k),
        decreases n - m + 1 - i,
    {
        let mut j: usize = 0;
        let mut matched = true;
        while j < m
            invariant_except_break
                1 <= m <= n,
                n == hay@.len(),
                m == needle@.len(),
                i <= n - m,
                j <= m,
                matched,
                forall|k: int| 0 <= k < j ==> hay@[i + k] == needle@[k],
            ensures
                matched ==> forall|k: int| 0 <= k < m ==> hay@[i + k] == needle@[k],
                !matched ==> !is_substring_at(hay@, needle@, i as int),
            decreases m - j,
        {
            if hay.get_char(i + j) != needle.get_char(j) {
                proof {
                    assert(hay@.subrange(i as int, i + m) == needle@ ==> hay@.subrange(
                        i as int,
                        i + m,
                    )[j as int] == needle@[j as int]);
                }
                matched = false;
                break ;
            }
            j += 1;
        }
        if matched {
            proof {
                assert forall|k: int| 0 <= k < m implies hay@.subrange(i as int, i + m)[k]
                    == needle@[k] by {
                    assert(hay@[i + k] == needle@[k]);
                }
                assert(hay@.subrange(i as int, i + m) =~= needle@);
                assert(is_substring_at(hay@, needle@, i as int));
            }
            return true;
        }
        i += 1;
    }
    proof {
        assert(forall|k: int| k > n - m ==> !is_substring_at(hay@, needle@, k));
    }
    false
}

} // verus!
