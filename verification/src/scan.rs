//! Substring search over byte sequences, the one primitive the trackpoint
//! document reader is built on.

use vstd::prelude::*;

verus! {

/// `needle` occurs in `hay` at position `i`.
pub open spec fn occurs_at(hay: Seq<u8>, needle: Seq<u8>, i: int) -> bool {
    &&& 0 <= i
    &&& i + needle.len() <= hay.len()
    &&& hay.subrange(i, i + needle.len()) == needle
}

/// Position of the first occurrence of `needle` in `hay` that starts at or
/// after `from` and ends at or before `end`; `None` when there is none.
pub open spec fn first_at(hay: Seq<u8>, needle: Seq<u8>, from: int, end: int) -> Option<int>
    decreases end - from,
{
    if from < 0 || from + needle.len() > end || end > hay.len() {
        None
    } else if needle.len() == 0 || occurs_at(hay, needle, from) {
        Some(from)
    } else {
        first_at(hay, needle, from + 1, end)
    }
}

/// What `first_at` returns: the earliest bounded occurrence, or `None` when
/// no occurrence fits between `from` and `end`.
pub proof fn lemma_first_at(hay: Seq<u8>, needle: Seq<u8>, from: int, end: int)
    requires
        0 <= from,
        end <= hay.len(),
    ensures
        match first_at(hay, needle, from, end) {
            Some(i) => from <= i && i + needle.len() <= end && occurs_at(hay, needle, i) && (forall|
                j: int,
            |
                from <= j < i ==> !occurs_at(hay, needle, j)),
            None => forall|j: int|
                from <= j && j + needle.len() <= end ==> !occurs_at(hay, needle, j),
        },
    decreases end - from,
{
    if from < 0 || from + needle.len() > end || end > hay.len() {
    } else if needle.len() == 0 || occurs_at(hay, needle, from) {
        assert(hay.subrange(from, from + needle.len()) =~= needle);
    } else {
        lemma_first_at(hay, needle, from + 1, end);
    }
}

/// An executable `Option<usize>` agrees with a ghost `Option<int>`.
pub open spec fn same_position(r: Option<usize>, s: Option<int>) -> bool {
    match (r, s) {
        (Option::Some(a), Option::Some(b)) => a as int == b,
        (Option::None, Option::None) => true,
        _ => false,
    }
}

/// Finds the first occurrence of `needle` in `hay[from..end]`.
pub fn find_in(hay: &[u8], from: usize, end: usize, needle: &[u8]) -> (r: Option<usize>)
    requires
        from <= end,
        end <= hay@.len(),
    ensures
        same_position(r, first_at(hay@, needle@, from as int, end as int)),
{
    let n = needle.len();
    if n == 0 {
        return Some(from);
    }
    let mut i = from;
    loop
        invariant
            from <= i <= end,
            end <= hay@.len(),
            n == needle@.len(),
            n >= 1,
            first_at(hay@, needle@, from as int, end as int) == first_at(
                hay@,
                needle@,
                i as int,
                end as int,
            ),
        decreases end - i,
    {
        if n > end - i {
            return None;
        }
        let mut j: usize = 0;
        let mut ok = true;
        while j < n
            invariant
                i + n <= end,
                end <= hay@.len(),
                n == needle@.len(),
                j <= n,
                ok ==> forall|k: int| 0 <= k < j ==> hay@[i + k] == needle@[k],
                !ok ==> !occurs_at(hay@, needle@, i as int),
            decreases n - j,
        {
            if hay[i + j] != needle[j] {
                proof {
                    if occurs_at(hay@, needle@, i as int) {
                        assert(hay@.subrange(i as int, i + n as int)[j as int] == hay@[i + j]);
                    }
                }
                ok = false;
                j = n;
            } else {
                j = j + 1;
            }
        }
        if ok {
            proof {
                assert(hay@.subrange(i as int, i + n as int) =~= needle@);
            }
            return Some(i);
        }
        i = i + 1;
    }
}

} // verus!
