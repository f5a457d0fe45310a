//! Searching and slicing of byte strings: single-byte and substring
//! search with first-occurrence semantics, equality, and suffix tests.

use vstd::prelude::*;
use vstd::slice::slice_to_vec;

verus! {

/// The needle `p` occurs in `t` starting at position `i`.
pub open spec fn is_match_at(t: Seq<u8>, p: Seq<u8>, i: int) -> bool {
    0 <= i && i + p.len() <= t.len() && t.subrange(i, i + p.len() as int) == p
}

/// The needle `p` occurs somewhere in `t`.
pub open spec fn has_match(t: Seq<u8>, p: Seq<u8>) -> bool {
    exists|i: int| is_match_at(t, p, i)
}

/// Position of the first occurrence of `p` in `t`, or -1 if there is none.
pub open spec fn find_first(t: Seq<u8>, p: Seq<u8>) -> int
    decreases t.len(),
{
    if p.len() > t.len() {
        -1
    } else if t.subrange(0, p.len() as int) == p {
        0
    } else if t.len() == 0 {
        -1
    } else {
        let r = find_first(t.drop_first(), p);
        if r < 0 {
            -1
        } else {
            r + 1
        }
    }
}

/// Position of the first occurrence of the byte `b` in `t`, or -1 if none.
pub open spec fn find_byte_first(t: Seq<u8>, b: u8) -> int
    decreases t.len(),
{
    if t.len() == 0 {
        -1
    } else if t[0] == b {
        0
    } else {
        let r = find_byte_first(t.drop_first(), b);
        if r < 0 {
            -1
        } else {
            r + 1
        }
    }
}

/// A match of `p` one step into `t` is a match at the same offset of the tail.
proof fn lemma_match_shift(t: Seq<u8>, p: Seq<u8>, j: int)
    requires
        t.len() > 0,
        0 <= j,
    ensures
        is_match_at(t.drop_first(), p, j) <==> is_match_at(t, p, j + 1),
{
    if j + 1 + p.len() <= t.len() {
        assert(t.drop_first().subrange(j, j + p.len() as int) =~= t.subrange(
            j + 1,
            j + 1 + p.len() as int,
        ));
    }
}

/// `find_first` returns the least match position, and -1 exactly when
/// the needle does not occur.
pub proof fn lemma_find_first_spec(t: Seq<u8>, p: Seq<u8>)
    ensures
        find_first(t, p) >= 0 ==> is_match_at(t, p, find_first(t, p)) && (forall|j: int|
            0 <= j < find_first(t, p) ==> !is_match_at(t, p, j)),
        find_first(t, p) == -1 ==> !has_match(t, p),
        find_first(t, p) >= -1,
    decreases t.len(),
{
    if p.len() > t.len() {
        assert(forall|j: int| is_match_at(t, p, j) ==> j + p.len() <= t.len());
    } else if t.subrange(0, p.len() as int) == p {
        assert(is_match_at(t, p, 0));
    } else {
        assert(t.len() > 0) by {
            if t.len() == 0 {
                assert(t.subrange(0, p.len() as int) =~= p);
            }
        }
        lemma_find_first_spec(t.drop_first(), p);
        let r = find_first(t.drop_first(), p);
        if r < 0 {
            assert forall|j: int| !is_match_at(t, p, j) by {
                if 0 <= j {
                    if j == 0 {
                        assert(t.subrange(0, p.len() as int) != p);
                    } else {
                        lemma_match_shift(t, p, j - 1);
                        assert(!is_match_at(t.drop_first(), p, j - 1));
                    }
                }
            }
        } else {
            lemma_match_shift(t, p, r);
            assert(is_match_at(t, p, r + 1));
            assert forall|j: int| 0 <= j < r + 1 implies !is_match_at(t, p, j) by {
                if j == 0 {
                    assert(t.subrange(0, p.len() as int) != p);
                } else {
                    lemma_match_shift(t, p, j - 1);
                }
            }
        }
    }
}

/// `find_byte_first` returns the least position of the byte, and -1
/// exactly when the byte does not occur.
pub proof fn lemma_find_byte_spec(t: Seq<u8>, b: u8)
    ensures
        find_byte_first(t, b) >= 0 ==> find_byte_first(t, b) < t.len() && t[find_byte_first(t, b)]
            == b && (forall|j: int| 0 <= j < find_byte_first(t, b) ==> t[j] != b),
        find_byte_first(t, b) == -1 ==> forall|j: int| 0 <= j < t.len() ==> t[j] != b,
        find_byte_first(t, b) >= -1,
    decreases t.len(),
{
    if t.len() == 0 {
    } else if t[0] == b {
    } else {
        lemma_find_byte_spec(t.drop_first(), b);
        assert(forall|j: int| 1 <= j < t.len() ==> t[j] == t.drop_first()[j - 1]);
    }
}

/// Byte-wise equality of two slices.
pub fn bytes_eq(a: &[u8], b: &[u8]) -> (r: bool)
    ensures
        r == (a@ == b@),
{
    if a.len() != b.len() {
        return false;
    }
    for i in 0..a.len()
        invariant
            a.len() == b.len(),
            forall|j: int| 0 <= j < i ==> a@[j] == b@[j],
    {
        if a[i] != b[i] {
            return false;
        }
    }
    assert(a@ =~= b@);
    true
}

/// First occurrence of the byte `b` in `t`, if any.
pub fn find_byte(t: &[u8], b: u8) -> (r: Option<usize>)
    ensures
        match r {
            Some(i) => i == find_byte_first(t@, b),
            None => find_byte_first(t@, b) == -1,
        },
{
    proof {
        lemma_find_byte_spec(t@, b);
    }
    for i in 0..t.len()
        invariant
            forall|j: int| 0 <= j < i ==> t@[j] != b,
            find_byte_first(t@, b) >= 0 ==> find_byte_first(t@, b) < t@.len()
                && t@[find_byte_first(t@, b)] == b
                && (forall|j: int| 0 <= j < find_byte_first(t@, b) ==> t@[j] != b),
            find_byte_first(t@, b) == -1 ==> forall|j: int| 0 <= j < t@.len() ==> t@[j] != b,
            find_byte_first(t@, b) >= -1,
    {
        if t[i] == b {
            return Some(i);
        }
    }
    None
}

/// First occurrence of the needle `p` in `t`, if any.
pub fn find_sub(t: &[u8], p: &[u8]) -> (r: Option<usize>)
    ensures
        match r {
            Some(i) => i == find_first(t@, p@) && is_match_at(t@, p@, i as int),
            None => find_first(t@, p@) == -1 && !has_match(t@, p@),
        },
{
    proof {
        lemma_find_first_spec(t@, p@);
    }
    if p.len() > t.len() {
        assert(forall|j: int| is_match_at(t@, p@, j) ==> j + p@.len() <= t@.len());
        return None;
    }
    if p.len() == 0 {
        assert(t@.subrange(0, 0) =~= p@);
        assert(is_match_at(t@, p@, 0));
        return Some(0);
    }
    let last: usize = t.len() - p.len();
    for i in 0..last + 1
        invariant
            p.len() <= t.len(),
            last == t.len() - p.len(),
            forall|j: int| 0 <= j < i ==> !is_match_at(t@, p@, j),
            find_first(t@, p@) >= 0 ==> is_match_at(t@, p@, find_first(t@, p@)) && (forall|j: int|
                0 <= j < find_first(t@, p@) ==> !is_match_at(t@, p@, j)),
            find_first(t@, p@) == -1 ==> !has_match(t@, p@),
            find_first(t@, p@) >= -1,
    {
        let piece: &[u8] = &t[i..i + p.len()];
        if bytes_eq(piece, p) {
            assert(is_match_at(t@, p@, i as int));
            assert(find_first(t@, p@) == i) by {
                if find_first(t@, p@) == -1 {
                    assert(has_match(t@, p@));
                } else if find_first(t@, p@) < i {
                    assert(!is_match_at(t@, p@, find_first(t@, p@)));
                } else if find_first(t@, p@) > i {
                    assert(!is_match_at(t@, p@, i as int));
                }
            }
            return Some(i);
        }
    }
    assert(forall|j: int| is_match_at(t@, p@, j) ==> 0 <= j <= last);
    assert(!has_match(t@, p@));
    None
}

/// Whether the needle `p` occurs in `t`.
pub fn contains_sub(t: &[u8], p: &[u8]) -> (r: bool)
    ensures
        r == has_match(t@, p@),
{
    proof {
        lemma_find_first_spec(t@, p@);
    }
    match find_sub(t, p) {
        Some(_) => true,
        None => false,
    }
}

/// Whether `t` ends with the suffix `p`.
pub fn ends_with_sub(t: &[u8], p: &[u8]) -> (r: bool)
    ensures
        r == (p@.len() <= t@.len() && t@.subrange(t@.len() - p@.len(), t@.len() as int) == p@),
{
    if p.len() > t.len() {
        return false;
    }
    let start: usize = t.len() - p.len();
    let piece: &[u8] = &t[start..t.len()];
    bytes_eq(piece, p)
}

/// Copy of the range `[i, j)` of `t` as a fresh vector.
pub fn subvec(t: &[u8], i: usize, j: usize) -> (r: Vec<u8>)
    requires
        i <= j <= t@.len(),
    ensures
        r@ == t@.subrange(i as int, j as int),
{
    let piece: &[u8] = &t[i..j];
    slice_to_vec(piece)
}

} // verus!
