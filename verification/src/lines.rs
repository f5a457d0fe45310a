//! Splitting text into lines: segments end at a newline byte, a final
//! segment needs no newline, and one carriage return before a newline is
//! dropped, as the standard line iterator does.

use vstd::prelude::*;
use crate::bytes::{find_byte, find_byte_first, lemma_find_byte_spec, subvec};

verus! {

pub const NL: u8 = 10;

pub const CR: u8 = 13;

/// A line with one trailing carriage return removed.
pub open spec fn strip_cr(l: Seq<u8>) -> Seq<u8> {
    if l.len() > 0 && l.last() == CR {
        l.drop_last()
    } else {
        l
    }
}

/// The lines of `t`: split at newline bytes, no empty final line after
/// a trailing newline, and one carriage return dropped before each
/// newline — but not at the end of a final line that no newline closed.
pub open spec fn split_lines(t: Seq<u8>) -> Seq<Seq<u8>>
    decreases t.len(),
{
    if t.len() == 0 {
        Seq::empty()
    } else {
        let i = find_byte_first(t, NL);
        if i < 0 || i >= t.len() {
            seq![t]
        } else {
            seq![strip_cr(t.take(i))] + split_lines(t.skip(i + 1))
        }
    }
}

/// Text that opens with a newline-free line ends up with that line first.
pub proof fn lemma_split_lines_prepend(line: Seq<u8>, rest: Seq<u8>)
    requires
        forall|j: int| 0 <= j < line.len() ==> line[j] != NL,
        line.len() == 0 || line.last() != CR,
    ensures
        split_lines(line + seq![NL] + rest) == seq![line] + split_lines(rest),
{
    let t = line + seq![NL] + rest;
    assert(t.len() > 0);
    assert(t[line.len() as int] == NL);
    assert(forall|j: int| 0 <= j < line.len() ==> t[j] == line[j]);
    lemma_find_byte_spec(t, NL);
    let i = find_byte_first(t, NL);
    assert(i == line.len()) by {
        if i == -1 {
            assert(t[line.len() as int] != NL);
        } else if i < line.len() {
            assert(t[i] == NL);
            assert(line[i] != NL);
        } else if i > line.len() {
            assert(t[line.len() as int] != NL);
        }
    }
    assert(t.take(i) =~= line);
    assert(strip_cr(line) == line);
    assert(t.skip(i + 1) =~= rest);
    assert(split_lines(t) =~= seq![line] + split_lines(rest));
}

/// Copy of the range `[start, end)` of `t` with one trailing carriage
/// return removed.
fn strip_cr_range(t: &[u8], start: usize, end: usize) -> (r: Vec<u8>)
    requires
        start <= end <= t@.len(),
    ensures
        r@ == strip_cr(t@.subrange(start as int, end as int)),
{
    let ghost piece = t@.subrange(start as int, end as int);
    if end > start && t[end - 1] == CR {
        assert(piece.last() == CR);
        let r = subvec(t, start, end - 1);
        assert(r@ =~= piece.drop_last());
        r
    } else {
        subvec(t, start, end)
    }
}

/// Split `t` into its lines.
pub fn split_lines_vec(t: &[u8]) -> (r: Vec<Vec<u8>>)
    ensures
        r.deep_view() == split_lines(t@),
{
    let mut acc: Vec<Vec<u8>> = Vec::new();
    let mut pos: usize = 0;
    assert(t@.skip(0) =~= t@);
    while pos < t.len()
        invariant
            pos <= t@.len(),
            acc.deep_view() + split_lines(t@.skip(pos as int)) =~= split_lines(t@),
        decreases t@.len() - pos,
    {
        let ghost rest = t@.skip(pos as int);
        assert(rest.len() > 0);
        let tail: &[u8] = &t[pos..t.len()];
        assert(tail@ =~= rest);
        proof {
            lemma_find_byte_spec(rest, NL);
        }
        match find_byte(tail, NL) {
            None => {
                let line = subvec(t, pos, t.len());
                assert(line@ =~= rest);
                assert(split_lines(rest) =~= seq![rest]);
                let ghost old_acc = acc.deep_view();
                acc.push(line);
                proof {
                    assert(acc@.last().deep_view() =~= rest);
                    assert(acc.deep_view() =~= old_acc.push(rest));
                    assert(t@.skip(t@.len() as int) =~= Seq::<u8>::empty());
                    assert(acc.deep_view() + split_lines(t@.skip(t@.len() as int)) =~= split_lines(
                        t@,
                    ));
                }
                pos = t.len();
            },
            Some(i) => {
                assert(0 <= i < rest.len());
                assert(rest[i as int] == NL);
                let end: usize = pos + i;
                let line = strip_cr_range(t, pos, end);
                assert(t@.subrange(pos as int, end as int) =~= rest.take(i as int));
                assert(split_lines(rest) =~= seq![strip_cr(rest.take(i as int))] + split_lines(
                    rest.skip(i + 1),
                ));
                let ghost old_acc = acc.deep_view();
                acc.push(line);
                proof {
                    assert(acc@.last().deep_view() =~= strip_cr(rest.take(i as int)));
                    assert(acc.deep_view() =~= old_acc.push(strip_cr(rest.take(i as int))));
                    assert(rest.skip(i + 1) =~= t@.skip(pos + i + 1));
                    assert(acc.deep_view() + split_lines(t@.skip(pos + i + 1)) =~= split_lines(
                        t@,
                    ));
                }
                pos = end + 1;
            },
        }
    }
    proof {
        assert(t@.skip(pos as int) =~= Seq::<u8>::empty());
        assert(acc.deep_view() =~= split_lines(t@));
    }
    acc
}

} // verus!
