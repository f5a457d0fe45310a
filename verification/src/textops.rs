//! The small text transforms of the build: dropping the symbol-prefix
//! placeholder from shipped headers, reading the library version out of
//! the header, and filling in the pkg-config template.

use vstd::prelude::*;
use vstd::slice::slice_to_vec;
use vstd::string::StringSliceAdditionalSpecFns;
use crate::bytes::{find_first, find_byte_first, find_sub, find_byte, has_match, contains_sub,
    lemma_find_first_spec, lemma_find_byte_spec, subvec};
use crate::lines::{split_lines, split_lines_vec, NL};

verus! {

pub const QUOTE: u8 = 34;

/// The placeholder that configured builds of the wrapped library strip
/// from shipped headers.
pub open spec fn marker() -> Seq<u8> {
    "@ZLIB_SYMBOL_PREFIX@".spec_bytes()
}

/// A line with the first placeholder occurrence removed; a line without
/// one stays as it is.
pub open spec fn marker_stripped(l: Seq<u8>) -> Seq<u8> {
    let i = find_first(l, marker());
    if i < 0 || i + marker().len() > l.len() {
        l
    } else {
        l.take(i) + l.skip(i + marker().len())
    }
}

/// Strip the placeholder from one line.
pub fn strip_marker_line(l: &[u8]) -> (r: Vec<u8>)
    ensures
        r@ == marker_stripped(l@),
{
    let m: &[u8] = "@ZLIB_SYMBOL_PREFIX@".as_bytes();
    proof {
        lemma_find_first_spec(l@, marker());
    }
    match find_sub(l, m) {
        Some(i) => {
            let n = l.len();
            assert(i + m@.len() <= l@.len());
            let mut r = subvec(l, 0, i);
            let mut tail = subvec(l, i + m.len(), n);
            r.append(&mut tail);
            assert(r@ =~= marker_stripped(l@));
            r
        },
        None => {
            let r = slice_to_vec(l);
            assert(r@ =~= marker_stripped(l@));
            r
        },
    }
}

/// A whole text with the placeholder stripped from each line; every
/// line, the last included, comes out newline-terminated.
pub open spec fn stripped_text(ls: Seq<Seq<u8>>) -> Seq<u8>
    decreases ls.len(),
{
    if ls.len() == 0 {
        Seq::empty()
    } else {
        marker_stripped(ls[0]) + seq![NL] + stripped_text(ls.drop_first())
    }
}

/// Strip the placeholder from every line of a text.
pub fn strip_marker_text(text: &[u8]) -> (r: Vec<u8>)
    ensures
        r@ == stripped_text(split_lines(text@)),
{
    let lines = split_lines_vec(text);
    let ghost ls = split_lines(text@);
    let mut out: Vec<u8> = Vec::new();
    proof {
        assert(ls.skip(0) =~= ls);
        assert(Seq::<u8>::empty() + stripped_text(ls) =~= stripped_text(ls));
    }
    for i in 0..lines.len()
        invariant
            lines.deep_view() == ls,
            lines@.len() == ls.len(),
            stripped_text(ls) =~= out@ + stripped_text(ls.skip(i as int)),
    {
        let ghost rest = ls.skip(i as int);
        assert(rest[0] == lines@[i as int].deep_view());
        assert(lines@[i as int].deep_view() =~= lines@[i as int]@);
        assert(rest.drop_first() =~= ls.skip(i + 1));
        let mut piece = strip_marker_line(lines[i].as_slice());
        out.append(&mut piece);
        out.push(NL);
        assert(out@ + stripped_text(ls.skip(i + 1)) =~= stripped_text(ls));
    }
    proof {
        assert(ls.skip(ls.len() as int) =~= Seq::<Seq<u8>>::empty());
        assert(out@ =~= stripped_text(ls));
    }
    out
}

/// Whether a line carries the version define of the wrapped library.
pub open spec fn is_version_line(l: Seq<u8>) -> bool {
    has_match(l, "ZLIBNG_VERSION".spec_bytes()) && has_match(l, "#define".spec_bytes())
}

/// What stands between the first pair of quotes: up to the second
/// quote, or to the end where only one quote opens; nothing without a
/// quote.
pub open spec fn quoted_part(l: Seq<u8>) -> Option<Seq<u8>> {
    let q1 = find_byte_first(l, QUOTE);
    if q1 < 0 || q1 >= l.len() {
        None
    } else {
        let rest = l.skip(q1 + 1);
        let q2 = find_byte_first(rest, QUOTE);
        if q2 < 0 || q2 >= rest.len() {
            Some(rest)
        } else {
            Some(rest.take(q2))
        }
    }
}

/// Read the quoted part of one line.
pub fn quoted_part_vec(l: &[u8]) -> (r: Option<Vec<u8>>)
    ensures
        match r {
            Some(v) => quoted_part(l@) == Some(v@),
            None => quoted_part(l@) is None,
        },
{
    proof {
        lemma_find_byte_spec(l@, QUOTE);
    }
    let q1 = match find_byte(l, QUOTE) {
        Some(q1) => q1,
        None => {
            return None;
        },
    };
    let n = l.len();
    assert(q1 < l@.len());
    let tail: &[u8] = &l[q1 + 1..n];
    assert(tail@ =~= l@.skip(q1 + 1));
    proof {
        lemma_find_byte_spec(tail@, QUOTE);
    }
    match find_byte(tail, QUOTE) {
        Some(q2) => {
            let r = subvec(tail, 0, q2);
            assert(r@ =~= l@.skip(q1 + 1).take(q2 as int));
            Some(r)
        },
        None => Some(slice_to_vec(tail)),
    }
}

/// The version the header text declares: what the last version line
/// quotes; nothing where no line declares one, or where a version line
/// quotes nothing — there the build cannot go on.
pub open spec fn version_scan(ls: Seq<Seq<u8>>) -> Option<Seq<u8>>
    decreases ls.len(),
{
    if ls.len() == 0 {
        None
    } else if is_version_line(ls.last()) {
        quoted_part(ls.last())
    } else {
        version_scan(ls.drop_last())
    }
}

/// Some version line of the text quotes nothing.
pub open spec fn has_bad_version_line(ls: Seq<Seq<u8>>) -> bool {
    exists|i: int|
        0 <= i < ls.len() && is_version_line(#[trigger] ls[i]) && quoted_part(ls[i]) is None
}

/// Scan a header text for the version it declares. A version line
/// that quotes nothing stops the scan with nothing, and the caller
/// must give up; otherwise the last version line wins.
pub fn scan_version(text: &[u8]) -> (r: Option<Vec<u8>>)
    ensures
        has_bad_version_line(split_lines(text@)) ==> r is None,
        !has_bad_version_line(split_lines(text@)) ==> match r {
            Some(v) => version_scan(split_lines(text@)) == Some(v@),
            None => version_scan(split_lines(text@)) is None,
        },
{
    let lines = split_lines_vec(text);
    let ghost ls = split_lines(text@);
    let mut acc: Option<Vec<u8>> = None;
    proof {
        assert(ls.take(0) =~= Seq::<Seq<u8>>::empty());
    }
    for i in 0..lines.len()
        invariant
            ls == split_lines(text@),
            lines.deep_view() == ls,
            lines@.len() == ls.len(),
            !has_bad_version_line(ls.take(i as int)),
            match acc {
                Some(v) => version_scan(ls.take(i as int)) == Some(v@),
                None => version_scan(ls.take(i as int)) is None,
            },
    {
        assert(ls[i as int] == lines@[i as int].deep_view());
        assert(lines@[i as int].deep_view() =~= lines@[i as int]@);
        let line = lines[i].as_slice();
        let is_version = contains_sub(line, "ZLIBNG_VERSION".as_bytes()) && contains_sub(
            line,
            "#define".as_bytes(),
        );
        assert(ls.take(i + 1).drop_last() =~= ls.take(i as int));
        assert(ls.take(i + 1).last() == ls[i as int]);
        if is_version {
            match quoted_part_vec(line) {
                Some(v) => {
                    acc = Some(v);
                },
                None => {
                    assert(is_version_line(ls[i as int]) && quoted_part(ls[i as int]) is None);
                    assert(has_bad_version_line(ls)) by {
                        assert(0 <= i < ls.len() && is_version_line(ls[i as int]) && quoted_part(
                            ls[i as int],
                        ) is None);
                    }
                    return None;
                },
            }
        }
        proof {
            assert forall|k: int|
                0 <= k < ls.take(i + 1).len() && is_version_line(
                    #[trigger] ls.take(i + 1)[k],
                ) implies !(quoted_part(ls.take(i + 1)[k]) is None) by {
                if k < i {
                    assert(ls.take(i as int)[k] == ls.take(i + 1)[k]);
                    assert(!has_bad_version_line(ls.take(i as int)));
                    if quoted_part(ls.take(i + 1)[k]) is None {
                        assert(has_bad_version_line(ls.take(i as int)));
                    }
                }
            }
        }
    }
    proof {
        assert(ls.take(ls.len() as int) =~= ls);
    }
    acc
}

/// `t` with every occurrence of `from` replaced by `to`, left to
/// right; an empty pattern changes nothing.
pub open spec fn replace_all(t: Seq<u8>, from: Seq<u8>, to: Seq<u8>) -> Seq<u8>
    decreases t.len(),
{
    if from.len() == 0 {
        t
    } else {
        let i = find_first(t, from);
        if i < 0 || i + from.len() > t.len() {
            t
        } else {
            t.take(i) + to + replace_all(t.skip(i + from.len()), from, to)
        }
    }
}

/// Replace every occurrence of `from` in `t` by `to`.
pub fn replace_all_vec(t: &[u8], from: &[u8], to: &[u8]) -> (r: Vec<u8>)
    ensures
        r@ == replace_all(t@, from@, to@),
{
    if from.len() == 0 {
        return slice_to_vec(t);
    }
    let mut out: Vec<u8> = Vec::new();
    let mut pos: usize = 0;
    proof {
        assert(t@.skip(0) =~= t@);
        assert(Seq::<u8>::empty() + replace_all(t@, from@, to@) =~= replace_all(t@, from@, to@));
    }
    while pos < t.len()
        invariant
            from@.len() > 0,
            pos <= t@.len(),
            replace_all(t@, from@, to@) =~= out@ + replace_all(t@.skip(pos as int), from@, to@),
        decreases t@.len() - pos,
    {
        let ghost rest = t@.skip(pos as int);
        let tail: &[u8] = &t[pos..t.len()];
        assert(tail@ =~= rest);
        proof {
            lemma_find_first_spec(rest, from@);
        }
        match find_sub(tail, from) {
            Some(i) => {
                let mut piece = subvec(t, pos, pos + i);
                assert(piece@ =~= rest.take(i as int));
                out.append(&mut piece);
                let mut rep = slice_to_vec(to);
                out.append(&mut rep);
                proof {
                    assert(rest.skip(i + from@.len()) =~= t@.skip(pos + i + from@.len()));
                    assert(replace_all(rest, from@, to@) == rest.take(i as int) + to@
                        + replace_all(rest.skip(i + from@.len()), from@, to@));
                }
                pos = pos + i + from.len();
            },
            None => {
                let mut piece = subvec(t, pos, t.len());
                assert(piece@ =~= rest);
                out.append(&mut piece);
                assert(replace_all(rest, from@, to@) == rest);
                pos = t.len();
            },
        }
    }
    proof {
        assert(t@.skip(pos as int) =~= Seq::<u8>::empty());
        assert(replace_all(Seq::<u8>::empty(), from@, to@) =~= Seq::<u8>::empty());
        assert(out@ =~= replace_all(t@, from@, to@));
    }
    out
}

/// The filled-in pkg-config text: the prefix, the include and library
/// directories under it, and the version, substituted in this order.
pub open spec fn pc_text(template: Seq<u8>, prefix: Seq<u8>, version: Seq<u8>) -> Seq<u8> {
    replace_all(
        replace_all(
            replace_all(
                replace_all(template, "@prefix@".spec_bytes(), prefix),
                "@includedir@".spec_bytes(),
                "${prefix}/include".spec_bytes(),
            ),
            "@libdir@".spec_bytes(),
            "${prefix}/lib".spec_bytes(),
        ),
        "@VERSION@".spec_bytes(),
        version,
    )
}

/// Fill in the pkg-config template.
pub fn render_pc(template: &[u8], prefix: &[u8], version: &[u8]) -> (r: Vec<u8>)
    ensures
        r@ == pc_text(template@, prefix@, version@),
{
    let s1 = replace_all_vec(template, "@prefix@".as_bytes(), prefix);
    let s2 = replace_all_vec(s1.as_slice(), "@includedir@".as_bytes(), "${prefix}/include".as_bytes());
    let s3 = replace_all_vec(s2.as_slice(), "@libdir@".as_bytes(), "${prefix}/lib".as_bytes());
    replace_all_vec(s3.as_slice(), "@VERSION@".as_bytes(), version)
}

} // verus!
