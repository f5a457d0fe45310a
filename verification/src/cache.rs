//! The compile-probe result cache: a map from a 64-bit probe key to
//! whether the probe compiled, kept between builds as text, one entry
//! per line in the form `<key as hex, at least 8 digits> <1 or 0>`.
//! Lines that do not parse are ignored, so a damaged file degrades to
//! re-probing instead of failing the build.

use vstd::prelude::*;
use vstd::map::*;
use crate::bytes::{find_byte, find_byte_first, lemma_find_byte_spec, subvec};
use crate::hexnum::{
    all_hex, format_hex8, hex8, hex_body, hex_val, is_hex_digit, parse_hex_u64, parses_as_hex_u64,
    lemma_hex8_round_trip, ZERO,
};
use crate::lines::{split_lines, split_lines_vec, lemma_split_lines_prepend, NL, CR};

verus! {

pub const SPACE: u8 = 32;

pub const ONE: u8 = 49;

/// The byte that records a probe result.
pub open spec fn bit_byte(b: bool) -> u8 {
    if b {
        ONE
    } else {
        ZERO
    }
}

/// The stored line for one cache entry, without its newline.
pub open spec fn line_of(k: u64, b: bool) -> Seq<u8> {
    hex8(k as nat) + seq![SPACE] + seq![bit_byte(b)]
}

/// The whole stored text of a sequence of entries.
pub open spec fn serialize_entries(es: Seq<(u64, bool)>) -> Seq<u8>
    decreases es.len(),
{
    if es.len() == 0 {
        Seq::empty()
    } else {
        line_of(es[0].0, es[0].1) + seq![NL] + serialize_entries(es.drop_first())
    }
}

/// What one line means: the key before the first space parsed as a
/// hexadecimal `u64`, and after it exactly `1` or `0`; anything else
/// means nothing.
pub open spec fn parse_line(l: Seq<u8>) -> Option<(u64, bool)> {
    let i = find_byte_first(l, SPACE);
    if i < 0 || i >= l.len() {
        None
    } else {
        let hash_part = l.take(i);
        let res_part = l.skip(i + 1);
        if !parses_as_hex_u64(hash_part) {
            None
        } else if res_part == seq![ONE] {
            Some((hex_val(hex_body(hash_part)) as u64, true))
        } else if res_part == seq![ZERO] {
            Some((hex_val(hex_body(hash_part)) as u64, false))
        } else {
            None
        }
    }
}

/// What a sequence of lines means: each meaningful line adds its entry,
/// and an earlier line is kept only where no later line has its key.
pub open spec fn parse_lines(ls: Seq<Seq<u8>>) -> Map<u64, bool>
    decreases ls.len(),
{
    if ls.len() == 0 {
        Map::empty()
    } else {
        let m = parse_lines(ls.drop_first());
        match parse_line(ls[0]) {
            Some(e) => if m.dom().contains(e.0) {
                m
            } else {
                m.insert(e.0, e.1)
            },
            None => m,
        }
    }
}

/// The map held by a sequence of entries; an earlier entry loses to a
/// later one with the same key.
pub open spec fn map_of(es: Seq<(u64, bool)>) -> Map<u64, bool>
    decreases es.len(),
{
    if es.len() == 0 {
        Map::empty()
    } else {
        let m = map_of(es.drop_first());
        if m.dom().contains(es[0].0) {
            m
        } else {
            m.insert(es[0].0, es[0].1)
        }
    }
}

/// The domain of `map_of` is the set of keys, and each key of a
/// key-distinct sequence maps to its entry's value.
pub proof fn lemma_map_of_props(es: Seq<(u64, bool)>)
    ensures
        forall|k: u64|
            map_of(es).dom().contains(k) <==> exists|i: int| 0 <= i < es.len() && (#[trigger] es[i]).0 == k,
        (forall|i: int, j: int| 0 <= i < j < es.len() ==> (#[trigger] es[i]).0 != (#[trigger] es[j]).0)
            ==> forall|i: int|
            0 <= i < es.len() ==> map_of(es)[(#[trigger] es[i]).0] == es[i].1,
    decreases es.len(),
{
    if es.len() == 0 {
    } else {
        let tail = es.drop_first();
        lemma_map_of_props(tail);
        assert(forall|i: int| 1 <= i < es.len() ==> tail[i - 1] == es[i]);
        assert forall|k: u64| map_of(es).dom().contains(k) implies exists|i: int|
            0 <= i < es.len() && (#[trigger] es[i]).0 == k by {
            if map_of(tail).dom().contains(k) {
                let i = choose|i: int| 0 <= i < tail.len() && (#[trigger] tail[i]).0 == k;
                assert(es[i + 1].0 == k);
            } else {
                assert(es[0].0 == k);
            }
        }
        assert forall|k: u64| (exists|i: int| 0 <= i < es.len() && (#[trigger] es[i]).0 == k)
            implies map_of(es).dom().contains(k) by {
            let i = choose|i: int| 0 <= i < es.len() && (#[trigger] es[i]).0 == k;
            if i >= 1 {
                assert(tail[i - 1].0 == k);
            }
        }
        if forall|i: int, j: int| 0 <= i < j < es.len() ==> (#[trigger] es[i]).0 != (#[trigger] es[j]).0 {
            assert(forall|i: int, j: int|
                0 <= i < j < tail.len() ==> (#[trigger] tail[i]).0 != (#[trigger] tail[j]).0);
            assert(!map_of(tail).dom().contains(es[0].0)) by {
                if map_of(tail).dom().contains(es[0].0) {
                    let i = choose|i: int|
                        0 <= i < tail.len() && (#[trigger] tail[i]).0 == es[0].0;
                    assert(es[i + 1].0 == es[0].0);
                }
            }
            assert forall|i: int| 0 <= i < es.len() implies map_of(es)[(#[trigger] es[i]).0]
                == es[i].1 by {
                if i >= 1 {
                    assert(tail[i - 1].0 == es[i].0);
                    assert(es[i].0 != es[0].0);
                }
            }
        }
    }
}

/// Entries in strictly ascending key order.
pub open spec fn entries_sorted(es: Seq<(u64, bool)>) -> bool {
    forall|i: int, j: int| 0 <= i < j < es.len() ==> (#[trigger] es[i]).0 < (#[trigger] es[j]).0
}

/// The cache of probe results, ordered by key.
pub struct ProbeCache {
    pub entries: Vec<(u64, bool)>,
}

impl ProbeCache {
    /// Entries stand in strictly ascending key order.
    pub open spec fn wf(&self) -> bool {
        entries_sorted(self.entries@)
    }

    /// The stored entries, in order.
    pub open spec fn entries_view(&self) -> Seq<(u64, bool)> {
        self.entries@
    }

    /// The cache as a map from probe key to probe result.
    pub open spec fn as_map(&self) -> Map<u64, bool> {
        map_of(self.entries@)
    }

    /// An empty cache.
    pub fn new() -> (r: ProbeCache)
        ensures
            r.wf(),
            r.as_map() == Map::<u64, bool>::empty(),
            r.entries_view().len() == 0,
    {
        ProbeCache { entries: Vec::new() }
    }

    /// The entries as a fresh vector, in ascending key order.
    pub fn to_entries(&self) -> (r: Vec<(u64, bool)>)
        ensures
            r@ == self.entries_view(),
    {
        let mut out: Vec<(u64, bool)> = Vec::new();
        for i in 0..self.entries.len()
            invariant
                out@ =~= self.entries@.take(i as int),
        {
            out.push(self.entries[i]);
            assert(out@ =~= self.entries@.take(i + 1));
        }
        assert(out@ =~= self.entries@);
        out
    }

    /// The recorded result for key `k`, if one is stored.
    pub fn get(&self, k: u64) -> (r: Option<bool>)
        requires
            self.wf(),
        ensures
            r == if self.as_map().dom().contains(k) {
                Some(self.as_map()[k])
            } else {
                None::<bool>
            },
    {
        proof {
            lemma_map_of_props(self.entries@);
        }
        for i in 0..self.entries.len()
            invariant
                self.wf(),
                forall|j: int| 0 <= j < i ==> (#[trigger] self.entries@[j]).0 != k,
        {
            if self.entries[i].0 == k {
                proof {
                    lemma_map_of_props(self.entries@);
                }
                return Some(self.entries[i].1);
            }
        }
        assert(!self.as_map().dom().contains(k)) by {
            if self.as_map().dom().contains(k) {
                lemma_map_of_props(self.entries@);
            }
        }
        None
    }

    /// Record the result `v` for key `k`, replacing any stored result.
    pub fn insert(&mut self, k: u64, v: bool)
        requires
            old(self).wf(),
        ensures
            final(self).wf(),
            final(self).as_map() == old(self).as_map().insert(k, v),
    {
        let ghost old_es = self.entries@;
        proof {
            lemma_map_of_props(old_es);
        }
        let mut j: usize = 0;
        while j < self.entries.len() && self.entries[j].0 < k
            invariant
                self.entries@ == old_es,
                j <= old_es.len(),
                forall|i: int| 0 <= i < j ==> (#[trigger] old_es[i]).0 < k,
            decreases old_es.len() - j,
        {
            j += 1;
        }
        if j < self.entries.len() && self.entries[j].0 == k {
            self.entries.set(j, (k, v));
            proof {
                let new_es = self.entries@;
                assert(forall|i: int|
                    0 <= i < new_es.len() && i != j ==> new_es[i] == old_es[i]);
                assert(final(self).wf());
                lemma_map_of_props(new_es);
                assert forall|kk: u64| #[trigger] map_of(new_es).dom().contains(kk)
                    <==> old(self).as_map().insert(k, v).dom().contains(kk) by {
                    if map_of(new_es).dom().contains(kk) {
                        let i = choose|i: int|
                            0 <= i < new_es.len() && (#[trigger] new_es[i]).0 == kk;
                        assert(old_es[i].0 == kk);
                    }
                    if old(self).as_map().insert(k, v).dom().contains(kk) {
                        if kk == k {
                            assert(new_es[j as int].0 == kk);
                        } else {
                            let i = choose|i: int|
                                0 <= i < old_es.len() && (#[trigger] old_es[i]).0 == kk;
                            assert(new_es[i].0 == kk);
                        }
                    }
                }
                assert forall|kk: u64| map_of(new_es).dom().contains(kk) implies #[trigger] map_of(
                    new_es,
                )[kk] == old(self).as_map().insert(k, v)[kk] by {
                    let i = choose|i: int|
                        0 <= i < new_es.len() && (#[trigger] new_es[i]).0 == kk;
                    assert(map_of(new_es)[new_es[i].0] == new_es[i].1);
                    if kk != k {
                        assert(old_es[i].0 == kk);
                        assert(map_of(old_es)[old_es[i].0] == old_es[i].1);
                    }
                }
                assert(map_of(new_es) =~= old(self).as_map().insert(k, v));
            }
        } else {
            proof {
                if j < old_es.len() {
                    assert(old_es[j as int].0 > k);
                }
            }
            self.entries.insert(j, (k, v));
            proof {
                let new_es = self.entries@;
                assert(new_es =~= old_es.insert(j as int, (k, v)));
                assert(forall|i: int| 0 <= i < j ==> new_es[i] == old_es[i]);
                assert(forall|i: int|
                    j < i < new_es.len() ==> new_es[i] == old_es[i - 1]);
                assert(new_es[j as int] == (k, v));
                assert forall|a: int, b: int| 0 <= a < b < new_es.len() implies (
                #[trigger] new_es[a]).0 < (#[trigger] new_es[b]).0 by {
                    if a == j {
                        assert(old_es[b - 1].0 > k);
                    } else if b == j {
                        assert(old_es[a].0 < k);
                    }
                }
                lemma_map_of_props(new_es);
                assert forall|kk: u64| #[trigger] map_of(new_es).dom().contains(kk)
                    <==> old(self).as_map().insert(k, v).dom().contains(kk) by {
                    if map_of(new_es).dom().contains(kk) {
                        let i = choose|i: int|
                            0 <= i < new_es.len() && (#[trigger] new_es[i]).0 == kk;
                        if i < j {
                            assert(old_es[i].0 == kk);
                        } else if i > j {
                            assert(old_es[i - 1].0 == kk);
                        }
                    }
                    if old(self).as_map().insert(k, v).dom().contains(kk) {
                        if kk == k {
                            assert(new_es[j as int].0 == kk);
                        } else {
                            let i = choose|i: int|
                                0 <= i < old_es.len() && (#[trigger] old_es[i]).0 == kk;
                            if i < j {
                                assert(new_es[i].0 == kk);
                            } else {
                                assert(new_es[i + 1].0 == kk);
                            }
                        }
                    }
                }
                assert forall|kk: u64| map_of(new_es).dom().contains(kk) implies #[trigger] map_of(
                    new_es,
                )[kk] == old(self).as_map().insert(k, v)[kk] by {
                    let i = choose|i: int|
                        0 <= i < new_es.len() && (#[trigger] new_es[i]).0 == kk;
                    assert(map_of(new_es)[new_es[i].0] == new_es[i].1);
                    if kk != k {
                        if i < j {
                            assert(old_es[i].0 == kk);
                            assert(map_of(old_es)[old_es[i].0] == old_es[i].1);
                        } else {
                            assert(i != j);
                            assert(old_es[i - 1].0 == kk);
                            assert(map_of(old_es)[old_es[i - 1].0] == old_es[i - 1].1);
                        }
                    }
                }
                assert(map_of(new_es) =~= old(self).as_map().insert(k, v));
            }
        }
    }
}

/// Read one stored line.
pub fn parse_line_vec(l: &[u8]) -> (r: Option<(u64, bool)>)
    ensures
        r == parse_line(l@),
{
    proof {
        lemma_find_byte_spec(l@, SPACE);
    }
    let i = match find_byte(l, SPACE) {
        Some(i) => i,
        None => {
            return None;
        },
    };
    let hash_part = subvec(l, 0, i);
    assert(hash_part@ =~= l@.take(i as int));
    let key = match parse_hex_u64(hash_part.as_slice()) {
        Some(k) => k,
        None => {
            return None;
        },
    };
    let ghost res_part = l@.skip(i + 1);
    if l.len() - i - 1 == 1 {
        let b = l[i + 1];
        assert(res_part =~= seq![l@[i + 1]]);
        if b == ONE {
            assert(res_part == seq![ONE]);
            return Some((key, true));
        }
        if b == ZERO {
            assert(res_part != seq![ONE]) by {
                if res_part == seq![ONE] {
                    assert(res_part[0] == seq![ONE][0]);
                }
            }
            assert(res_part == seq![ZERO]);
            return Some((key, false));
        }
        assert(res_part != seq![ONE] && res_part != seq![ZERO]) by {
            if res_part == seq![ONE] {
                assert(res_part[0] == seq![ONE][0]);
            }
            if res_part == seq![ZERO] {
                assert(res_part[0] == seq![ZERO][0]);
            }
        }
        return None;
    }
    assert(res_part.len() != 1);
    assert(res_part != seq![ONE] && res_part != seq![ZERO]) by {
        assert(seq![ONE].len() == 1 && seq![ZERO].len() == 1);
    }
    None
}

/// Read a whole stored cache text; lines that mean nothing are ignored.
pub fn parse_cache(text: &[u8]) -> (r: ProbeCache)
    ensures
        r.wf(),
        r.as_map() == parse_lines(split_lines(text@)),
{
    let lines = split_lines_vec(text);
    let ghost ls = split_lines(text@);
    let mut cache = ProbeCache::new();
    proof {
        assert(ls.skip(0) =~= ls);
        assert(Map::<u64, bool>::empty().union_prefer_right(parse_lines(ls)) =~= parse_lines(ls));
    }
    for i in 0..lines.len()
        invariant
            lines.deep_view() == ls,
            lines@.len() == ls.len(),
            cache.wf(),
            cache.as_map().union_prefer_right(parse_lines(ls.skip(i as int))) =~= parse_lines(ls),
    {
        let ghost rest = ls.skip(i as int);
        assert(rest.len() > 0);
        assert(rest[0] == lines@[i as int].deep_view());
        assert(lines@[i as int].deep_view() =~= lines@[i as int]@);
        assert(rest[0] == lines@[i as int]@);
        assert(rest.drop_first() =~= ls.skip(i + 1));
        let ghost m2 = parse_lines(ls.skip(i + 1));
        assert(parse_lines(rest.drop_first()) == m2);
        match parse_line_vec(lines[i].as_slice()) {
            Some(e) => {
                let ghost before = cache.as_map();
                cache.insert(e.0, e.1);
                proof {
                    if m2.dom().contains(e.0) {
                        assert(parse_lines(rest) == m2);
                        assert(before.insert(e.0, e.1).union_prefer_right(m2)
                            =~= before.union_prefer_right(m2));
                    } else {
                        assert(parse_lines(rest) == m2.insert(e.0, e.1));
                        assert(before.insert(e.0, e.1).union_prefer_right(m2)
                            =~= before.union_prefer_right(m2.insert(e.0, e.1)));
                    }
                }
            },
            None => {
                assert(parse_lines(rest) == m2);
            },
        }
    }
    proof {
        assert(ls.skip(ls.len() as int) =~= Seq::<Seq<u8>>::empty());
        assert(cache.as_map().union_prefer_right(Map::<u64, bool>::empty()) =~= cache.as_map());
    }
    cache
}

/// Write the cache out as text, one line per entry in ascending key
/// order.
pub fn serialize_cache(cache: &ProbeCache) -> (r: Vec<u8>)
    ensures
        r@ == serialize_entries(cache.entries_view()),
{
    let entries = cache.to_entries();
    let ghost es = cache.entries_view();
    let mut out: Vec<u8> = Vec::new();
    proof {
        assert(es.skip(0) =~= es);
        assert(Seq::<u8>::empty() + serialize_entries(es) =~= serialize_entries(es));
    }
    for i in 0..entries.len()
        invariant
            entries@ == es,
            serialize_entries(es) =~= out@ + serialize_entries(es.skip(i as int)),
    {
        let ghost rest = es.skip(i as int);
        assert(rest[0] == es[i as int]);
        assert(rest.drop_first() =~= es.skip(i + 1));
        let (k, v) = entries[i];
        let mut hex = format_hex8(k);
        out.append(&mut hex);
        out.push(SPACE);
        if v {
            out.push(ONE);
        } else {
            out.push(ZERO);
        }
        out.push(NL);
        proof {
            assert(serialize_entries(rest) == line_of(k, v) + seq![NL] + serialize_entries(
                es.skip(i + 1),
            ));
            assert(out@ + serialize_entries(es.skip(i + 1)) =~= serialize_entries(es));
        }
    }
    proof {
        assert(es.skip(es.len() as int) =~= Seq::<(u64, bool)>::empty());
        assert(out@ =~= serialize_entries(es));
    }
    out
}

/// A stored line reads back as the entry it was written from.
pub proof fn lemma_line_round_trip(k: u64, b: bool)
    ensures
        parse_line(line_of(k, b)) == Some((k, b)),
        forall|j: int| 0 <= j < line_of(k, b).len() ==> line_of(k, b)[j] != NL,
        line_of(k, b).last() != CR,
        line_of(k, b).len() > 0,
{
    lemma_hex8_round_trip(k);
    let h = hex8(k as nat);
    let l = line_of(k, b);
    assert(l.len() == h.len() + 2);
    assert(forall|j: int| 0 <= j < h.len() ==> l[j] == h[j]);
    assert(l[h.len() as int] == SPACE);
    assert(l[h.len() as int + 1] == bit_byte(b));
    lemma_find_byte_spec(l, SPACE);
    let i = find_byte_first(l, SPACE);
    assert(i == h.len()) by {
        assert(forall|j: int| 0 <= j < h.len() ==> is_hex_digit(#[trigger] h[j]));
        assert(forall|j: int| 0 <= j < h.len() ==> l[j] != SPACE);
        if i == -1 {
            assert(l[h.len() as int] != SPACE);
        } else if i < h.len() {
            assert(l[i] == SPACE);
        } else if i > h.len() {
            assert(l[h.len() as int] != SPACE);
        }
    }
    assert(l.take(i) =~= h);
    assert(l.skip(i + 1) =~= seq![bit_byte(b)]);
    if b {
        assert(l.skip(i + 1) == seq![ONE]);
    } else {
        assert(seq![bit_byte(b)] != seq![ONE]) by {
            assert(bit_byte(b) == ZERO);
        }
        assert(l.skip(i + 1) == seq![ZERO]);
    }
    assert(forall|j: int| 0 <= j < l.len() ==> l[j] != NL) by {
        assert(forall|j: int| 0 <= j < h.len() ==> is_hex_digit(#[trigger] h[j]));
    }
    assert(l.last() == bit_byte(b));
}

/// The stored text of a well-formed cache reads back as exactly the map
/// the cache held.
pub proof fn lemma_cache_round_trip(es: Seq<(u64, bool)>)
    requires
        forall|i: int, j: int|
            0 <= i < j < es.len() ==> (#[trigger] es[i]).0 < (#[trigger] es[j]).0,
    ensures
        parse_lines(split_lines(serialize_entries(es))) == map_of(es),
    decreases es.len(),
{
    if es.len() == 0 {
        assert(split_lines(serialize_entries(es)) =~= Seq::<Seq<u8>>::empty());
    } else {
        let tail = es.drop_first();
        let k = es[0].0;
        let v = es[0].1;
        assert(forall|i: int| 0 <= i < tail.len() ==> tail[i] == es[i + 1]);
        lemma_cache_round_trip(tail);
        lemma_line_round_trip(k, v);
        let l = line_of(k, v);
        lemma_split_lines_prepend(l, serialize_entries(tail));
        assert(serialize_entries(es) == l + seq![NL] + serialize_entries(tail));
        let ls = split_lines(serialize_entries(es));
        assert(ls == seq![l] + split_lines(serialize_entries(tail)));
        assert(ls[0] == l);
        assert(ls.drop_first() =~= split_lines(serialize_entries(tail)));
        let m = parse_lines(ls.drop_first());
        assert(m == map_of(tail));
        assert(!m.dom().contains(k)) by {
            lemma_map_of_props(tail);
            if m.dom().contains(k) {
                let i = choose|i: int| 0 <= i < tail.len() && (#[trigger] tail[i]).0 == k;
                assert(es[i + 1].0 == k);
                assert(es[0].0 < es[i + 1].0);
            }
        }
        assert(parse_lines(ls) == m.insert(k, v));
        assert(map_of(es) == map_of(tail).insert(k, v)) by {
            lemma_map_of_props(tail);
            if map_of(tail).dom().contains(es[0].0) {
                let i = choose|i: int|
                    0 <= i < tail.len() && (#[trigger] tail[i]).0 == es[0].0;
                assert(es[i + 1].0 == es[0].0);
                assert(es[0].0 < es[i + 1].0);
            }
        }
    }
}

/// The stored text of a well-formed cache reads back as the map the
/// cache held.
pub proof fn lemma_cache_text_round_trip(c: &ProbeCache)
    requires
        c.wf(),
    ensures
        parse_lines(split_lines(serialize_entries(c.entries_view()))) == c.as_map(),
{
    lemma_cache_round_trip(c.entries_view());
}


/// A key-sorted entry listing is determined by its map: two such
/// listings of the same map are the same listing.
pub proof fn lemma_entries_canonical(a: Seq<(u64, bool)>, b: Seq<(u64, bool)>)
    requires
        entries_sorted(a),
        entries_sorted(b),
        map_of(a) == map_of(b),
    ensures
        a == b,
    decreases a.len(),
{
    lemma_map_of_props(a);
    lemma_map_of_props(b);
    if a.len() == 0 {
        if b.len() > 0 {
            assert(map_of(b).dom().contains(b[0].0));
            let i = choose|i: int| 0 <= i < a.len() && (#[trigger] a[i]).0 == b[0].0;
        }
        assert(a =~= b);
    } else {
        assert(map_of(a).dom().contains(a[0].0));
        assert(map_of(b).dom().contains(a[0].0));
        let ka = choose|i: int| 0 <= i < b.len() && (#[trigger] b[i]).0 == a[0].0;
        assert(b.len() > 0);
        assert(map_of(b).dom().contains(b[0].0));
        assert(map_of(a).dom().contains(b[0].0));
        let kb = choose|i: int| 0 <= i < a.len() && (#[trigger] a[i]).0 == b[0].0;
        assert(a[0].0 == b[0].0) by {
            if a[0].0 < b[0].0 {
                assert(b[ka].0 == a[0].0);
                assert(ka > 0 ==> b[0].0 < b[ka].0);
            } else if b[0].0 < a[0].0 {
                assert(a[kb].0 == b[0].0);
                assert(kb > 0 ==> a[0].0 < a[kb].0);
            }
        }
        assert(a[0].1 == b[0].1) by {
            assert(map_of(a)[a[0].0] == a[0].1);
            assert(map_of(b)[b[0].0] == b[0].1);
        }
        let ta = a.drop_first();
        let tb = b.drop_first();
        assert(forall|i: int| 0 <= i < ta.len() ==> #[trigger] ta[i] == a[i + 1]);
        assert(forall|i: int| 0 <= i < tb.len() ==> #[trigger] tb[i] == b[i + 1]);
        lemma_map_of_props(ta);
        lemma_map_of_props(tb);
        assert(!map_of(ta).dom().contains(a[0].0)) by {
            if map_of(ta).dom().contains(a[0].0) {
                let i = choose|i: int| 0 <= i < ta.len() && (#[trigger] ta[i]).0 == a[0].0;
                assert(a[i + 1].0 == a[0].0);
                assert(a[0].0 < a[i + 1].0);
            }
        }
        assert(!map_of(tb).dom().contains(b[0].0)) by {
            if map_of(tb).dom().contains(b[0].0) {
                let i = choose|i: int| 0 <= i < tb.len() && (#[trigger] tb[i]).0 == b[0].0;
                assert(b[i + 1].0 == b[0].0);
                assert(b[0].0 < b[i + 1].0);
            }
        }
        assert(map_of(a) == map_of(ta).insert(a[0].0, a[0].1));
        assert(map_of(b) == map_of(tb).insert(b[0].0, b[0].1));
        assert(map_of(ta) =~= map_of(tb)) by {
            assert forall|k: u64| #[trigger] map_of(ta).dom().contains(k) implies map_of(
                tb,
            ).dom().contains(k) && map_of(ta)[k] == map_of(tb)[k] by {
                assert(k != a[0].0);
                assert(map_of(a).dom().contains(k) && map_of(a)[k] == map_of(ta)[k]);
                assert(map_of(tb).insert(b[0].0, b[0].1).dom().contains(k));
            }
            assert forall|k: u64| #[trigger] map_of(tb).dom().contains(k) implies map_of(
                ta,
            ).dom().contains(k) by {
                assert(k != b[0].0);
                assert(map_of(b).dom().contains(k));
            }
        }
        lemma_entries_canonical(ta, tb);
        assert(a.len() == b.len());
        assert forall|i: int| 0 <= i < a.len() implies a[i] == b[i] by {
            if i >= 1 {
                assert(a[i] == ta[i - 1]);
                assert(b[i] == tb[i - 1]);
            }
        }
        assert(a =~= b);
    }
}

/// A well-formed cache, and so its stored text, is determined by the
/// map it holds: two caches with the same map store the same entries
/// and the same text.
pub proof fn lemma_cache_canonical(a: &ProbeCache, b: &ProbeCache)
    requires
        a.wf(),
        b.wf(),
        a.as_map() == b.as_map(),
    ensures
        a.entries_view() == b.entries_view(),
        serialize_entries(a.entries_view()) == serialize_entries(b.entries_view()),
{
    lemma_entries_canonical(a.entries_view(), b.entries_view());
}

} // verus!
