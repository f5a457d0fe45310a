//! Byte strings under lexicographic order, and a set of byte strings
//! kept as a vector in strictly ascending order — the shape in which
//! collected compiler flags, defines and source files are handed on, so
//! that a build sees them deduplicated and in a stable order.

use vstd::prelude::*;
use vstd::slice::slice_to_vec;
use crate::bytes::bytes_eq;

verus! {

/// Strict lexicographic order on byte strings: a proper prefix comes
/// first, otherwise the first differing byte decides.
pub open spec fn lex_lt(a: Seq<u8>, b: Seq<u8>) -> bool
    decreases a.len(),
{
    if b.len() == 0 {
        false
    } else if a.len() == 0 {
        true
    } else if a[0] < b[0] {
        true
    } else if a[0] > b[0] {
        false
    } else {
        lex_lt(a.drop_first(), b.drop_first())
    }
}

/// Any two byte strings compare: below, equal, or above, and never two
/// of these at once.
pub proof fn lemma_lex_trichotomy(a: Seq<u8>, b: Seq<u8>)
    ensures
        lex_lt(a, b) || lex_lt(b, a) || a == b,
        lex_lt(a, b) ==> !lex_lt(b, a) && a != b,
    decreases a.len(),
{
    if a.len() == 0 || b.len() == 0 {
        if a.len() == 0 && b.len() == 0 {
            assert(a =~= b);
        }
    } else if a[0] == b[0] {
        lemma_lex_trichotomy(a.drop_first(), b.drop_first());
        if !lex_lt(a, b) && !lex_lt(b, a) {
            assert(!lex_lt(a.drop_first(), b.drop_first()));
            assert(!lex_lt(b.drop_first(), a.drop_first()));
            assert(a.drop_first() == b.drop_first());
            assert(a.len() == b.len());
            assert forall|i: int| 0 <= i < a.len() implies a[i] == b[i] by {
                if i >= 1 {
                    assert(a[i] == a.drop_first()[i - 1]);
                    assert(b[i] == b.drop_first()[i - 1]);
                }
            }
            assert(a =~= b);
        }
    }
}

/// Lexicographic order is transitive.
pub proof fn lemma_lex_trans(a: Seq<u8>, b: Seq<u8>, c: Seq<u8>)
    requires
        lex_lt(a, b),
        lex_lt(b, c),
    ensures
        lex_lt(a, c),
    decreases a.len(),
{
    if a.len() == 0 {
    } else {
        assert(b.len() > 0 && c.len() > 0);
        if a[0] == b[0] && b[0] == c[0] {
            lemma_lex_trans(a.drop_first(), b.drop_first(), c.drop_first());
        }
    }
}

/// Whether `a` comes strictly before `b`.
pub fn lex_less(a: &[u8], b: &[u8]) -> (r: bool)
    ensures
        r == lex_lt(a@, b@),
    decreases a@.len(),
{
    if b.len() == 0 {
        false
    } else if a.len() == 0 {
        true
    } else if a[0] < b[0] {
        true
    } else if a[0] > b[0] {
        false
    } else {
        let ta: &[u8] = &a[1..a.len()];
        let tb: &[u8] = &b[1..b.len()];
        assert(ta@ =~= a@.drop_first());
        assert(tb@ =~= b@.drop_first());
        lex_less(ta, tb)
    }
}

/// The views of a sequence of byte vectors.
pub open spec fn views_of(items: Seq<Vec<u8>>) -> Seq<Seq<u8>> {
    Seq::new(items.len(), |i: int| items[i]@)
}

/// A set of byte strings, stored in strictly ascending order.
pub struct StrSet {
    pub items: Vec<Vec<u8>>,
}

impl StrSet {
    /// The members stand in strictly ascending order, so each occurs
    /// once.
    pub open spec fn wf(&self) -> bool {
        forall|i: int, j: int|
            0 <= i < j < self.items@.len() ==> lex_lt(
                #[trigger] self.items@[i]@,
                #[trigger] self.items@[j]@,
            )
    }

    /// The members in their stored order.
    pub open spec fn view_seq(&self) -> Seq<Seq<u8>> {
        views_of(self.items@)
    }

    /// The members as a set.
    pub open spec fn as_set(&self) -> Set<Seq<u8>> {
        self.view_seq().to_set()
    }

    /// An empty set.
    pub fn new() -> (r: StrSet)
        ensures
            r.wf(),
            r.as_set() == Set::<Seq<u8>>::empty(),
            r.view_seq().len() == 0,
    {
        let r = StrSet { items: Vec::new() };
        proof {
            assert(r.as_set() =~= Set::<Seq<u8>>::empty());
        }
        r
    }

    /// Whether `x` is a member.
    pub fn contains(&self, x: &[u8]) -> (r: bool)
        ensures
            r == self.as_set().contains(x@),
    {
        for i in 0..self.items.len()
            invariant
                forall|j: int| 0 <= j < i ==> (#[trigger] self.items@[j])@ != x@,
        {
            if bytes_eq(self.items[i].as_slice(), x) {
                assert(self.view_seq()[i as int] == x@);
                assert(self.view_seq().contains(x@));
                return true;
            }
        }
        assert(!self.view_seq().contains(x@)) by {
            if self.view_seq().contains(x@) {
                let i = choose|i: int|
                    0 <= i < self.view_seq().len() && #[trigger] self.view_seq()[i] == x@;
                assert(self.items@[i]@ == x@);
            }
        }
        false
    }

    /// Add `x`; a member it already has stays single.
    pub fn insert(&mut self, x: Vec<u8>)
        requires
            old(self).wf(),
        ensures
            final(self).wf(),
            final(self).as_set() == old(self).as_set().insert(x@),
    {
        let ghost old_items = self.items@;
        let mut j: usize = 0;
        while j < self.items.len() && lex_less(self.items[j].as_slice(), x.as_slice())
            invariant
                self.items@ == old_items,
                j <= old_items.len(),
                forall|i: int| 0 <= i < j ==> lex_lt((#[trigger] old_items[i])@, x@),
            decreases old_items.len() - j,
        {
            j += 1;
        }
        if j < self.items.len() && bytes_eq(self.items[j].as_slice(), x.as_slice()) {
            proof {
                assert(old(self).view_seq()[j as int] == x@);
                assert(old(self).view_seq().contains(x@));
                assert(final(self).as_set() =~= old(self).as_set().insert(x@));
            }
        } else {
            proof {
                if j < old_items.len() {
                    lemma_lex_trichotomy(old_items[j as int]@, x@);
                    assert(lex_lt(x@, old_items[j as int]@));
                }
            }
            self.items.insert(j, x);
            proof {
                let new_items = self.items@;
                assert(new_items =~= old_items.insert(j as int, x));
                assert(forall|i: int| 0 <= i < j ==> new_items[i] == old_items[i]);
                assert(forall|i: int|
                    j < i < new_items.len() ==> new_items[i] == old_items[i - 1]);
                assert(new_items[j as int] == x);
                assert forall|a: int, b: int| 0 <= a < b < new_items.len() implies lex_lt(
                    #[trigger] new_items[a]@,
                    #[trigger] new_items[b]@,
                ) by {
                    if a == j {
                        assert(lex_lt(x@, old_items[b - 1]@)) by {
                            if b - 1 > j {
                                lemma_lex_trans(x@, old_items[j as int]@, old_items[b - 1]@);
                            }
                        }
                    } else if b == j {
                        assert(lex_lt(old_items[a]@, x@));
                    }
                }
                let new_views = views_of(new_items);
                let old_views = views_of(old_items);
                assert forall|s: Seq<u8>| #[trigger] new_views.to_set().contains(s)
                    implies old_views.to_set().insert(x@).contains(s) by {
                    let i = choose|i: int|
                        0 <= i < new_views.len() && #[trigger] new_views[i] == s;
                    if i < j {
                        assert(old_views[i] == s);
                    } else if i > j {
                        assert(old_views[i - 1] == s);
                    }
                }
                assert forall|s: Seq<u8>| old_views.to_set().insert(x@).contains(s)
                    implies #[trigger] new_views.to_set().contains(s) by {
                    if s == x@ {
                        assert(new_views[j as int] == s);
                    } else {
                        let i = choose|i: int|
                            0 <= i < old_views.len() && #[trigger] old_views[i] == s;
                        if i < j {
                            assert(new_views[i] == s);
                        } else {
                            assert(new_views[i + 1] == s);
                        }
                    }
                }
                assert(new_views.to_set() =~= old_views.to_set().insert(x@));
            }
        }
    }

    /// Add every string of `xs`.
    pub fn insert_all(&mut self, xs: &Vec<Vec<u8>>)
        requires
            old(self).wf(),
        ensures
            final(self).wf(),
            final(self).as_set() == old(self).as_set().union(views_of(xs@).to_set()),
    {
        let ghost target = old(self).as_set().union(views_of(xs@).to_set());
        for i in 0..xs.len()
            invariant
                self.wf(),
                self.as_set() =~= old(self).as_set().union(views_of(xs@.take(i as int)).to_set()),
        {
            let item = slice_to_vec(xs[i].as_slice());
            assert(item@ == xs@[i as int]@);
            self.insert(item);
            proof {
                let prev = views_of(xs@.take(i as int)).to_set();
                let next = views_of(xs@.take(i + 1)).to_set();
                assert forall|s: Seq<u8>| #[trigger] next.contains(s) implies prev.insert(
                    xs@[i as int]@,
                ).contains(s) by {
                    let k = choose|k: int|
                        0 <= k < views_of(xs@.take(i + 1)).len() && #[trigger] views_of(
                            xs@.take(i + 1),
                        )[k] == s;
                    if k < i {
                        assert(views_of(xs@.take(i as int))[k] == s);
                    }
                }
                assert forall|s: Seq<u8>| prev.insert(xs@[i as int]@).contains(s)
                    implies #[trigger] next.contains(s) by {
                    if s == xs@[i as int]@ {
                        assert(views_of(xs@.take(i + 1))[i as int] == s);
                    } else {
                        let k = choose|k: int|
                            0 <= k < views_of(xs@.take(i as int)).len() && #[trigger] views_of(
                                xs@.take(i as int),
                            )[k] == s;
                        assert(views_of(xs@.take(i + 1))[k] == s);
                    }
                }
                assert(next =~= prev.insert(xs@[i as int]@));
            }
        }
        proof {
            assert(xs@.take(xs@.len() as int) =~= xs@);
        }
    }

    /// The members as a fresh vector, in ascending order.
    pub fn to_items(&self) -> (r: Vec<Vec<u8>>)
        ensures
            views_of(r@) == self.view_seq(),
    {
        let mut out: Vec<Vec<u8>> = Vec::new();
        for i in 0..self.items.len()
            invariant
                out@.len() == i,
                forall|k: int| 0 <= k < i ==> (#[trigger] out@[k])@ == self.items@[k]@,
        {
            let v = slice_to_vec(self.items[i].as_slice());
            assert(v@ == self.items@[i as int]@);
            out.push(v);
        }
        proof {
            assert forall|k: int| 0 <= k < out@.len() implies #[trigger] views_of(out@)[k]
                == self.view_seq()[k] by {
                assert(out@[k]@ == self.items@[k]@);
            }
            assert(views_of(out@) =~= self.view_seq());
        }
        out
    }
}

/// Strictly ascending byte strings.
pub open spec fn sorted_strict(s: Seq<Seq<u8>>) -> bool {
    forall|i: int, j: int| 0 <= i < j < s.len() ==> lex_lt(#[trigger] s[i], #[trigger] s[j])
}

/// A strictly ascending listing is determined by its member set: two
/// such listings of the same members are the same listing.
pub proof fn lemma_sorted_canonical(a: Seq<Seq<u8>>, b: Seq<Seq<u8>>)
    requires
        sorted_strict(a),
        sorted_strict(b),
        a.to_set() == b.to_set(),
    ensures
        a == b,
    decreases a.len(),
{
    if a.len() == 0 {
        if b.len() > 0 {
            assert(b.to_set().contains(b[0]));
            let i = choose|i: int| 0 <= i < a.len() && a[i] == b[0];
        }
        assert(a =~= b);
    } else {
        assert(a.to_set().contains(a[0]));
        assert(b.to_set().contains(a[0]));
        let ka = choose|i: int| 0 <= i < b.len() && b[i] == a[0];
        assert(b.len() > 0);
        assert(b.to_set().contains(b[0]));
        assert(a.to_set().contains(b[0]));
        let kb = choose|i: int| 0 <= i < a.len() && a[i] == b[0];
        assert(a[0] == b[0]) by {
            lemma_lex_trichotomy(a[0], b[0]);
            if lex_lt(a[0], b[0]) {
                assert(b[ka] == a[0]);
                if ka > 0 {
                    assert(lex_lt(b[0], b[ka]));
                    lemma_lex_trichotomy(b[0], b[ka]);
                }
            } else if lex_lt(b[0], a[0]) {
                assert(a[kb] == b[0]);
                if kb > 0 {
                    assert(lex_lt(a[0], a[kb]));
                    lemma_lex_trichotomy(a[0], a[kb]);
                }
            }
        }
        let ta = a.drop_first();
        let tb = b.drop_first();
        assert(forall|i: int| 0 <= i < ta.len() ==> #[trigger] ta[i] == a[i + 1]);
        assert(forall|i: int| 0 <= i < tb.len() ==> #[trigger] tb[i] == b[i + 1]);
        assert(ta.to_set() =~= a.to_set().remove(a[0])) by {
            assert forall|x: Seq<u8>| #[trigger] ta.to_set().contains(x) implies a.to_set().remove(
                a[0],
            ).contains(x) by {
                let i = choose|i: int| 0 <= i < ta.len() && ta[i] == x;
                assert(a[i + 1] == x);
                assert(lex_lt(a[0], a[i + 1]));
                lemma_lex_trichotomy(a[0], a[i + 1]);
            }
            assert forall|x: Seq<u8>| a.to_set().remove(a[0]).contains(x)
                implies #[trigger] ta.to_set().contains(x) by {
                let i = choose|i: int| 0 <= i < a.len() && a[i] == x;
                assert(i != 0);
                assert(ta[i - 1] == x);
            }
        }
        assert(tb.to_set() =~= b.to_set().remove(b[0])) by {
            assert forall|x: Seq<u8>| #[trigger] tb.to_set().contains(x) implies b.to_set().remove(
                b[0],
            ).contains(x) by {
                let i = choose|i: int| 0 <= i < tb.len() && tb[i] == x;
                assert(b[i + 1] == x);
                assert(lex_lt(b[0], b[i + 1]));
                lemma_lex_trichotomy(b[0], b[i + 1]);
            }
            assert forall|x: Seq<u8>| b.to_set().remove(b[0]).contains(x)
                implies #[trigger] tb.to_set().contains(x) by {
                let i = choose|i: int| 0 <= i < b.len() && b[i] == x;
                assert(i != 0);
                assert(tb[i - 1] == x);
            }
        }
        lemma_sorted_canonical(ta, tb);
        assert(a.len() == b.len());
        assert forall|i: int| 0 <= i < a.len() implies a[i] == b[i] by {
            if i >= 1 {
                assert(a[i] == ta[i - 1]);
                assert(b[i] == tb[i - 1]);
            }
        }
        assert(a =~= b);
    }
}

/// Two well-formed sets with the same members list them identically.
pub proof fn lemma_str_set_canonical(a: &StrSet, b: &StrSet)
    requires
        a.wf(),
        b.wf(),
        a.as_set() == b.as_set(),
    ensures
        a.view_seq() == b.view_seq(),
{
    lemma_sorted_canonical(a.view_seq(), b.view_seq());
}

} // verus!
