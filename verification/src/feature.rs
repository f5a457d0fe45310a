//! One optional, architecture-specific feature of the wrapped library:
//! a named compile check together with the compiler flags, defines and
//! source files it brings in, and the context that collects what the
//! enabled features contribute. A feature's cache key is a hash of all
//! its parts, so a change to any part re-runs its compile probe.

use vstd::prelude::*;
use vstd::slice::slice_to_vec;
use crate::cache::ProbeCache;
use crate::order::{views_of, StrSet};

verus! {

pub const FNV_OFFSET: u64 = 0xcbf29ce484222325;

pub const FNV_PRIME: u64 = 0x100000001b3;

/// Separates the strings of one list in a feature's encoding.
pub const SEP_ITEM: u8 = 254;

/// Separates the lists in a feature's encoding.
pub const SEP_LIST: u8 = 255;

/// One architecture-specific optional feature.
pub struct TargetFeature {
    /// Name of the compile-check source and of the target feature that
    /// may gate it.
    pub check: Vec<u8>,
    /// Flags handed to a Microsoft-style compiler.
    pub msvc_flags: Vec<Vec<u8>>,
    /// Flags handed to any other compiler.
    pub flags: Vec<Vec<u8>>,
    /// Preprocessor defines the feature brings in.
    pub defines: Vec<Vec<u8>>,
    /// Library source files the feature brings in.
    pub files: Vec<Vec<u8>>,
}

impl TargetFeature {
    /// The flag list that applies under the given compiler family.
    pub open spec fn sel_flags(&self, msvc: bool) -> Seq<Seq<u8>> {
        if msvc {
            views_of(self.msvc_flags@)
        } else {
            views_of(self.flags@)
        }
    }
}

/// One step of the 64-bit FNV-1a hash.
pub open spec fn fnv_step(h: u64, b: u8) -> u64 {
    (h ^ (b as u64)).wrapping_mul(FNV_PRIME)
}

/// The 64-bit FNV-1a hash of `s` folded onto the state `h`.
pub open spec fn fnv64(s: Seq<u8>, h: u64) -> u64
    decreases s.len(),
{
    if s.len() == 0 {
        h
    } else {
        fnv64(s.drop_first(), fnv_step(h, s[0]))
    }
}

/// Encoding of one string list: each string ends with an item mark, the
/// list with a list mark.
pub open spec fn enc_list(ls: Seq<Seq<u8>>) -> Seq<u8>
    decreases ls.len(),
{
    if ls.len() == 0 {
        seq![SEP_LIST]
    } else {
        ls[0] + seq![SEP_ITEM] + enc_list(ls.drop_first())
    }
}

/// The byte string that stands for a whole feature: its name and its
/// four lists, in a fixed order.
pub open spec fn tf_encoding(tf: &TargetFeature) -> Seq<u8> {
    tf.check@ + seq![SEP_LIST] + enc_list(views_of(tf.msvc_flags@)) + enc_list(
        views_of(tf.flags@),
    ) + enc_list(views_of(tf.defines@)) + enc_list(views_of(tf.files@))
}

/// The cache key of a feature.
pub open spec fn feature_key_spec(tf: &TargetFeature) -> u64 {
    fnv64(tf_encoding(tf), FNV_OFFSET)
}

/// Fold the bytes of `s` onto the hash state `h0`.
fn fnv_hash(s: &[u8], h0: u64) -> (r: u64)
    ensures
        r == fnv64(s@, h0),
{
    let mut h = h0;
    assert(s@.skip(0) =~= s@);
    for i in 0..s.len()
        invariant
            fnv64(s@, h0) == fnv64(s@.skip(i as int), h),
    {
        assert(s@.skip(i as int).drop_first() =~= s@.skip(i + 1));
        assert(s@.skip(i as int)[0] == s@[i as int]);
        h = (h ^ (s[i] as u64)).wrapping_mul(FNV_PRIME);
    }
    assert(s@.skip(s@.len() as int) =~= Seq::<u8>::empty());
    h
}

/// Append the encoding of one string list to `buf`.
fn append_enc_list(buf: &mut Vec<u8>, ls: &Vec<Vec<u8>>)
    ensures
        final(buf)@ == old(buf)@ + enc_list(views_of(ls@)),
{
    let ghost full = views_of(ls@);
    assert(full.skip(0) =~= full);
    for i in 0..ls.len()
        invariant
            full == views_of(ls@),
            old(buf)@ + enc_list(full) =~= buf@ + enc_list(full.skip(i as int)),
    {
        let ghost rest = full.skip(i as int);
        assert(rest[0] == ls@[i as int]@);
        assert(rest.drop_first() =~= full.skip(i + 1));
        let mut piece = slice_to_vec(ls[i].as_slice());
        buf.append(&mut piece);
        buf.push(SEP_ITEM);
        assert(buf@ + enc_list(full.skip(i + 1)) =~= old(buf)@ + enc_list(full));
    }
    assert(full.skip(full.len() as int) =~= Seq::<Seq<u8>>::empty());
    buf.push(SEP_LIST);
    assert(buf@ =~= old(buf)@ + enc_list(full));
}

/// The cache key of a feature: a hash of its name and all its lists.
pub fn feature_key(tf: &TargetFeature) -> (r: u64)
    ensures
        r == feature_key_spec(tf),
{
    let mut buf = slice_to_vec(tf.check.as_slice());
    buf.push(SEP_LIST);
    append_enc_list(&mut buf, &tf.msvc_flags);
    append_enc_list(&mut buf, &tf.flags);
    append_enc_list(&mut buf, &tf.defines);
    append_enc_list(&mut buf, &tf.files);
    assert(buf@ =~= tf_encoding(tf));
    fnv_hash(buf.as_slice(), FNV_OFFSET)
}

/// Collects what the enabled features contribute, checks the allow-list,
/// and holds the probe cache.
pub struct ProbeCtx {
    /// Compiler flags collected so far.
    pub flags: StrSet,
    /// Preprocessor defines collected so far.
    pub defines: StrSet,
    /// Library source files collected so far.
    pub files: StrSet,
    /// The target-feature allow-list, where one applies.
    pub enabled: Option<StrSet>,
    /// Whether the compiler is of the Microsoft family.
    pub msvc: bool,
    /// Results of compile probes, kept between builds.
    pub cache: ProbeCache,
}

/// The three collected sets grew by exactly the feature's contribution.
pub open spec fn appended(pre: ProbeCtx, post: ProbeCtx, tf: &TargetFeature) -> bool {
    &&& post.flags.as_set() == pre.flags.as_set().union(tf.sel_flags(pre.msvc).to_set())
    &&& post.defines.as_set() == pre.defines.as_set().union(views_of(tf.defines@).to_set())
    &&& post.files.as_set() == pre.files.as_set().union(views_of(tf.files@).to_set())
}

/// The three collected sets are unchanged.
pub open spec fn same_append(pre: ProbeCtx, post: ProbeCtx) -> bool {
    &&& post.flags.as_set() == pre.flags.as_set()
    &&& post.defines.as_set() == pre.defines.as_set()
    &&& post.files.as_set() == pre.files.as_set()
}

impl ProbeCtx {
    /// All parts are well-formed.
    pub open spec fn wf(&self) -> bool {
        &&& self.flags.wf()
        &&& self.defines.wf()
        &&& self.files.wf()
        &&& self.enabled is Some ==> self.enabled->Some_0.wf()
        &&& self.cache.wf()
    }

    /// A fresh context with nothing collected yet.
    pub fn new(enabled: Option<StrSet>, msvc: bool, cache: ProbeCache) -> (r: ProbeCtx)
        requires
            enabled is Some ==> enabled->Some_0.wf(),
            cache.wf(),
        ensures
            r.wf(),
            r.flags.as_set() == Set::<Seq<u8>>::empty(),
            r.defines.as_set() == Set::<Seq<u8>>::empty(),
            r.files.as_set() == Set::<Seq<u8>>::empty(),
            r.enabled == enabled,
            r.msvc == msvc,
            r.cache == cache,
    {
        ProbeCtx {
            flags: StrSet::new(),
            defines: StrSet::new(),
            files: StrSet::new(),
            enabled,
            msvc,
            cache,
        }
    }

    /// Collect everything the feature contributes.
    pub fn push(&mut self, tf: &TargetFeature)
        requires
            old(self).wf(),
        ensures
            final(self).wf(),
            appended(*old(self), *final(self), tf),
            final(self).enabled == old(self).enabled,
            final(self).msvc == old(self).msvc,
            final(self).cache == old(self).cache,
    {
        if self.msvc {
            self.flags.insert_all(&tf.msvc_flags);
        } else {
            self.flags.insert_all(&tf.flags);
        }
        self.defines.insert_all(&tf.defines);
        self.files.insert_all(&tf.files);
    }

    /// Collect the feature where the allow-list, if there is one, names
    /// its check; report whether it did.
    pub fn enable(&mut self, tf: &TargetFeature) -> (r: bool)
        requires
            old(self).wf(),
        ensures
            final(self).wf(),
            r == match old(self).enabled {
                Some(e) => e.as_set().contains(tf.check@),
                None => true,
            },
            r ==> appended(*old(self), *final(self), tf),
            !r ==> *final(self) == *old(self),
            final(self).enabled == old(self).enabled,
            final(self).msvc == old(self).msvc,
            final(self).cache == old(self).cache,
    {
        match &self.enabled {
            Some(e) => {
                if !e.contains(tf.check.as_slice()) {
                    return false;
                }
            },
            None => {},
        }
        self.push(tf);
        true
    }

    /// Look the feature up in the probe cache; a remembered success is
    /// collected at once, a remembered failure or a miss changes
    /// nothing.
    pub fn probe_cached(&mut self, tf: &TargetFeature) -> (r: Option<bool>)
        requires
            old(self).wf(),
        ensures
            final(self).wf(),
            r == if old(self).cache.as_map().dom().contains(feature_key_spec(tf)) {
                Some(old(self).cache.as_map()[feature_key_spec(tf)])
            } else {
                None::<bool>
            },
            r == Some(true) ==> appended(*old(self), *final(self), tf),
            r != Some(true) ==> *final(self) == *old(self),
            final(self).enabled == old(self).enabled,
            final(self).msvc == old(self).msvc,
            final(self).cache == old(self).cache,
    {
        let key = feature_key(tf);
        let r = self.cache.get(key);
        if let Some(true) = r {
            self.push(tf);
        }
        r
    }

    /// Record a probe's outcome in the cache; a success is collected.
    pub fn probe_record(&mut self, tf: &TargetFeature, ok: bool)
        requires
            old(self).wf(),
        ensures
            final(self).wf(),
            final(self).cache.as_map() == old(self).cache.as_map().insert(
                feature_key_spec(tf),
                ok,
            ),
            ok ==> appended(*old(self), *final(self), tf),
            !ok ==> same_append(*old(self), *final(self)),
            final(self).enabled == old(self).enabled,
            final(self).msvc == old(self).msvc,
    {
        let key = feature_key(tf);
        self.cache.insert(key, ok);
        if ok {
            self.push(tf);
        }
    }
}

} // verus!
