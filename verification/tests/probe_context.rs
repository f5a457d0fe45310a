use zng_build::cache::ProbeCache;
use zng_build::feature::{feature_key, ProbeCtx};
use zng_build::lines::split_lines_vec;
use zng_build::order::StrSet;
use zng_build::plan::target_feature_set;
use zng_build::tables::{tf_avx2, tf_sse2, tf_xsave};

fn items_of(s: &StrSet) -> Vec<Vec<u8>> {
    s.to_items()
}

#[test]
fn split_lines_matches_line_iterator() {
    let lines = split_lines_vec(b"a\nbc\n\nd");
    assert_eq!(lines, vec![b"a".to_vec(), b"bc".to_vec(), b"".to_vec(), b"d".to_vec()]);
    let lines = split_lines_vec(b"a\r\nb\n");
    assert_eq!(lines, vec![b"a".to_vec(), b"b".to_vec()]);
    // A final line that no newline closed keeps its carriage return.
    let lines = split_lines_vec(b"a\r");
    assert_eq!(lines, vec![b"a\r".to_vec()]);
    let lines = split_lines_vec(b"");
    assert_eq!(lines, Vec::<Vec<u8>>::new());
}

#[test]
fn str_set_sorts_and_deduplicates() {
    let mut s = StrSet::new();
    s.insert(b"beta".to_vec());
    s.insert(b"alpha".to_vec());
    s.insert(b"beta".to_vec());
    s.insert(b"gamma".to_vec());
    assert_eq!(items_of(&s), vec![b"alpha".to_vec(), b"beta".to_vec(), b"gamma".to_vec()]);
    assert!(s.contains(b"alpha"));
    assert!(!s.contains(b"delta"));
}

#[test]
fn target_feature_list_becomes_a_set() {
    let s = target_feature_set(b"sse2,sse3,sse2");
    assert!(s.contains(b"sse2"));
    assert!(s.contains(b"sse3"));
    assert!(!s.contains(b"avx2"));
    let empty = target_feature_set(b"");
    assert!(empty.contains(b""));
    assert!(!empty.contains(b"sse2"));
}

#[test]
fn feature_key_is_stable_and_sensitive() {
    let a1 = feature_key(&tf_avx2());
    let a2 = feature_key(&tf_avx2());
    assert_eq!(a1, a2);
    let s64 = feature_key(&tf_sse2(true));
    let s32 = feature_key(&tf_sse2(false));
    assert_ne!(s64, s32);
    assert_ne!(a1, feature_key(&tf_xsave()));
}

#[test]
fn enable_respects_allow_list() {
    let mut allow = StrSet::new();
    allow.insert(b"avx2".to_vec());
    let mut ctx = ProbeCtx::new(Some(allow), false, ProbeCache::new());
    assert!(ctx.enable(&tf_avx2()));
    assert!(!ctx.enable(&tf_xsave()));
    assert_eq!(items_of(&ctx.flags), vec![b"-mavx2".to_vec()]);
    assert_eq!(items_of(&ctx.defines), vec![b"X86_AVX2".to_vec()]);
    assert_eq!(
        items_of(&ctx.files),
        vec![b"adler32_avx2".to_vec(), b"chunkset_avx2".to_vec(), b"compare256_avx2".to_vec()],
    );
}

#[test]
fn enable_without_allow_list_takes_everything() {
    let mut ctx = ProbeCtx::new(None, false, ProbeCache::new());
    assert!(ctx.enable(&tf_avx2()));
    assert!(ctx.enable(&tf_xsave()));
    assert_eq!(items_of(&ctx.flags), vec![b"-mavx2".to_vec(), b"-mxsave".to_vec()]);
}

#[test]
fn enable_picks_msvc_flags_under_msvc() {
    let mut ctx = ProbeCtx::new(None, true, ProbeCache::new());
    assert!(ctx.enable(&tf_avx2()));
    assert_eq!(items_of(&ctx.flags), vec![b"/arch:AVX2".to_vec()]);
}

#[test]
fn probe_results_are_remembered() {
    let mut ctx = ProbeCtx::new(None, false, ProbeCache::new());
    let tf = tf_avx2();
    assert_eq!(ctx.probe_cached(&tf), None);
    ctx.probe_record(&tf, true);
    assert_eq!(ctx.probe_cached(&tf), Some(true));
    assert_eq!(items_of(&ctx.flags), vec![b"-mavx2".to_vec()]);
}

#[test]
fn failed_probe_contributes_nothing() {
    let mut ctx = ProbeCtx::new(None, false, ProbeCache::new());
    let tf = tf_avx2();
    ctx.probe_record(&tf, false);
    assert_eq!(ctx.probe_cached(&tf), Some(false));
    assert_eq!(items_of(&ctx.flags), Vec::<Vec<u8>>::new());
    assert_eq!(items_of(&ctx.files), Vec::<Vec<u8>>::new());
}

#[test]
fn listing_depends_only_on_the_members() {
    let mut a = StrSet::new();
    a.insert(b"x".to_vec());
    a.insert(b"a".to_vec());
    let mut b = StrSet::new();
    b.insert(b"a".to_vec());
    b.insert(b"x".to_vec());
    b.insert(b"a".to_vec());
    assert_eq!(a.to_items(), b.to_items());
}
