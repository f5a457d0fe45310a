use zng_build::cache::{parse_cache, parse_line_vec, serialize_cache, ProbeCache};
use zng_build::hexnum::{format_hex8, parse_hex_u64};

#[test]
fn hex_format_pads_to_eight() {
    assert_eq!(format_hex8(0), b"00000000".to_vec());
    assert_eq!(format_hex8(1), b"00000001".to_vec());
    assert_eq!(format_hex8(0xdeadbeef), b"deadbeef".to_vec());
    assert_eq!(format_hex8(0xabc), b"00000abc".to_vec());
    assert_eq!(format_hex8(u64::MAX), b"ffffffffffffffff".to_vec());
    assert_eq!(format_hex8(0x1_0000_0001), b"100000001".to_vec());
}

#[test]
fn hex_parse_accepts_both_cases_and_plus() {
    assert_eq!(parse_hex_u64(b"00000001"), Some(1));
    assert_eq!(parse_hex_u64(b"ff"), Some(255));
    assert_eq!(parse_hex_u64(b"FF"), Some(255));
    assert_eq!(parse_hex_u64(b"+1f"), Some(31));
    assert_eq!(parse_hex_u64(b"deadbeef"), Some(0xdeadbeef));
    assert_eq!(parse_hex_u64(b"ffffffffffffffff"), Some(u64::MAX));
}

#[test]
fn hex_parse_rejects_junk() {
    assert_eq!(parse_hex_u64(b""), None);
    assert_eq!(parse_hex_u64(b"+"), None);
    assert_eq!(parse_hex_u64(b"1g"), None);
    assert_eq!(parse_hex_u64(b"-1"), None);
    assert_eq!(parse_hex_u64(b" 1"), None);
    // One digit beyond the largest value.
    assert_eq!(parse_hex_u64(b"10000000000000000"), None);
}

#[test]
fn hex_round_trip() {
    for v in [0u64, 1, 15, 16, 0xdeadbeef, 0x0123456789abcdef, u64::MAX] {
        assert_eq!(parse_hex_u64(&format_hex8(v)), Some(v));
    }
}

#[test]
fn cache_line_parses() {
    assert_eq!(parse_line_vec(b"00000001 1"), Some((1, true)));
    assert_eq!(parse_line_vec(b"deadbeef 0"), Some((0xdeadbeef, false)));
    assert_eq!(parse_line_vec(b"00000001 2"), None);
    assert_eq!(parse_line_vec(b"00000001"), None);
    assert_eq!(parse_line_vec(b"zz 1"), None);
    assert_eq!(parse_line_vec(b"00000001 1 extra"), None);
    assert_eq!(parse_line_vec(b""), None);
}

#[test]
fn cache_parse_keeps_good_lines_and_skips_bad_ones() {
    let text = b"00000001 1\nnot a line\n00000002 0\nzz 1\n0000000a 1\n";
    let cache = parse_cache(text);
    assert_eq!(cache.get(1), Some(true));
    assert_eq!(cache.get(2), Some(false));
    assert_eq!(cache.get(10), Some(true));
    assert_eq!(cache.get(3), None);
}

#[test]
fn cache_later_line_wins() {
    let cache = parse_cache(b"00000001 1\n00000001 0\n");
    assert_eq!(cache.get(1), Some(false));
}

#[test]
fn cache_serializes_sorted_and_zero_padded() {
    let mut cache = ProbeCache::new();
    cache.insert(0xdeadbeef, false);
    cache.insert(1, true);
    let text = serialize_cache(&cache);
    assert_eq!(text, b"00000001 1\ndeadbeef 0\n".to_vec());
}

#[test]
fn cache_insert_overwrites() {
    let mut cache = ProbeCache::new();
    cache.insert(7, true);
    cache.insert(7, false);
    assert_eq!(cache.get(7), Some(false));
    assert_eq!(serialize_cache(&cache), b"00000007 0\n".to_vec());
}

#[test]
fn cache_round_trip_through_text() {
    let mut cache = ProbeCache::new();
    cache.insert(3, true);
    cache.insert(0xffff_ffff_ffff_ffff, false);
    cache.insert(0x10, true);
    let text = serialize_cache(&cache);
    let back = parse_cache(&text);
    assert_eq!(back.get(3), Some(true));
    assert_eq!(back.get(0x10), Some(true));
    assert_eq!(back.get(0xffff_ffff_ffff_ffff), Some(false));
    assert_eq!(serialize_cache(&back), text);
}

#[test]
fn cache_empty_text_is_empty() {
    let cache = parse_cache(b"");
    assert_eq!(cache.get(0), None);
    assert_eq!(serialize_cache(&cache), Vec::<u8>::new());
}

#[test]
fn stored_text_depends_only_on_the_map() {
    let mut a = ProbeCache::new();
    a.insert(5, true);
    a.insert(2, false);
    a.insert(9, true);
    let mut b = ProbeCache::new();
    b.insert(9, false);
    b.insert(2, false);
    b.insert(5, true);
    b.insert(9, true);
    assert_eq!(serialize_cache(&a), serialize_cache(&b));
}
