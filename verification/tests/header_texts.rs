use zng_build::textops::{
    render_pc, replace_all_vec, scan_version, strip_marker_line, strip_marker_text,
};

#[test]
fn marker_is_stripped_once_per_line() {
    assert_eq!(
        strip_marker_line(b"int @ZLIB_SYMBOL_PREFIX@deflate(void);"),
        b"int deflate(void);".to_vec(),
    );
    assert_eq!(strip_marker_line(b"no marker here"), b"no marker here".to_vec());
    assert_eq!(
        strip_marker_line(b"@ZLIB_SYMBOL_PREFIX@a@ZLIB_SYMBOL_PREFIX@b"),
        b"a@ZLIB_SYMBOL_PREFIX@b".to_vec(),
    );
    assert_eq!(strip_marker_line(b""), b"".to_vec());
}

#[test]
fn whole_text_is_stripped_line_by_line() {
    let text = b"a @ZLIB_SYMBOL_PREFIX@x\nplain\n";
    assert_eq!(strip_marker_text(text), b"a x\nplain\n".to_vec());
    // A text without a final newline gets one.
    assert_eq!(strip_marker_text(b"a"), b"a\n".to_vec());
    assert_eq!(strip_marker_text(b""), b"".to_vec());
}

#[test]
fn version_is_read_from_the_define() {
    let text = b"#ifndef X\n#define ZLIBNG_VERSION \"2.1.6\"\n#endif\n";
    assert_eq!(scan_version(text), Some(b"2.1.6".to_vec()));
}

#[test]
fn version_needs_both_words() {
    assert_eq!(scan_version(b"ZLIBNG_VERSION \"2.1.6\"\n"), None);
    assert_eq!(scan_version(b"#define OTHER \"2.1.6\"\n"), None);
    assert_eq!(scan_version(b""), None);
}

#[test]
fn later_version_define_wins() {
    let text = b"#define ZLIBNG_VERSION \"1.0.0\"\n#define ZLIBNG_VERSION \"2.0.0\"\n";
    assert_eq!(scan_version(text), Some(b"2.0.0".to_vec()));
}

#[test]
fn version_line_without_quotes_stops_the_scan() {
    assert_eq!(scan_version(b"#define ZLIBNG_VERSION broken\n"), None);
}

#[test]
fn replace_all_replaces_every_occurrence() {
    assert_eq!(replace_all_vec(b"a.b.c", b".", b"--"), b"a--b--c".to_vec());
    assert_eq!(replace_all_vec(b"aaaa", b"aa", b"b"), b"bb".to_vec());
    assert_eq!(replace_all_vec(b"abc", b"x", b"y"), b"abc".to_vec());
    assert_eq!(replace_all_vec(b"abc", b"", b"y"), b"abc".to_vec());
}

#[test]
fn pc_template_is_filled_in() {
    let template = b"prefix=@prefix@\nincludedir=@includedir@\nlibdir=@libdir@\nVersion: @VERSION@\n";
    let out = render_pc(template, b"/tmp/out", b"2.1.6");
    assert_eq!(
        out,
        b"prefix=/tmp/out\nincludedir=${prefix}/include\nlibdir=${prefix}/lib\nVersion: 2.1.6\n"
            .to_vec(),
    );
}
