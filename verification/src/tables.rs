//! The feature-selection tables: for each architecture the ordered,
//! optional, vectorized modules of the wrapped library. Each entry
//! names its compile check and carries what turning it on adds to the
//! build; an allow-list, a compile probe, or both stand before it.

use vstd::prelude::*;
use vstd::slice::slice_to_vec;
use vstd::string::StringSliceAdditionalSpecFns;
use crate::feature::TargetFeature;
use crate::order::views_of;

verus! {

/// Bytes of a string, as a fresh vector.
pub fn bv(s: &str) -> (r: Vec<u8>)
    ensures
        r@ == s.spec_bytes(),
{
    slice_to_vec(s.as_bytes())
}

/// An empty string list.
fn list0() -> (r: Vec<Vec<u8>>)
    ensures
        views_of(r@) == Seq::<Seq<u8>>::empty(),
{
    let r: Vec<Vec<u8>> = Vec::new();
    proof {
        assert(views_of(r@) =~= Seq::<Seq<u8>>::empty());
    }
    r
}

/// A list of one string.
fn list1(a: &str) -> (r: Vec<Vec<u8>>)
    ensures
        views_of(r@) == seq![a.spec_bytes()],
{
    let mut r: Vec<Vec<u8>> = Vec::new();
    r.push(bv(a));
    proof {
        assert(views_of(r@) =~= seq![a.spec_bytes()]);
    }
    r
}

/// A list of two strings.
fn list2(a: &str, b: &str) -> (r: Vec<Vec<u8>>)
    ensures
        views_of(r@) == seq![a.spec_bytes(), b.spec_bytes()],
{
    let mut r: Vec<Vec<u8>> = Vec::new();
    r.push(bv(a));
    r.push(bv(b));
    proof {
        assert(views_of(r@) =~= seq![a.spec_bytes(), b.spec_bytes()]);
    }
    r
}

/// A list of three strings.
fn list3(a: &str, b: &str, c: &str) -> (r: Vec<Vec<u8>>)
    ensures
        views_of(r@) == seq![a.spec_bytes(), b.spec_bytes(), c.spec_bytes()],
{
    let mut r: Vec<Vec<u8>> = Vec::new();
    r.push(bv(a));
    r.push(bv(b));
    r.push(bv(c));
    proof {
        assert(views_of(r@) =~= seq![a.spec_bytes(), b.spec_bytes(), c.spec_bytes()]);
    }
    r
}

/// A list of four strings.
fn list4(a: &str, b: &str, c: &str, d: &str) -> (r: Vec<Vec<u8>>)
    ensures
        views_of(r@) == seq![a.spec_bytes(), b.spec_bytes(), c.spec_bytes(), d.spec_bytes()],
{
    let mut r: Vec<Vec<u8>> = Vec::new();
    r.push(bv(a));
    r.push(bv(b));
    r.push(bv(c));
    r.push(bv(d));
    proof {
        assert(views_of(r@) =~= seq![
            a.spec_bytes(),
            b.spec_bytes(),
            c.spec_bytes(),
            d.spec_bytes(),
        ]);
    }
    r
}

/// A list of five strings.
fn list5(a: &str, b: &str, c: &str, d: &str, e: &str) -> (r: Vec<Vec<u8>>)
    ensures
        views_of(r@) == seq![
            a.spec_bytes(),
            b.spec_bytes(),
            c.spec_bytes(),
            d.spec_bytes(),
            e.spec_bytes(),
        ],
{
    let mut r: Vec<Vec<u8>> = Vec::new();
    r.push(bv(a));
    r.push(bv(b));
    r.push(bv(c));
    r.push(bv(d));
    r.push(bv(e));
    proof {
        assert(views_of(r@) =~= seq![
            a.spec_bytes(),
            b.spec_bytes(),
            c.spec_bytes(),
            d.spec_bytes(),
            e.spec_bytes(),
        ]);
    }
    r
}

// What each feature of the tables contributes, in specification form.

pub open spec fn avx2_check() -> Seq<u8> {
    "avx2".spec_bytes()
}

pub open spec fn avx2_flags(msvc: bool) -> Seq<Seq<u8>> {
    if msvc {
        seq!["/arch:AVX2".spec_bytes()]
    } else {
        seq!["-mavx2".spec_bytes()]
    }
}

pub open spec fn avx2_defines() -> Seq<Seq<u8>> {
    seq!["X86_AVX2".spec_bytes()]
}

pub open spec fn avx2_files() -> Seq<Seq<u8>> {
    seq![
        "chunkset_avx2".spec_bytes(),
        "compare256_avx2".spec_bytes(),
        "adler32_avx2".spec_bytes(),
    ]
}

pub open spec fn sse2_check() -> Seq<u8> {
    "sse2".spec_bytes()
}

pub open spec fn sse2_flags(msvc: bool, is_64: bool) -> Seq<Seq<u8>> {
    if msvc {
        if is_64 {
            Seq::empty()
        } else {
            seq!["/arch:SSE2".spec_bytes()]
        }
    } else {
        seq!["-msse2".spec_bytes()]
    }
}

pub open spec fn sse2_defines() -> Seq<Seq<u8>> {
    seq!["X86_SSE2".spec_bytes()]
}

pub open spec fn sse2_files() -> Seq<Seq<u8>> {
    seq![
        "chunkset_sse2".spec_bytes(),
        "compare256_sse2".spec_bytes(),
        "slide_hash_sse2".spec_bytes(),
    ]
}

pub open spec fn sse3_check() -> Seq<u8> {
    "sse3".spec_bytes()
}

pub open spec fn sse3_flags(msvc: bool) -> Seq<Seq<u8>> {
    if msvc {
        seq!["/arch:SSE3".spec_bytes()]
    } else {
        seq!["-msse3".spec_bytes()]
    }
}

pub open spec fn sse3_defines() -> Seq<Seq<u8>> {
    seq!["X86_SSSE3".spec_bytes()]
}

pub open spec fn sse3_files() -> Seq<Seq<u8>> {
    seq!["adler32_ssse3".spec_bytes(), "chunkset_ssse3".spec_bytes()]
}

pub open spec fn sse42_check() -> Seq<u8> {
    "sse4.2".spec_bytes()
}

pub open spec fn sse42_flags(msvc: bool) -> Seq<Seq<u8>> {
    if msvc {
        seq!["/arch:SSE4.2".spec_bytes()]
    } else {
        seq!["-msse4.2".spec_bytes()]
    }
}

pub open spec fn sse42_defines() -> Seq<Seq<u8>> {
    seq!["X86_SSE42".spec_bytes()]
}

pub open spec fn sse42_files() -> Seq<Seq<u8>> {
    seq!["adler32_sse42".spec_bytes(), "insert_string_sse42".spec_bytes()]
}

pub open spec fn pclmulqdq_check() -> Seq<u8> {
    "pclmulqdq".spec_bytes()
}

pub open spec fn pclmulqdq_flags(msvc: bool) -> Seq<Seq<u8>> {
    if msvc {
        Seq::empty()
    } else {
        seq!["-mpclmul".spec_bytes()]
    }
}

pub open spec fn pclmulqdq_defines() -> Seq<Seq<u8>> {
    seq!["X86_PCLMULQDQ_CRC".spec_bytes()]
}

pub open spec fn pclmulqdq_files() -> Seq<Seq<u8>> {
    seq!["crc32_pclmulqdq".spec_bytes()]
}

pub open spec fn xsave_check() -> Seq<u8> {
    "xsave".spec_bytes()
}

pub open spec fn xsave_flags(msvc: bool) -> Seq<Seq<u8>> {
    if msvc {
        Seq::empty()
    } else {
        seq!["-mxsave".spec_bytes()]
    }
}

/// A feature constructor produced exactly its specified parts.
pub open spec fn tf_matches(
    tf: TargetFeature,
    check: Seq<u8>,
    msvc_flags: Seq<Seq<u8>>,
    flags: Seq<Seq<u8>>,
    defines: Seq<Seq<u8>>,
    files: Seq<Seq<u8>>,
) -> bool {
    &&& tf.check@ == check
    &&& views_of(tf.msvc_flags@) == msvc_flags
    &&& views_of(tf.flags@) == flags
    &&& views_of(tf.defines@) == defines
    &&& views_of(tf.files@) == files
}

/// The AVX2 module of the x86 table.
pub fn tf_avx2() -> (tf: TargetFeature)
    ensures
        tf_matches(tf, avx2_check(), avx2_flags(true), avx2_flags(false), avx2_defines(),
        avx2_files()),
{
    TargetFeature {
        check: bv("avx2"),
        msvc_flags: list1("/arch:AVX2"),
        flags: list1("-mavx2"),
        defines: list1("X86_AVX2"),
        files: list3("chunkset_avx2", "compare256_avx2", "adler32_avx2"),
    }
}

/// The SSE2 module of the x86 table; under a Microsoft compiler the
/// 64-bit target needs no flag.
pub fn tf_sse2(is_64: bool) -> (tf: TargetFeature)
    ensures
        tf_matches(tf, sse2_check(), sse2_flags(true, is_64), sse2_flags(false, is_64),
        sse2_defines(), sse2_files()),
{
    TargetFeature {
        check: bv("sse2"),
        msvc_flags: if is_64 {
            list0()
        } else {
            list1("/arch:SSE2")
        },
        flags: list1("-msse2"),
        defines: list1("X86_SSE2"),
        files: list3("chunkset_sse2", "compare256_sse2", "slide_hash_sse2"),
    }
}

/// The SSSE3 module of the x86 table.
pub fn tf_sse3() -> (tf: TargetFeature)
    ensures
        tf_matches(tf, sse3_check(), sse3_flags(true), sse3_flags(false), sse3_defines(),
        sse3_files()),
{
    TargetFeature {
        check: bv("sse3"),
        msvc_flags: list1("/arch:SSE3"),
        flags: list1("-msse3"),
        defines: list1("X86_SSSE3"),
        files: list2("adler32_ssse3", "chunkset_ssse3"),
    }
}

/// The SSE4.2 module of the x86 table.
pub fn tf_sse42() -> (tf: TargetFeature)
    ensures
        tf_matches(tf, sse42_check(), sse42_flags(true), sse42_flags(false), sse42_defines(),
        sse42_files()),
{
    TargetFeature {
        check: bv("sse4.2"),
        msvc_flags: list1("/arch:SSE4.2"),
        flags: list1("-msse4.2"),
        defines: list1("X86_SSE42"),
        files: list2("adler32_sse42", "insert_string_sse42"),
    }
}

/// The carry-less-multiply CRC module of the x86 table.
pub fn tf_pclmulqdq() -> (tf: TargetFeature)
    ensures
        tf_matches(tf, pclmulqdq_check(), pclmulqdq_flags(true), pclmulqdq_flags(false),
        pclmulqdq_defines(), pclmulqdq_files()),
{
    TargetFeature {
        check: bv("pclmulqdq"),
        msvc_flags: list0(),
        flags: list1("-mpclmul"),
        defines: list1("X86_PCLMULQDQ_CRC"),
        files: list1("crc32_pclmulqdq"),
    }
}

/// The XSAVE flag of the x86 table: a flag alone, nothing else.
pub fn tf_xsave() -> (tf: TargetFeature)
    ensures
        tf_matches(tf, xsave_check(), xsave_flags(true), xsave_flags(false), Seq::empty(),
        Seq::empty()),
{
    TargetFeature {
        check: bv("xsave"),
        msvc_flags: list0(),
        flags: list1("-mxsave"),
        defines: list0(),
        files: list0(),
    }
}

// The AVX-512 part of the x86 table.

pub open spec fn avx512_wide_flags() -> Seq<Seq<u8>> {
    seq![
        "-mavx512f".spec_bytes(),
        "-mavx512dq".spec_bytes(),
        "-mavx512bw".spec_bytes(),
        "-mavx512vl".spec_bytes(),
    ]
}

pub open spec fn avx512_msvc_flags() -> Seq<Seq<u8>> {
    seq!["/arch:AVX512".spec_bytes()]
}

/// The mtune flag probed first under a non-Microsoft compiler, one
/// candidate per generation, newest first.
pub open spec fn avx512_tune_flags(second: bool) -> Seq<Seq<u8>> {
    if second {
        seq!["-mtune=skylake-avx512".spec_bytes()]
    } else {
        seq!["-mtune=cascadelake".spec_bytes()]
    }
}

/// The mtune probes, in the order they are tried; the first that
/// compiles wins.
pub fn avx512_tune_probes() -> (r: Vec<TargetFeature>)
    ensures
        r@.len() == 2,
        tf_matches(r@[0], "flag".spec_bytes(), Seq::empty(), avx512_tune_flags(false),
        Seq::empty(), Seq::empty()),
        tf_matches(r@[1], "flag".spec_bytes(), Seq::empty(), avx512_tune_flags(true),
        Seq::empty(), Seq::empty()),
{
    let mut r: Vec<TargetFeature> = Vec::new();
    r.push(TargetFeature {
        check: bv("flag"),
        msvc_flags: list0(),
        flags: list1("-mtune=cascadelake"),
        defines: list0(),
        files: list0(),
    });
    r.push(TargetFeature {
        check: bv("flag"),
        msvc_flags: list0(),
        flags: list1("-mtune=skylake-avx512"),
        defines: list0(),
        files: list0(),
    });
    r
}

/// The AVX-512 modules in probe order; the last, which rests on the
/// carry-less-multiply unit, is left off where that unit was not
/// selected.
pub fn avx512_features(with_pclmulqdq: bool) -> (r: Vec<TargetFeature>)
    ensures
        r@.len() == if with_pclmulqdq {
            4int
        } else {
            3int
        },
        tf_matches(r@[0], "basic".spec_bytes(), avx512_msvc_flags(), avx512_wide_flags(),
        seq!["X86_AVX512".spec_bytes()], seq!["adler32_avx512".spec_bytes()]),
        tf_matches(r@[1], "mask".spec_bytes(), avx512_msvc_flags(), avx512_wide_flags(),
        seq!["X86_MASK_INTRIN".spec_bytes()], Seq::empty()),
        tf_matches(r@[2], "vnni".spec_bytes(), avx512_msvc_flags(), avx512_wide_flags().push(
            "-mavx512vnni".spec_bytes(),
        ), seq!["X86_AVX512VNNI".spec_bytes()], seq!["adler32_avx512_vnni".spec_bytes()]),
        with_pclmulqdq ==> tf_matches(r@[3], "vpclmulqdq".spec_bytes(), avx512_msvc_flags(),
        seq!["-mavx512f".spec_bytes(), "-mvpclmulqdq".spec_bytes()],
        seq!["X86_VPCLMULQDQ_CRC".spec_bytes()], seq!["crc32_vpclmulqdq".spec_bytes()]),
{
    let mut r: Vec<TargetFeature> = Vec::new();
    r.push(TargetFeature {
        check: bv("basic"),
        msvc_flags: list1("/arch:AVX512"),
        flags: list4("-mavx512f", "-mavx512dq", "-mavx512bw", "-mavx512vl"),
        defines: list1("X86_AVX512"),
        files: list1("adler32_avx512"),
    });
    r.push(TargetFeature {
        check: bv("mask"),
        msvc_flags: list1("/arch:AVX512"),
        flags: list4("-mavx512f", "-mavx512dq", "-mavx512bw", "-mavx512vl"),
        defines: list1("X86_MASK_INTRIN"),
        files: list0(),
    });
    r.push(TargetFeature {
        check: bv("vnni"),
        msvc_flags: list1("/arch:AVX512"),
        flags: list5("-mavx512f", "-mavx512dq", "-mavx512bw", "-mavx512vl", "-mavx512vnni"),
        defines: list1("X86_AVX512VNNI"),
        files: list1("adler32_avx512_vnni"),
    });
    if with_pclmulqdq {
        r.push(TargetFeature {
            check: bv("vpclmulqdq"),
            msvc_flags: list1("/arch:AVX512"),
            flags: list2("-mavx512f", "-mvpclmulqdq"),
            defines: list1("X86_VPCLMULQDQ_CRC"),
            files: list1("crc32_vpclmulqdq"),
        });
    }
    proof {
        assert(views_of(r@[2].flags@) =~= avx512_wide_flags().push("-mavx512vnni".spec_bytes()));
    }
    r
}

// The ARM table.

pub open spec fn neon_flags(is_aarch64: bool) -> Seq<Seq<u8>> {
    if is_aarch64 {
        seq!["-march=armv8-a+simd".spec_bytes()]
    } else {
        seq!["-mfpu=neon".spec_bytes()]
    }
}

pub open spec fn crc_check() -> Seq<u8> {
    "crc".spec_bytes()
}

pub open spec fn crc_flags(msvc: bool) -> Seq<Seq<u8>> {
    if msvc {
        Seq::empty()
    } else {
        seq!["-march=armv8-a+crc".spec_bytes()]
    }
}

pub open spec fn crc_defines() -> Seq<Seq<u8>> {
    seq!["ARM_ACLE".spec_bytes()]
}

pub open spec fn crc_files() -> Seq<Seq<u8>> {
    seq!["crc32_acle".spec_bytes(), "insert_string_acle".spec_bytes()]
}

pub open spec fn neon_check() -> Seq<u8> {
    "neon".spec_bytes()
}

pub open spec fn neon_sel_flags(msvc: bool, is_aarch64: bool) -> Seq<Seq<u8>> {
    if msvc {
        Seq::empty()
    } else {
        neon_flags(is_aarch64)
    }
}

pub open spec fn neon_defines() -> Seq<Seq<u8>> {
    seq!["ARM_NEON".spec_bytes()]
}

pub open spec fn neon_files() -> Seq<Seq<u8>> {
    seq![
        "adler32_neon".spec_bytes(),
        "chunkset_neon".spec_bytes(),
        "compare256_neon".spec_bytes(),
        "slide_hash_neon".spec_bytes(),
    ]
}

/// The hardware CRC module of the ARM table.
pub fn tf_crc() -> (tf: TargetFeature)
    ensures
        tf_matches(tf, crc_check(), Seq::empty(), crc_flags(false), crc_defines(), crc_files()),
{
    TargetFeature {
        check: bv("crc"),
        msvc_flags: list0(),
        flags: list1("-march=armv8-a+crc"),
        defines: list1("ARM_ACLE"),
        files: list2("crc32_acle", "insert_string_acle"),
    }
}

/// The NEON module of the ARM table; the flag differs between the
/// 32-bit and the 64-bit architecture.
pub fn tf_neon(is_aarch64: bool) -> (tf: TargetFeature)
    ensures
        tf_matches(tf, neon_check(), Seq::empty(), neon_flags(is_aarch64), neon_defines(),
        neon_files()),
{
    TargetFeature {
        check: bv("neon"),
        msvc_flags: list0(),
        flags: if is_aarch64 {
            list1("-march=armv8-a+simd")
        } else {
            list1("-mfpu=neon")
        },
        defines: list1("ARM_NEON"),
        files: list4("adler32_neon", "chunkset_neon", "compare256_neon", "slide_hash_neon"),
    }
}

/// The four-register-load probe run once NEON is on.
pub fn tf_ld4(is_aarch64: bool) -> (tf: TargetFeature)
    ensures
        tf_matches(tf, "ld4".spec_bytes(), Seq::empty(), neon_flags(is_aarch64),
        seq!["ARM_NEON_HASLD4".spec_bytes()], Seq::empty()),
{
    TargetFeature {
        check: bv("ld4"),
        msvc_flags: list0(),
        flags: if is_aarch64 {
            list1("-march=armv8-a+simd")
        } else {
            list1("-mfpu=neon")
        },
        defines: list1("ARM_NEON_HASLD4"),
        files: list0(),
    }
}

/// A probe that tests only whether some auxiliary-vector capability
/// code compiles: a check name and the defines it grants, nothing more.
fn caps_probe(check: &str, defines: Vec<Vec<u8>>) -> (tf: TargetFeature)
    ensures
        tf_matches(tf, check.spec_bytes(), Seq::empty(), Seq::empty(), views_of(defines@),
        Seq::empty()),
{
    TargetFeature {
        check: bv(check),
        msvc_flags: list0(),
        flags: list0(),
        defines,
        files: list0(),
    }
}

/// The runtime-capability probes for ARM targets on kernels that offer
/// the auxiliary vector, grouped: within a group the probes are tried
/// in order and the first that compiles wins; every group runs.
pub fn arm_caps_groups(is_aarch64: bool) -> (r: Vec<Vec<TargetFeature>>)
    ensures
        is_aarch64 ==> r@.len() == 1 && r@[0]@.len() == 1 && tf_matches(r@[0]@[0],
        "aarch64_caps".spec_bytes(), Seq::empty(), Seq::empty(),
        seq!["ARM_AUXV_HAS_CRC32".spec_bytes()], Seq::empty()),
        !is_aarch64 ==> r@.len() == 2 && r@[0]@.len() == 2 && r@[1]@.len() == 2 && tf_matches(
            r@[0]@[0],
            "arm_caps".spec_bytes(),
            Seq::empty(),
            Seq::empty(),
            seq!["ARM_AUXV_HAS_CRC32".spec_bytes()],
            Seq::empty(),
        ) && tf_matches(r@[0]@[1], "arm_hwcaps".spec_bytes(), Seq::empty(), Seq::empty(),
        seq!["ARM_AUXV_HAS_CRC32".spec_bytes(), "ARM_ASM_HWCAP".spec_bytes()], Seq::empty())
            && tf_matches(r@[1]@[0], "arm_neon".spec_bytes(), Seq::empty(), Seq::empty(),
        seq!["ARM_AUXV_HAS_NEON".spec_bytes()], Seq::empty()) && tf_matches(r@[1]@[1],
        "arm_hwneon".spec_bytes(), Seq::empty(), Seq::empty(),
        seq!["ARM_AUXV_HAS_NEON".spec_bytes()], Seq::empty()),
{
    let mut r: Vec<Vec<TargetFeature>> = Vec::new();
    if is_aarch64 {
        let mut g: Vec<TargetFeature> = Vec::new();
        g.push(caps_probe("aarch64_caps", list1("ARM_AUXV_HAS_CRC32")));
        r.push(g);
    } else {
        let mut g1: Vec<TargetFeature> = Vec::new();
        g1.push(caps_probe("arm_caps", list1("ARM_AUXV_HAS_CRC32")));
        g1.push(caps_probe("arm_hwcaps", list2("ARM_AUXV_HAS_CRC32", "ARM_ASM_HWCAP")));
        r.push(g1);
        let mut g2: Vec<TargetFeature> = Vec::new();
        g2.push(caps_probe("arm_neon", list1("ARM_AUXV_HAS_NEON")));
        g2.push(caps_probe("arm_hwneon", list1("ARM_AUXV_HAS_NEON")));
        r.push(g2);
    }
    r
}

} // verus!
