//! Target gating and the application of the feature tables: what the
//! base build of the wrapped library defines for a given target triple,
//! which architecture's table applies, what the pure allow-list gates
//! of that table contribute, and where a compile probe's source and
//! object files stand.

use vstd::prelude::*;
use vstd::slice::slice_to_vec;
use vstd::string::StringSliceAdditionalSpecFns;
use crate::bytes::{ends_with_sub, contains_sub, has_match, find_byte, find_byte_first,
    lemma_find_byte_spec, subvec, bytes_eq};
use crate::feature::ProbeCtx;
use crate::order::{views_of, StrSet};
use crate::tables::{
    avx2_check, avx2_defines, avx2_files, avx2_flags, crc_check, crc_defines, crc_files,
    crc_flags, neon_check, neon_defines, neon_files, neon_sel_flags, pclmulqdq_check,
    pclmulqdq_defines, pclmulqdq_files, pclmulqdq_flags, sse2_check, sse2_defines, sse2_files,
    sse2_flags, sse3_check, sse3_defines, sse3_files, sse3_flags, sse42_check, sse42_defines,
    sse42_files, sse42_flags, xsave_check, xsave_flags, bv, tf_avx2, tf_crc, tf_neon,
    tf_pclmulqdq, tf_sse2, tf_sse3, tf_sse42, tf_xsave,
};

verus! {

pub const COMMA: u8 = 44;

/// Whether the allow-list, where there is one, names the check.
pub open spec fn allows(en: Option<StrSet>, name: Seq<u8>) -> bool {
    match en {
        Some(e) => e.as_set().contains(name),
        None => true,
    }
}

/// A set, or nothing, depending on a gate.
pub open spec fn cond_set(b: bool, s: Set<Seq<u8>>) -> Set<Seq<u8>> {
    if b {
        s
    } else {
        Set::empty()
    }
}

/// Which table applies to a target architecture.
#[derive(Debug, PartialEq, Eq, Structural)]
pub enum ArchKind {
    /// An x86 target, 64-bit or not.
    X86 { is_64: bool },
    /// An ARM target, 64-bit or not.
    Arm { is_aarch64: bool },
    /// An architecture without a table of its own.
    Other,
}

/// The table for a given architecture name.
pub open spec fn arch_kind_spec(a: Seq<u8>) -> ArchKind {
    if a == "x86_64".spec_bytes() {
        ArchKind::X86 { is_64: true }
    } else if a == "i686".spec_bytes() {
        ArchKind::X86 { is_64: false }
    } else if a == "aarch64".spec_bytes() {
        ArchKind::Arm { is_aarch64: true }
    } else if a == "arm".spec_bytes() {
        ArchKind::Arm { is_aarch64: false }
    } else {
        ArchKind::Other
    }
}

/// Classify a target architecture name.
pub fn classify_arch(arch: &[u8]) -> (r: ArchKind)
    ensures
        r == arch_kind_spec(arch@),
{
    if bytes_eq(arch, "x86_64".as_bytes()) {
        ArchKind::X86 { is_64: true }
    } else if bytes_eq(arch, "i686".as_bytes()) {
        ArchKind::X86 { is_64: false }
    } else if bytes_eq(arch, "aarch64".as_bytes()) {
        ArchKind::Arm { is_aarch64: true }
    } else if bytes_eq(arch, "arm".as_bytes()) {
        ArchKind::Arm { is_aarch64: false }
    } else {
        ArchKind::Other
    }
}

/// Whether the target uses a Microsoft-style compiler.
pub open spec fn msvc_target(t: Seq<u8>) -> bool {
    let p = "pc-windows-msvc".spec_bytes();
    p.len() <= t.len() && t.subrange(t.len() - p.len(), t.len() as int) == p
}

/// Test the target for a Microsoft-style compiler.
pub fn is_msvc_target(target: &[u8]) -> (r: bool)
    ensures
        r == msvc_target(target@),
{
    ends_with_sub(target, "pc-windows-msvc".as_bytes())
}

/// Whether the target name mentions a platform word.
pub open spec fn target_has(t: Seq<u8>, word: Seq<u8>) -> bool {
    has_match(t, word)
}

/// What the pure gates of the x86 table report back.
pub struct X86Outcome {
    /// Whether the carry-less-multiply CRC module went in, which the
    /// AVX-512 table builds on.
    pub pclmulqdq: bool,
    /// Defines applied at once, outside the collected sets.
    pub defines: Vec<Vec<u8>>,
    /// Source files applied at once, outside the collected sets.
    pub files: Vec<Vec<u8>>,
}

/// The collected flag set after the pure gates of the x86 table ran.
pub open spec fn x86_flags_after(
    s0: Set<Seq<u8>>,
    en: Option<StrSet>,
    msvc: bool,
    is_64: bool,
) -> Set<Seq<u8>> {
    s0.union(cond_set(allows(en, avx2_check()), avx2_flags(msvc).to_set())).union(
        cond_set(allows(en, sse2_check()), sse2_flags(msvc, is_64).to_set()),
    ).union(cond_set(allows(en, sse3_check()), sse3_flags(msvc).to_set())).union(
        cond_set(allows(en, sse42_check()), sse42_flags(msvc).to_set()),
    ).union(
        cond_set(
            allows(en, sse3_check()) && allows(en, sse42_check()) && allows(
                en,
                pclmulqdq_check(),
            ),
            pclmulqdq_flags(msvc).to_set(),
        ),
    ).union(cond_set(allows(en, xsave_check()), xsave_flags(msvc).to_set()))
}

/// The collected define set after the pure gates of the x86 table ran.
pub open spec fn x86_defines_after(s0: Set<Seq<u8>>, en: Option<StrSet>) -> Set<Seq<u8>> {
    s0.union(cond_set(allows(en, avx2_check()), avx2_defines().to_set())).union(
        cond_set(allows(en, sse2_check()), sse2_defines().to_set()),
    ).union(cond_set(allows(en, sse3_check()), sse3_defines().to_set())).union(
        cond_set(allows(en, sse42_check()), sse42_defines().to_set()),
    ).union(
        cond_set(
            allows(en, sse3_check()) && allows(en, sse42_check()) && allows(
                en,
                pclmulqdq_check(),
            ),
            pclmulqdq_defines().to_set(),
        ),
    )
}

/// The collected file set after the pure gates of the x86 table ran.
pub open spec fn x86_files_after(s0: Set<Seq<u8>>, en: Option<StrSet>) -> Set<Seq<u8>> {
    s0.union(cond_set(allows(en, avx2_check()), avx2_files().to_set())).union(
        cond_set(allows(en, sse2_check()), sse2_files().to_set()),
    ).union(cond_set(allows(en, sse3_check()), sse3_files().to_set())).union(
        cond_set(allows(en, sse42_check()), sse42_files().to_set()),
    ).union(
        cond_set(
            allows(en, sse3_check()) && allows(en, sse42_check()) && allows(
                en,
                pclmulqdq_check(),
            ),
            pclmulqdq_files().to_set(),
        ),
    )
}

/// Run the pure gates of the x86 table: every module that the
/// allow-list names goes in; the carry-less-multiply CRC module asks
/// for SSSE3 and SSE4.2 besides; the 32-bit target that got SSE2 also
/// defines that no runtime check for it is needed.
pub fn x86_features(ctx: &mut ProbeCtx, is_64: bool) -> (r: X86Outcome)
    requires
        old(ctx).wf(),
    ensures
        final(ctx).wf(),
        final(ctx).flags.as_set() == x86_flags_after(old(ctx).flags.as_set(), old(ctx).enabled,
        old(ctx).msvc, is_64),
        final(ctx).defines.as_set() == x86_defines_after(old(ctx).defines.as_set(),
        old(ctx).enabled),
        final(ctx).files.as_set() == x86_files_after(old(ctx).files.as_set(), old(ctx).enabled),
        final(ctx).enabled == old(ctx).enabled,
        final(ctx).msvc == old(ctx).msvc,
        final(ctx).cache == old(ctx).cache,
        r.pclmulqdq == (allows(old(ctx).enabled, sse3_check()) && allows(old(ctx).enabled,
        sse42_check()) && allows(old(ctx).enabled, pclmulqdq_check())),
        views_of(r.defines@) == seq!["X86_FEATURES".spec_bytes()] + (if allows(old(ctx).enabled,
        sse2_check()) && !is_64 {
            seq!["X86_NOCHECK_SSE2".spec_bytes()]
        } else {
            Seq::<Seq<u8>>::empty()
        }),
        views_of(r.files@) == seq!["src/zlib-ng/arch/x86/x86_features.c".spec_bytes()],
{
    let ghost en = old(ctx).enabled;
    let ghost msvc = old(ctx).msvc;
    let ghost f0 = old(ctx).flags.as_set();
    let ghost d0 = old(ctx).defines.as_set();
    let ghost s0 = old(ctx).files.as_set();

    let avx2 = ctx.enable(&tf_avx2());
    proof {
        if !avx2 {
            assert(ctx.flags.as_set() =~= f0.union(
                cond_set(allows(en, avx2_check()), avx2_flags(msvc).to_set()),
            ));
            assert(ctx.defines.as_set() =~= d0.union(
                cond_set(allows(en, avx2_check()), avx2_defines().to_set()),
            ));
            assert(ctx.files.as_set() =~= s0.union(
                cond_set(allows(en, avx2_check()), avx2_files().to_set()),
            ));
        }
    }
    let ghost f1 = ctx.flags.as_set();
    let ghost d1 = ctx.defines.as_set();
    let ghost s1 = ctx.files.as_set();

    let sse2 = ctx.enable(&tf_sse2(is_64));
    proof {
        if !sse2 {
            assert(ctx.flags.as_set() =~= f1.union(
                cond_set(allows(en, sse2_check()), sse2_flags(msvc, is_64).to_set()),
            ));
            assert(ctx.defines.as_set() =~= d1.union(
                cond_set(allows(en, sse2_check()), sse2_defines().to_set()),
            ));
            assert(ctx.files.as_set() =~= s1.union(
                cond_set(allows(en, sse2_check()), sse2_files().to_set()),
            ));
        }
    }
    let ghost f2 = ctx.flags.as_set();
    let ghost d2 = ctx.defines.as_set();
    let ghost s2 = ctx.files.as_set();

    let sse3 = ctx.enable(&tf_sse3());
    proof {
        if !sse3 {
            assert(ctx.flags.as_set() =~= f2.union(
                cond_set(allows(en, sse3_check()), sse3_flags(msvc).to_set()),
            ));
            assert(ctx.defines.as_set() =~= d2.union(
                cond_set(allows(en, sse3_check()), sse3_defines().to_set()),
            ));
            assert(ctx.files.as_set() =~= s2.union(
                cond_set(allows(en, sse3_check()), sse3_files().to_set()),
            ));
        }
    }
    let ghost f3 = ctx.flags.as_set();
    let ghost d3 = ctx.defines.as_set();
    let ghost s3 = ctx.files.as_set();

    let sse42 = ctx.enable(&tf_sse42());
    proof {
        if !sse42 {
            assert(ctx.flags.as_set() =~= f3.union(
                cond_set(allows(en, sse42_check()), sse42_flags(msvc).to_set()),
            ));
            assert(ctx.defines.as_set() =~= d3.union(
                cond_set(allows(en, sse42_check()), sse42_defines().to_set()),
            ));
            assert(ctx.files.as_set() =~= s3.union(
                cond_set(allows(en, sse42_check()), sse42_files().to_set()),
            ));
        }
    }
    let ghost f4 = ctx.flags.as_set();
    let ghost d4 = ctx.defines.as_set();
    let ghost s4 = ctx.files.as_set();

    let pclmulqdq = sse3 && sse42 && ctx.enable(&tf_pclmulqdq());
    proof {
        let gate = allows(en, sse3_check()) && allows(en, sse42_check()) && allows(
            en,
            pclmulqdq_check(),
        );
        if !gate || !pclmulqdq {
            assert(ctx.flags.as_set() =~= f4.union(
                cond_set(gate, pclmulqdq_flags(msvc).to_set()),
            ));
            assert(ctx.defines.as_set() =~= d4.union(
                cond_set(gate, pclmulqdq_defines().to_set()),
            ));
            assert(ctx.files.as_set() =~= s4.union(cond_set(gate, pclmulqdq_files().to_set())));
        }
    }
    let ghost f5 = ctx.flags.as_set();
    let ghost d5 = ctx.defines.as_set();
    let ghost s5 = ctx.files.as_set();

    let xsave = ctx.enable(&tf_xsave());
    proof {
        if !xsave {
            assert(ctx.flags.as_set() =~= f5.union(
                cond_set(allows(en, xsave_check()), xsave_flags(msvc).to_set()),
            ));
        }
        assert(ctx.defines.as_set() =~= d5.union(cond_set(allows(en, xsave_check()),
        Seq::<Seq<u8>>::empty().to_set()))) by {
            assert(Seq::<Seq<u8>>::empty().to_set() =~= Set::<Seq<u8>>::empty());
            assert(d5.union(Set::<Seq<u8>>::empty()) =~= d5);
            assert(cond_set(allows(en, xsave_check()), Seq::<Seq<u8>>::empty().to_set()) =~= Set::<
                Seq<u8>,
            >::empty());
        }
        assert(ctx.defines.as_set() =~= x86_defines_after(d0, en));
        assert(ctx.files.as_set() =~= x86_files_after(s0, en));
        assert(ctx.flags.as_set() =~= x86_flags_after(f0, en, msvc, is_64));
    }

    let mut defines: Vec<Vec<u8>> = Vec::new();
    defines.push(bv("X86_FEATURES"));
    if sse2 && !is_64 {
        defines.push(bv("X86_NOCHECK_SSE2"));
        proof {
            assert(views_of(defines@) =~= seq!["X86_FEATURES".spec_bytes()] + seq![
                "X86_NOCHECK_SSE2".spec_bytes(),
            ]);
        }
    } else {
        proof {
            assert(views_of(defines@) =~= seq!["X86_FEATURES".spec_bytes()]
                + Seq::<Seq<u8>>::empty());
        }
    }
    let mut files: Vec<Vec<u8>> = Vec::new();
    files.push(bv("src/zlib-ng/arch/x86/x86_features.c"));
    proof {
        assert(views_of(files@) =~= seq!["src/zlib-ng/arch/x86/x86_features.c".spec_bytes()]);
    }
    X86Outcome { pclmulqdq, defines, files }
}

/// What an architecture applies at once, outside the collected sets.
pub struct ArchImmediate {
    /// Defines applied at once.
    pub defines: Vec<Vec<u8>>,
    /// Source files applied at once.
    pub files: Vec<Vec<u8>>,
    /// The directory under the library source where this
    /// architecture's optional modules live.
    pub root: Vec<u8>,
}

/// What the ARM table applies at once, and where its modules live.
pub fn arm_immediate() -> (r: ArchImmediate)
    ensures
        views_of(r.defines@) == seq!["ARM_FEATURES".spec_bytes()],
        views_of(r.files@) == seq!["src/zlib-ng/arch/arm/arm_features.c".spec_bytes()],
        r.root@ == "arch/arm/".spec_bytes(),
{
    let mut defines: Vec<Vec<u8>> = Vec::new();
    defines.push(bv("ARM_FEATURES"));
    let mut files: Vec<Vec<u8>> = Vec::new();
    files.push(bv("src/zlib-ng/arch/arm/arm_features.c"));
    proof {
        assert(views_of(defines@) =~= seq!["ARM_FEATURES".spec_bytes()]);
        assert(views_of(files@) =~= seq!["src/zlib-ng/arch/arm/arm_features.c".spec_bytes()]);
    }
    ArchImmediate { defines, files, root: bv("arch/arm/") }
}

/// The directory where the x86 table's optional modules live.
pub fn x86_root() -> (r: Vec<u8>)
    ensures
        r@ == "arch/x86/".spec_bytes(),
{
    bv("arch/x86/")
}

/// Whether a kernel offers the auxiliary vector for runtime capability
/// detection; where it does, the matching define is collected.
pub fn arm_auxv_setup(ctx: &mut ProbeCtx, os: &[u8]) -> (r: bool)
    requires
        old(ctx).wf(),
    ensures
        final(ctx).wf(),
        r == (os@ == "linux".spec_bytes() || os@ == "android".spec_bytes()),
        r ==> final(ctx).defines.as_set() == old(ctx).defines.as_set().insert(
            "HAVE_SYS_AUXV_H".spec_bytes(),
        ),
        !r ==> *final(ctx) == *old(ctx),
        final(ctx).flags.as_set() == old(ctx).flags.as_set(),
        final(ctx).files.as_set() == old(ctx).files.as_set(),
        final(ctx).enabled == old(ctx).enabled,
        final(ctx).msvc == old(ctx).msvc,
        final(ctx).cache == old(ctx).cache,
{
    if bytes_eq(os, "linux".as_bytes()) || bytes_eq(os, "android".as_bytes()) {
        let d = bv("HAVE_SYS_AUXV_H");
        ctx.defines.insert(d);
        true
    } else {
        false
    }
}

/// The collected flag set after the pure gates of the ARM table ran.
pub open spec fn arm_flags_after(
    s0: Set<Seq<u8>>,
    en: Option<StrSet>,
    msvc: bool,
    is_aarch64: bool,
) -> Set<Seq<u8>> {
    s0.union(
        cond_set((!msvc || is_aarch64) && allows(en, crc_check()), crc_flags(msvc).to_set()),
    ).union(cond_set(allows(en, neon_check()), neon_sel_flags(msvc, is_aarch64).to_set()))
}

/// The collected define set after the pure gates of the ARM table ran.
pub open spec fn arm_defines_after(
    s0: Set<Seq<u8>>,
    en: Option<StrSet>,
    msvc: bool,
    is_aarch64: bool,
) -> Set<Seq<u8>> {
    s0.union(
        cond_set((!msvc || is_aarch64) && allows(en, crc_check()), crc_defines().to_set()),
    ).union(cond_set(allows(en, neon_check()), neon_defines().to_set())).union(
        cond_set(
            allows(en, neon_check()) && msvc,
            Set::empty().insert("__ARM_NEON__".spec_bytes()),
        ),
    )
}

/// The collected file set after the pure gates of the ARM table ran.
pub open spec fn arm_files_after(
    s0: Set<Seq<u8>>,
    en: Option<StrSet>,
    msvc: bool,
    is_aarch64: bool,
) -> Set<Seq<u8>> {
    s0.union(
        cond_set((!msvc || is_aarch64) && allows(en, crc_check()), crc_files().to_set()),
    ).union(cond_set(allows(en, neon_check()), neon_files().to_set()))
}

/// Run the pure gates of the ARM table: the hardware CRC module where
/// the compiler family offers its intrinsics and the allow-list names
/// it, then NEON; a Microsoft compiler that got NEON also defines its
/// marker itself. Reports whether NEON went in, which gates one more
/// compile probe.
pub fn arm_enables(ctx: &mut ProbeCtx, is_aarch64: bool) -> (r: bool)
    requires
        old(ctx).wf(),
    ensures
        final(ctx).wf(),
        r == allows(old(ctx).enabled, neon_check()),
        final(ctx).flags.as_set() == arm_flags_after(old(ctx).flags.as_set(), old(ctx).enabled,
        old(ctx).msvc, is_aarch64),
        final(ctx).defines.as_set() == arm_defines_after(old(ctx).defines.as_set(),
        old(ctx).enabled, old(ctx).msvc, is_aarch64),
        final(ctx).files.as_set() == arm_files_after(old(ctx).files.as_set(), old(ctx).enabled,
        old(ctx).msvc, is_aarch64),
        final(ctx).enabled == old(ctx).enabled,
        final(ctx).msvc == old(ctx).msvc,
        final(ctx).cache == old(ctx).cache,
{
    let ghost en = old(ctx).enabled;
    let ghost msvc = old(ctx).msvc;
    let ghost f0 = old(ctx).flags.as_set();
    let ghost d0 = old(ctx).defines.as_set();
    let ghost s0 = old(ctx).files.as_set();
    let ghost crc_gate = (!msvc || is_aarch64) && allows(en, crc_check());

    if !ctx.msvc || is_aarch64 {
        let crc = ctx.enable(&tf_crc());
        proof {
            if !crc {
                assert(ctx.flags.as_set() =~= f0.union(
                    cond_set(crc_gate, crc_flags(msvc).to_set()),
                ));
                assert(ctx.defines.as_set() =~= d0.union(
                    cond_set(crc_gate, crc_defines().to_set()),
                ));
                assert(ctx.files.as_set() =~= s0.union(
                    cond_set(crc_gate, crc_files().to_set()),
                ));
            }
        }
    } else {
        proof {
            assert(ctx.flags.as_set() =~= f0.union(cond_set(crc_gate, crc_flags(msvc).to_set())));
            assert(ctx.defines.as_set() =~= d0.union(
                cond_set(crc_gate, crc_defines().to_set()),
            ));
            assert(ctx.files.as_set() =~= s0.union(cond_set(crc_gate, crc_files().to_set())));
        }
    }
    let ghost f1 = ctx.flags.as_set();
    let ghost d1 = ctx.defines.as_set();
    let ghost s1 = ctx.files.as_set();

    let neon = ctx.enable(&tf_neon(is_aarch64));
    proof {
        if !neon {
            assert(ctx.flags.as_set() =~= f1.union(
                cond_set(allows(en, neon_check()), neon_sel_flags(msvc, is_aarch64).to_set()),
            ));
            assert(ctx.defines.as_set() =~= d1.union(
                cond_set(allows(en, neon_check()), neon_defines().to_set()),
            ));
            assert(ctx.files.as_set() =~= s1.union(
                cond_set(allows(en, neon_check()), neon_files().to_set()),
            ));
        }
    }
    let ghost d2 = ctx.defines.as_set();

    if neon && ctx.msvc {
        let d = bv("__ARM_NEON__");
        ctx.defines.insert(d);
    }
    proof {
        assert(ctx.defines.as_set() =~= d2.union(
            cond_set(
                allows(en, neon_check()) && msvc,
                Set::empty().insert("__ARM_NEON__".spec_bytes()),
            ),
        ));
        assert(ctx.flags.as_set() =~= arm_flags_after(f0, en, msvc, is_aarch64));
        assert(ctx.defines.as_set() =~= arm_defines_after(d0, en, msvc, is_aarch64));
        assert(ctx.files.as_set() =~= arm_files_after(s0, en, msvc, is_aarch64));
    }
    neon
}

/// Append the bytes of `s` to `out`.
fn push_bytes(out: &mut Vec<u8>, s: &[u8])
    ensures
        final(out)@ == old(out)@ + s@,
{
    let mut piece = slice_to_vec(s);
    out.append(&mut piece);
}

/// Where the source of a compile probe lives: under the probe
/// directory, in the architecture's subdirectory where one is given.
pub open spec fn probe_source_spec(subdir: Seq<u8>, check: Seq<u8>) -> Seq<u8> {
    "src/compile_check/".spec_bytes() + (if subdir.len() > 0 {
        subdir + "/".spec_bytes()
    } else {
        Seq::<u8>::empty()
    }) + check + ".c".spec_bytes()
}

/// Build the path of a probe's source file.
pub fn probe_source_path(subdir: &[u8], check: &[u8]) -> (r: Vec<u8>)
    ensures
        r@ == probe_source_spec(subdir@, check@),
{
    let mut out = bv("src/compile_check/");
    if subdir.len() > 0 {
        push_bytes(&mut out, subdir);
        push_bytes(&mut out, "/".as_bytes());
    }
    push_bytes(&mut out, check);
    push_bytes(&mut out, ".c".as_bytes());
    proof {
        assert(out@ =~= probe_source_spec(subdir@, check@));
    }
    out
}

/// The object file a compile probe writes, named after its check, with
/// the extension of the compiler family.
pub open spec fn probe_object_spec(check: Seq<u8>, msvc: bool) -> Seq<u8> {
    check + (if msvc {
        ".obj".spec_bytes()
    } else {
        ".o".spec_bytes()
    })
}

/// Build the file name of a probe's object file.
pub fn probe_object_name(check: &[u8], msvc: bool) -> (r: Vec<u8>)
    ensures
        r@ == probe_object_spec(check@, msvc),
{
    let mut out = slice_to_vec(check);
    if msvc {
        push_bytes(&mut out, ".obj".as_bytes());
    } else {
        push_bytes(&mut out, ".o".as_bytes());
    }
    proof {
        assert(out@ =~= probe_object_spec(check@, msvc));
    }
    out
}

/// Where one source file of the wrapped library lives: under its
/// source directory and the given subdirectory, with the C extension.
pub open spec fn src_path_spec(root: Seq<u8>, name: Seq<u8>) -> Seq<u8> {
    "src/zlib-ng/".spec_bytes() + root + name + ".c".spec_bytes()
}

/// Build the paths of the given library source files.
pub fn source_paths(root: &[u8], names: &Vec<Vec<u8>>) -> (r: Vec<Vec<u8>>)
    ensures
        views_of(r@) == Seq::new(names@.len(), |i: int| src_path_spec(root@, names@[i]@)),
{
    let mut r: Vec<Vec<u8>> = Vec::new();
    for i in 0..names.len()
        invariant
            r@.len() == i,
            forall|k: int| 0 <= k < i ==> (#[trigger] r@[k])@ == src_path_spec(root@, names@[k]@),
    {
        let mut p = bv("src/zlib-ng/");
        push_bytes(&mut p, root);
        push_bytes(&mut p, names[i].as_slice());
        push_bytes(&mut p, ".c".as_bytes());
        assert(p@ =~= src_path_spec(root@, names@[i as int]@));
        r.push(p);
    }
    proof {
        assert(views_of(r@) =~= Seq::new(names@.len(), |i: int| src_path_spec(root@, names@[i]@)));
    }
    r
}

/// The segments of `t` between commas; an empty text is one empty
/// segment.
pub open spec fn split_commas(t: Seq<u8>) -> Seq<Seq<u8>>
    decreases t.len(),
{
    let i = find_byte_first(t, COMMA);
    if i < 0 || i >= t.len() {
        seq![t]
    } else {
        seq![t.take(i)] + split_commas(t.skip(i + 1))
    }
}

/// The set of target features named in a comma-separated list.
pub fn target_feature_set(t: &[u8]) -> (r: StrSet)
    ensures
        r.wf(),
        r.as_set() == split_commas(t@).to_set(),
{
    let mut r = StrSet::new();
    let mut pos: usize = 0;
    let ghost whole = t@;
    proof {
        assert(whole.skip(0) =~= whole);
        assert(Set::<Seq<u8>>::empty().union(Seq::<Seq<u8>>::empty().to_set()) =~= Set::<
            Seq<u8>,
        >::empty());
    }
    let mut done = false;
    while !done
        invariant
            pos <= t@.len(),
            r.wf(),
            !done ==> split_commas(t@).to_set() =~= r.as_set().union(
                split_commas(t@.skip(pos as int)).to_set(),
            ),
            done ==> split_commas(t@).to_set() =~= r.as_set(),
        decreases t@.len() - pos + (if done {
            0int
        } else {
            1int
        }),
    {
        let ghost rest = t@.skip(pos as int);
        let tail: &[u8] = &t[pos..t.len()];
        assert(tail@ =~= rest);
        proof {
            lemma_find_byte_spec(rest, COMMA);
        }
        match find_byte(tail, COMMA) {
            None => {
                let seg = subvec(t, pos, t.len());
                assert(seg@ =~= rest);
                assert(split_commas(rest) =~= seq![rest]);
                r.insert(seg);
                proof {
                    let single: Seq<Seq<u8>> = seq![rest];
                    assert(single[0] == rest);
                    assert(single.contains(rest));
                    assert forall|x: Seq<u8>| #[trigger] single.to_set().contains(x) implies x
                        == rest by {
                        let k = choose|k: int| 0 <= k < single.len() && #[trigger] single[k] == x;
                        assert(k == 0);
                    }
                    assert(single.to_set() =~= Set::<Seq<u8>>::empty().insert(rest));
                }
                done = true;
            },
            Some(i) => {
                assert(0 <= i < rest.len());
                let seg = subvec(t, pos, pos + i);
                assert(seg@ =~= rest.take(i as int));
                assert(split_commas(rest) =~= seq![rest.take(i as int)] + split_commas(
                    rest.skip(i + 1),
                ));
                r.insert(seg);
                proof {
                    let a = seq![rest.take(i as int)] + split_commas(rest.skip(i + 1));
                    assert forall|x: Seq<u8>| #[trigger] a.to_set().contains(x) implies
                        split_commas(rest.skip(i + 1)).to_set().insert(rest.take(i as int))
                            .contains(x) by {
                        let k = choose|k: int| 0 <= k < a.len() && #[trigger] a[k] == x;
                        if k > 0 {
                            assert(split_commas(rest.skip(i + 1))[k - 1] == x);
                        }
                    }
                    assert forall|x: Seq<u8>| split_commas(rest.skip(i + 1)).to_set().insert(
                        rest.take(i as int),
                    ).contains(x) implies #[trigger] a.to_set().contains(x) by {
                        if x == rest.take(i as int) {
                            assert(a[0] == x);
                        } else {
                            let k = choose|k: int|
                                0 <= k < split_commas(rest.skip(i + 1)).len() && #[trigger]
                                    split_commas(rest.skip(i + 1))[k] == x;
                            assert(a[k + 1] == x);
                        }
                    }
                    assert(a.to_set() =~= split_commas(rest.skip(i + 1)).to_set().insert(
                        rest.take(i as int),
                    ));
                    assert(rest.skip(i + 1) =~= t@.skip(pos + i + 1));
                }
                pos = pos + i + 1;
            },
        }
    }
    r
}

/// View of an optional define value.
pub open spec fn opt_view(o: Option<Vec<u8>>) -> Option<Seq<u8>> {
    match o {
        Some(v) => Some(v@),
        None => None,
    }
}

/// Views of a define list: names with optional values.
pub open spec fn def_views(ds: Seq<(Vec<u8>, Option<Vec<u8>>)>) -> Seq<(Seq<u8>, Option<Seq<u8>>)> {
    Seq::new(ds.len(), |i: int| (ds[i].0@, opt_view(ds[i].1)))
}

/// The defines of the base build for a target, in the order they are
/// applied: compatibility naming where asked for, the file operations,
/// the capabilities any non-Microsoft toolchain of this decade has,
/// the large-file and visibility story away from Windows, and the two
/// platform quirks.
pub open spec fn base_defines(t: Seq<u8>, compat: bool) -> Seq<(Seq<u8>, Option<Seq<u8>>)> {
    (if compat {
        seq![("ZLIB_COMPAT".spec_bytes(), Option::<Seq<u8>>::None)]
    } else {
        Seq::<(Seq<u8>, Option<Seq<u8>>)>::empty()
    }) + seq![("WITH_GZFILEOP".spec_bytes(), Option::<Seq<u8>>::None)] + (if !msvc_target(t) {
        seq![
            ("HAVE_ALIGNED_ALLOC".spec_bytes(), Option::<Seq<u8>>::None),
            ("HAVE_ATTRIBUTE_ALIGNED".spec_bytes(), Option::<Seq<u8>>::None),
            ("HAVE_BUILTIN_CTZ".spec_bytes(), Option::<Seq<u8>>::None),
            ("HAVE_BUILTIN_CTZLL".spec_bytes(), Option::<Seq<u8>>::None),
            ("HAVE_POSIX_MEMALIGN".spec_bytes(), Option::<Seq<u8>>::None),
            ("HAVE_THREAD_LOCAL".spec_bytes(), Option::<Seq<u8>>::None),
            ("HAVE_VISIBILITY_HIDDEN".spec_bytes(), Option::<Seq<u8>>::None),
            ("HAVE_VISIBILITY_INTERNAL".spec_bytes(), Option::<Seq<u8>>::None),
        ]
    } else {
        Seq::<(Seq<u8>, Option<Seq<u8>>)>::empty()
    }) + (if !target_has(t, "windows".spec_bytes()) {
        seq![
            ("STDC".spec_bytes(), Option::<Seq<u8>>::None),
            ("_LARGEFILE64_SOURCE".spec_bytes(), Option::<Seq<u8>>::Some("1".spec_bytes())),
            ("__USE_LARGEFILE64".spec_bytes(), Option::<Seq<u8>>::None),
            ("_POSIX_SOURCE".spec_bytes(), Option::<Seq<u8>>::None),
        ]
    } else {
        Seq::<(Seq<u8>, Option<Seq<u8>>)>::empty()
    }) + (if target_has(t, "apple".spec_bytes()) {
        seq![("_C99_SOURCE".spec_bytes(), Option::<Seq<u8>>::None)]
    } else {
        Seq::<(Seq<u8>, Option<Seq<u8>>)>::empty()
    }) + (if target_has(t, "solaris".spec_bytes()) {
        seq![("_XOPEN_SOURCE".spec_bytes(), Option::<Seq<u8>>::Some("700".spec_bytes()))]
    } else {
        Seq::<(Seq<u8>, Option<Seq<u8>>)>::empty()
    })
}

/// The flags of the base build: symbol visibility away from Windows,
/// and the hardware-compression level mask on the mainframe.
pub open spec fn base_flags_spec(t: Seq<u8>) -> Seq<Seq<u8>> {
    (if !target_has(t, "windows".spec_bytes()) {
        seq!["-fvisibility=hidden".spec_bytes()]
    } else {
        Seq::<Seq<u8>>::empty()
    }) + (if target_has(t, "s390x".spec_bytes()) {
        seq!["-DDFLTCC_LEVEL_MASK=0x7e".spec_bytes()]
    } else {
        Seq::<Seq<u8>>::empty()
    })
}

/// The extra source of the base build: hardware compression on the
/// mainframe.
pub open spec fn base_files_spec(t: Seq<u8>) -> Seq<Seq<u8>> {
    if target_has(t, "s390x".spec_bytes()) {
        seq!["src/zlib-ng/arch/s390/dfltcc_deflate.c".spec_bytes()]
    } else {
        Seq::<Seq<u8>>::empty()
    }
}

/// What the base build applies to the compiler before any table runs.
pub struct BasePlan {
    /// The C standard asked of the compiler.
    pub std: Vec<u8>,
    /// Defines, in order, some with a value.
    pub defines: Vec<(Vec<u8>, Option<Vec<u8>>)>,
    /// Flags, in order.
    pub flags: Vec<Vec<u8>>,
    /// Extra source files.
    pub files: Vec<Vec<u8>>,
}

/// Work out the base build configuration for a target.
pub fn base_config(target: &[u8], compat: bool) -> (r: BasePlan)
    ensures
        r.std@ == "c11".spec_bytes(),
        def_views(r.defines@) == base_defines(target@, compat),
        views_of(r.flags@) == base_flags_spec(target@),
        views_of(r.files@) == base_files_spec(target@),
{
    let msvc = is_msvc_target(target);
    let windows = contains_sub(target, "windows".as_bytes());
    let apple = contains_sub(target, "apple".as_bytes());
    let solaris = contains_sub(target, "solaris".as_bytes());
    let s390x = contains_sub(target, "s390x".as_bytes());

    let ghost g1: Seq<(Seq<u8>, Option<Seq<u8>>)> = if compat {
        seq![("ZLIB_COMPAT".spec_bytes(), Option::<Seq<u8>>::None)]
    } else {
        Seq::empty()
    };
    let ghost g2: Seq<(Seq<u8>, Option<Seq<u8>>)> = seq![
        ("WITH_GZFILEOP".spec_bytes(), Option::<Seq<u8>>::None),
    ];

    let mut defines: Vec<(Vec<u8>, Option<Vec<u8>>)> = Vec::new();
    if compat {
        defines.push((bv("ZLIB_COMPAT"), None));
    }
    assert(def_views(defines@) =~= g1);
    defines.push((bv("WITH_GZFILEOP"), None));
    assert(def_views(defines@) =~= g1 + g2);
    if !msvc {
        defines.push((bv("HAVE_ALIGNED_ALLOC"), None));
        defines.push((bv("HAVE_ATTRIBUTE_ALIGNED"), None));
        defines.push((bv("HAVE_BUILTIN_CTZ"), None));
        defines.push((bv("HAVE_BUILTIN_CTZLL"), None));
        defines.push((bv("HAVE_POSIX_MEMALIGN"), None));
        defines.push((bv("HAVE_THREAD_LOCAL"), None));
        defines.push((bv("HAVE_VISIBILITY_HIDDEN"), None));
        defines.push((bv("HAVE_VISIBILITY_INTERNAL"), None));
    }
    let ghost g3: Seq<(Seq<u8>, Option<Seq<u8>>)> = if !msvc_target(target@) {
        seq![
            ("HAVE_ALIGNED_ALLOC".spec_bytes(), Option::<Seq<u8>>::None),
            ("HAVE_ATTRIBUTE_ALIGNED".spec_bytes(), Option::<Seq<u8>>::None),
            ("HAVE_BUILTIN_CTZ".spec_bytes(), Option::<Seq<u8>>::None),
            ("HAVE_BUILTIN_CTZLL".spec_bytes(), Option::<Seq<u8>>::None),
            ("HAVE_POSIX_MEMALIGN".spec_bytes(), Option::<Seq<u8>>::None),
            ("HAVE_THREAD_LOCAL".spec_bytes(), Option::<Seq<u8>>::None),
            ("HAVE_VISIBILITY_HIDDEN".spec_bytes(), Option::<Seq<u8>>::None),
            ("HAVE_VISIBILITY_INTERNAL".spec_bytes(), Option::<Seq<u8>>::None),
        ]
    } else {
        Seq::empty()
    };
    assert(def_views(defines@) =~= g1 + g2 + g3);
    if !windows {
        defines.push((bv("STDC"), None));
        defines.push((bv("_LARGEFILE64_SOURCE"), Some(bv("1"))));
        defines.push((bv("__USE_LARGEFILE64"), None));
        defines.push((bv("_POSIX_SOURCE"), None));
    }
    let ghost g4: Seq<(Seq<u8>, Option<Seq<u8>>)> = if !target_has(
        target@,
        "windows".spec_bytes(),
    ) {
        seq![
            ("STDC".spec_bytes(), Option::<Seq<u8>>::None),
            ("_LARGEFILE64_SOURCE".spec_bytes(), Option::<Seq<u8>>::Some("1".spec_bytes())),
            ("__USE_LARGEFILE64".spec_bytes(), Option::<Seq<u8>>::None),
            ("_POSIX_SOURCE".spec_bytes(), Option::<Seq<u8>>::None),
        ]
    } else {
        Seq::empty()
    };
    assert(def_views(defines@) =~= g1 + g2 + g3 + g4);
    if apple {
        defines.push((bv("_C99_SOURCE"), None));
    }
    let ghost g5: Seq<(Seq<u8>, Option<Seq<u8>>)> = if target_has(target@, "apple".spec_bytes()) {
        seq![("_C99_SOURCE".spec_bytes(), Option::<Seq<u8>>::None)]
    } else {
        Seq::empty()
    };
    assert(def_views(defines@) =~= g1 + g2 + g3 + g4 + g5);
    if solaris {
        defines.push((bv("_XOPEN_SOURCE"), Some(bv("700"))));
    }
    let ghost g6: Seq<(Seq<u8>, Option<Seq<u8>>)> = if target_has(
        target@,
        "solaris".spec_bytes(),
    ) {
        seq![("_XOPEN_SOURCE".spec_bytes(), Option::<Seq<u8>>::Some("700".spec_bytes()))]
    } else {
        Seq::empty()
    };
    assert(def_views(defines@) =~= g1 + g2 + g3 + g4 + g5 + g6);
    assert(def_views(defines@) =~= base_defines(target@, compat));

    let mut flags: Vec<Vec<u8>> = Vec::new();
    if !windows {
        flags.push(bv("-fvisibility=hidden"));
    }
    if s390x {
        flags.push(bv("-DDFLTCC_LEVEL_MASK=0x7e"));
    }
    assert(views_of(flags@) =~= base_flags_spec(target@));

    let mut files: Vec<Vec<u8>> = Vec::new();
    if s390x {
        files.push(bv("src/zlib-ng/arch/s390/dfltcc_deflate.c"));
    }
    assert(views_of(files@) =~= base_files_spec(target@));

    BasePlan { std: bv("c11"), defines, flags, files }
}

/// The source files every build of the wrapped library compiles, in
/// order.
pub open spec fn base_source_names() -> Seq<Seq<u8>> {
    seq![
        "adler32".spec_bytes(),
        "adler32_fold".spec_bytes(),
        "chunkset".spec_bytes(),
        "compare256".spec_bytes(),
        "compress".spec_bytes(),
        "cpu_features".spec_bytes(),
        "crc32_braid".spec_bytes(),
        "crc32_braid_comb".spec_bytes(),
        "crc32_fold".spec_bytes(),
        "deflate".spec_bytes(),
        "deflate_fast".spec_bytes(),
        "deflate_huff".spec_bytes(),
        "deflate_medium".spec_bytes(),
        "deflate_quick".spec_bytes(),
        "deflate_rle".spec_bytes(),
        "deflate_slow".spec_bytes(),
        "deflate_stored".spec_bytes(),
        "functable".spec_bytes(),
        "gzlib".spec_bytes(),
        "gzwrite".spec_bytes(),
        "infback".spec_bytes(),
        "inflate".spec_bytes(),
        "inftrees".spec_bytes(),
        "insert_string".spec_bytes(),
        "insert_string_roll".spec_bytes(),
        "slide_hash".spec_bytes(),
        "trees".spec_bytes(),
        "uncompr".spec_bytes(),
        "zutil".spec_bytes(),
    ]
}

/// Build the list of the always-compiled source files.
pub fn base_source_files() -> (r: Vec<Vec<u8>>)
    ensures
        views_of(r@) == base_source_names(),
{
    let mut r: Vec<Vec<u8>> = Vec::new();
    r.push(bv("adler32"));
    r.push(bv("adler32_fold"));
    r.push(bv("chunkset"));
    r.push(bv("compare256"));
    r.push(bv("compress"));
    r.push(bv("cpu_features"));
    r.push(bv("crc32_braid"));
    r.push(bv("crc32_braid_comb"));
    r.push(bv("crc32_fold"));
    r.push(bv("deflate"));
    r.push(bv("deflate_fast"));
    r.push(bv("deflate_huff"));
    r.push(bv("deflate_medium"));
    r.push(bv("deflate_quick"));
    r.push(bv("deflate_rle"));
    r.push(bv("deflate_slow"));
    r.push(bv("deflate_stored"));
    r.push(bv("functable"));
    r.push(bv("gzlib"));
    r.push(bv("gzwrite"));
    r.push(bv("infback"));
    r.push(bv("inflate"));
    r.push(bv("inftrees"));
    r.push(bv("insert_string"));
    r.push(bv("insert_string_roll"));
    r.push(bv("slide_hash"));
    r.push(bv("trees"));
    r.push(bv("uncompr"));
    r.push(bv("zutil"));
    proof {
        assert(views_of(r@) =~= base_source_names());
    }
    r
}

} // verus!
