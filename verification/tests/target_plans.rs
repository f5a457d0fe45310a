use zng_build::cache::ProbeCache;
use zng_build::cmakecfg::{cmake_config, link_name, rvv_setting};
use zng_build::feature::ProbeCtx;
use zng_build::order::StrSet;
use zng_build::plan::{
    arm_auxv_setup, arm_enables, arm_immediate, base_config, base_source_files, classify_arch,
    is_msvc_target, probe_object_name, probe_source_path, source_paths, x86_features, ArchKind,
};
use zng_build::tables::{arm_caps_groups, avx512_features, avx512_tune_probes};

#[test]
fn msvc_detection_goes_by_the_suffix() {
    assert!(is_msvc_target(b"x86_64-pc-windows-msvc"));
    assert!(is_msvc_target(b"i686-pc-windows-msvc"));
    assert!(!is_msvc_target(b"x86_64-pc-windows-gnu"));
    assert!(!is_msvc_target(b"x86_64-unknown-linux-gnu"));
}

#[test]
fn arch_classification() {
    assert_eq!(classify_arch(b"x86_64"), ArchKind::X86 { is_64: true });
    assert_eq!(classify_arch(b"i686"), ArchKind::X86 { is_64: false });
    assert_eq!(classify_arch(b"aarch64"), ArchKind::Arm { is_aarch64: true });
    assert_eq!(classify_arch(b"arm"), ArchKind::Arm { is_aarch64: false });
    assert_eq!(classify_arch(b"riscv64"), ArchKind::Other);
}

#[test]
fn base_config_on_linux() {
    let plan = base_config(b"x86_64-unknown-linux-gnu", false);
    assert_eq!(plan.std, b"c11".to_vec());
    let names: Vec<Vec<u8>> = plan.defines.iter().map(|d| d.0.clone()).collect();
    assert_eq!(
        names,
        vec![
            b"WITH_GZFILEOP".to_vec(),
            b"HAVE_ALIGNED_ALLOC".to_vec(),
            b"HAVE_ATTRIBUTE_ALIGNED".to_vec(),
            b"HAVE_BUILTIN_CTZ".to_vec(),
            b"HAVE_BUILTIN_CTZLL".to_vec(),
            b"HAVE_POSIX_MEMALIGN".to_vec(),
            b"HAVE_THREAD_LOCAL".to_vec(),
            b"HAVE_VISIBILITY_HIDDEN".to_vec(),
            b"HAVE_VISIBILITY_INTERNAL".to_vec(),
            b"STDC".to_vec(),
            b"_LARGEFILE64_SOURCE".to_vec(),
            b"__USE_LARGEFILE64".to_vec(),
            b"_POSIX_SOURCE".to_vec(),
        ],
    );
    assert_eq!(plan.defines[10].1, Some(b"1".to_vec()));
    assert_eq!(plan.flags, vec![b"-fvisibility=hidden".to_vec()]);
    assert!(plan.files.is_empty());
}

#[test]
fn base_config_on_msvc_and_compat() {
    let plan = base_config(b"x86_64-pc-windows-msvc", true);
    let names: Vec<Vec<u8>> = plan.defines.iter().map(|d| d.0.clone()).collect();
    assert_eq!(names, vec![b"ZLIB_COMPAT".to_vec(), b"WITH_GZFILEOP".to_vec()]);
    assert!(plan.flags.is_empty());
}

#[test]
fn base_config_on_the_mainframe() {
    let plan = base_config(b"s390x-unknown-linux-gnu", false);
    assert_eq!(
        plan.flags,
        vec![b"-fvisibility=hidden".to_vec(), b"-DDFLTCC_LEVEL_MASK=0x7e".to_vec()],
    );
    assert_eq!(plan.files, vec![b"src/zlib-ng/arch/s390/dfltcc_deflate.c".to_vec()]);
}

#[test]
fn base_sources_and_paths() {
    let names = base_source_files();
    assert_eq!(names.len(), 29);
    assert_eq!(names[0], b"adler32".to_vec());
    assert_eq!(names[28], b"zutil".to_vec());
    let paths = source_paths(b"", &names);
    assert_eq!(paths[0], b"src/zlib-ng/adler32.c".to_vec());
    let arm_paths = source_paths(b"arch/arm/", &vec![b"crc32_acle".to_vec()]);
    assert_eq!(arm_paths, vec![b"src/zlib-ng/arch/arm/crc32_acle.c".to_vec()]);
}

#[test]
fn probe_paths() {
    assert_eq!(probe_source_path(b"", b"flag"), b"src/compile_check/flag.c".to_vec());
    assert_eq!(
        probe_source_path(b"avx512", b"basic"),
        b"src/compile_check/avx512/basic.c".to_vec(),
    );
    assert_eq!(probe_object_name(b"basic", false), b"basic.o".to_vec());
    assert_eq!(probe_object_name(b"basic", true), b"basic.obj".to_vec());
}

#[test]
fn x86_chain_with_full_allow_list() {
    let mut allow = StrSet::new();
    for name in ["avx2", "sse2", "sse3", "sse4.2", "pclmulqdq", "xsave"] {
        allow.insert(name.as_bytes().to_vec());
    }
    let mut ctx = ProbeCtx::new(Some(allow), false, ProbeCache::new());
    let out = x86_features(&mut ctx, true);
    assert!(out.pclmulqdq);
    assert_eq!(out.defines, vec![b"X86_FEATURES".to_vec()]);
    assert_eq!(out.files, vec![b"src/zlib-ng/arch/x86/x86_features.c".to_vec()]);
    let flags = ctx.flags.to_items();
    assert_eq!(
        flags,
        vec![
            b"-mavx2".to_vec(),
            b"-mpclmul".to_vec(),
            b"-msse2".to_vec(),
            b"-msse3".to_vec(),
            b"-msse4.2".to_vec(),
            b"-mxsave".to_vec(),
        ],
    );
}

#[test]
fn x86_chain_without_sse4_drops_the_crc_module() {
    let mut allow = StrSet::new();
    for name in ["sse2", "sse3", "pclmulqdq"] {
        allow.insert(name.as_bytes().to_vec());
    }
    let mut ctx = ProbeCtx::new(Some(allow), false, ProbeCache::new());
    let out = x86_features(&mut ctx, false);
    assert!(!out.pclmulqdq);
    assert_eq!(out.defines, vec![b"X86_FEATURES".to_vec(), b"X86_NOCHECK_SSE2".to_vec()]);
    let defines = ctx.defines.to_items();
    assert_eq!(defines, vec![b"X86_SSE2".to_vec(), b"X86_SSSE3".to_vec()]);
}

#[test]
fn avx512_table_shapes() {
    let tunes = avx512_tune_probes();
    assert_eq!(tunes.len(), 2);
    assert_eq!(tunes[0].flags, vec![b"-mtune=cascadelake".to_vec()]);
    assert_eq!(tunes[1].flags, vec![b"-mtune=skylake-avx512".to_vec()]);
    let with = avx512_features(true);
    assert_eq!(with.len(), 4);
    assert_eq!(with[3].check, b"vpclmulqdq".to_vec());
    let without = avx512_features(false);
    assert_eq!(without.len(), 3);
    assert_eq!(without[2].check, b"vnni".to_vec());
}

#[test]
fn arm_caps_grouping() {
    let a64 = arm_caps_groups(true);
    assert_eq!(a64.len(), 1);
    assert_eq!(a64[0].len(), 1);
    assert_eq!(a64[0][0].check, b"aarch64_caps".to_vec());
    let a32 = arm_caps_groups(false);
    assert_eq!(a32.len(), 2);
    assert_eq!(a32[0][0].check, b"arm_caps".to_vec());
    assert_eq!(a32[0][1].check, b"arm_hwcaps".to_vec());
    assert_eq!(a32[1][0].check, b"arm_neon".to_vec());
    assert_eq!(a32[1][1].check, b"arm_hwneon".to_vec());
}

#[test]
fn arm_enable_path() {
    let imm = arm_immediate();
    assert_eq!(imm.defines, vec![b"ARM_FEATURES".to_vec()]);
    assert_eq!(imm.root, b"arch/arm/".to_vec());
    let mut ctx = ProbeCtx::new(None, false, ProbeCache::new());
    assert!(arm_auxv_setup(&mut ctx, b"linux"));
    assert!(!arm_auxv_setup(&mut ctx, b"macos"));
    let neon = arm_enables(&mut ctx, true);
    assert!(neon);
    let defines = ctx.defines.to_items();
    assert_eq!(
        defines,
        vec![b"ARM_ACLE".to_vec(), b"ARM_NEON".to_vec(), b"HAVE_SYS_AUXV_H".to_vec()],
    );
    let flags = ctx.flags.to_items();
    assert_eq!(flags, vec![b"-march=armv8-a+crc".to_vec(), b"-march=armv8-a+simd".to_vec()]);
}

#[test]
fn arm_msvc_32bit_skips_crc_and_marks_neon() {
    let mut ctx = ProbeCtx::new(None, true, ProbeCache::new());
    let neon = arm_enables(&mut ctx, false);
    assert!(neon);
    let defines = ctx.defines.to_items();
    assert_eq!(defines, vec![b"ARM_NEON".to_vec(), b"__ARM_NEON__".to_vec()]);
    // Under a Microsoft compiler the NEON module carries no flag.
    assert_eq!(ctx.flags.to_items(), Vec::<Vec<u8>>::new());
}

#[test]
fn rvv_override_reading() {
    assert_eq!(rvv_setting(b"off"), Some(false));
    assert_eq!(rvv_setting(b" NO "), Some(false));
    assert_eq!(rvv_setting(b"False"), Some(false));
    assert_eq!(rvv_setting(b"0"), Some(false));
    assert_eq!(rvv_setting(b"on"), Some(true));
    assert_eq!(rvv_setting(b"Yes"), Some(true));
    assert_eq!(rvv_setting(b"TRUE"), Some(true));
    assert_eq!(rvv_setting(b"1"), Some(true));
    assert_eq!(rvv_setting(b"maybe"), None);
    assert_eq!(rvv_setting(b""), None);
}

#[test]
fn cmake_defines_for_targets() {
    let plan = cmake_config(b"x86_64-unknown-linux-gnu", false, None);
    let names: Vec<Vec<u8>> = plan.defines.iter().map(|d| d.0.clone()).collect();
    assert_eq!(
        names,
        vec![
            b"BUILD_SHARED_LIBS".to_vec(),
            b"ZLIB_COMPAT".to_vec(),
            b"ZLIB_ENABLE_TESTS".to_vec(),
            b"WITH_GZFILEOP".to_vec(),
            b"CMAKE_INSTALL_LIBDIR".to_vec(),
        ],
    );
    assert_eq!(plan.defines[1].1, b"OFF".to_vec());
    assert!(plan.cflags.is_empty());

    let rvv = b"off".to_vec();
    let plan = cmake_config(b"riscv64gc-unknown-linux-gnu", true, Some(&rvv));
    let names: Vec<Vec<u8>> = plan.defines.iter().map(|d| d.0.clone()).collect();
    assert!(names.contains(&b"WITH_RVV".to_vec()));
    assert_eq!(plan.defines[4].1, b"OFF".to_vec());

    let plan = cmake_config(b"i686-pc-windows-msvc", false, None);
    let names: Vec<Vec<u8>> = plan.defines.iter().map(|d| d.0.clone()).collect();
    assert!(names.contains(&b"CMAKE_GENERATOR_PLATFORM".to_vec()));

    let plan = cmake_config(b"s390x-unknown-linux-gnu", false, None);
    assert_eq!(plan.cflags, vec![b"-DDFLTCC_LEVEL_MASK=0x7e".to_vec()]);
}

#[test]
fn link_names() {
    assert_eq!(link_name(b"x86_64-unknown-linux-gnu", false, false), b"z-ng".to_vec());
    assert_eq!(link_name(b"x86_64-unknown-linux-gnu", true, true), b"z".to_vec());
    assert_eq!(link_name(b"x86_64-pc-windows-msvc", false, false), b"zlibstatic-ng".to_vec());
    assert_eq!(link_name(b"x86_64-pc-windows-msvc", false, true), b"zlibstatic-ngd".to_vec());
    assert_eq!(link_name(b"x86_64-pc-windows-msvc", true, true), b"zlibstaticd".to_vec());
    assert_eq!(link_name(b"x86_64-pc-windows-gnu", false, false), b"z-ng".to_vec());
}
