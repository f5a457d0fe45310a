//! Decisions of the build path that drives the wrapped library's own
//! cmake scripts: the cache entries handed to cmake for a target, the
//! reading of the vector-extension override, and the name under which
//! the built library is linked.

use vstd::prelude::*;
use vstd::string::StringSliceAdditionalSpecFns;
use crate::bytes::{contains_sub, bytes_eq};
use crate::order::views_of;
use crate::plan::target_has;
use crate::tables::bv;

verus! {

/// An ASCII space, tab, or line-break byte.
pub open spec fn is_space(b: u8) -> bool {
    b == 32 || b == 9 || b == 10 || b == 11 || b == 12 || b == 13
}

/// `s` without leading space bytes.
pub open spec fn trim_front(s: Seq<u8>) -> Seq<u8>
    decreases s.len(),
{
    if s.len() > 0 && is_space(s[0]) {
        trim_front(s.drop_first())
    } else {
        s
    }
}

/// `s` without trailing space bytes.
pub open spec fn trim_back(s: Seq<u8>) -> Seq<u8>
    decreases s.len(),
{
    if s.len() > 0 && is_space(s.last()) {
        trim_back(s.drop_last())
    } else {
        s
    }
}

/// `s` without space bytes at either end.
pub open spec fn trimmed(s: Seq<u8>) -> Seq<u8> {
    trim_back(trim_front(s))
}

/// The ASCII upper-case form of one byte.
pub open spec fn ascii_upper(b: u8) -> u8 {
    if 97 <= b <= 122 {
        (b - 32) as u8
    } else {
        b
    }
}

/// The ASCII upper-case form of a byte string.
pub open spec fn upper_seq(s: Seq<u8>) -> Seq<u8> {
    Seq::new(s.len(), |i: int| ascii_upper(s[i]))
}

/// What a vector-extension override value asks for: off, on, or
/// nothing recognizable. The value is trimmed and read without regard
/// to ASCII case.
pub open spec fn rvv_spec(s: Seq<u8>) -> Option<bool> {
    let n = upper_seq(trimmed(s));
    if n == "OFF".spec_bytes() || n == "NO".spec_bytes() || n == "FALSE".spec_bytes() || n
        == "0".spec_bytes() {
        Some(false)
    } else if n == "ON".spec_bytes() || n == "YES".spec_bytes() || n == "TRUE".spec_bytes() || n
        == "1".spec_bytes() {
        Some(true)
    } else {
        None
    }
}

/// Read a vector-extension override value.
pub fn rvv_setting(s: &[u8]) -> (r: Option<bool>)
    ensures
        r == rvv_spec(s@),
{
    let mut start: usize = 0;
    let n = s.len();
    proof {
        assert(s@.skip(0) =~= s@);
    }
    while start < n && (s[start] == 32 || s[start] == 9 || s[start] == 10 || s[start] == 11
        || s[start] == 12 || s[start] == 13)
        invariant
            start <= n == s@.len(),
            trim_front(s@) == trim_front(s@.skip(start as int)),
        decreases n - start,
    {
        proof {
            let rest = s@.skip(start as int);
            assert(rest[0] == s@[start as int]);
            assert(rest.drop_first() =~= s@.skip(start + 1));
        }
        start += 1;
    }
    proof {
        let rest = s@.skip(start as int);
        if start < n {
            assert(rest[0] == s@[start as int]);
            assert(!is_space(rest[0]));
        }
        assert(trim_front(rest) == rest);
    }
    let mut end: usize = n;
    proof {
        assert(s@.skip(start as int).take(n - start) =~= s@.skip(start as int));
    }
    while end > start && (s[end - 1] == 32 || s[end - 1] == 9 || s[end - 1] == 10 || s[end - 1]
        == 11 || s[end - 1] == 12 || s[end - 1] == 13)
        invariant
            start <= end <= n == s@.len(),
            trim_front(s@) == trim_front(s@.skip(start as int)),
            trim_front(s@) == s@.skip(start as int),
            trim_back(s@.skip(start as int)) == trim_back(
                s@.skip(start as int).take(end - start),
            ),
        decreases end,
    {
        proof {
            let piece = s@.skip(start as int).take(end - start);
            assert(piece.last() == s@[end - 1]);
            assert(piece.drop_last() =~= s@.skip(start as int).take(end - 1 - start));
        }
        end -= 1;
    }
    proof {
        let piece = s@.skip(start as int).take(end - start);
        if end > start {
            assert(piece.last() == s@[end - 1]);
            assert(!is_space(piece.last()));
        }
        assert(trim_back(piece) == piece);
        assert(trimmed(s@) == s@.skip(start as int).take(end - start));
    }
    let mut up: Vec<u8> = Vec::new();
    for i in start..end
        invariant
            start <= i <= end <= s@.len(),
            up@.len() == i - start,
            forall|k: int| 0 <= k < up@.len() ==> up@[k] == ascii_upper(s@[start + k]),
    {
        let b = s[i];
        if 97 <= b && b <= 122 {
            up.push(b - 32);
        } else {
            up.push(b);
        }
    }
    proof {
        assert(up@ =~= upper_seq(trimmed(s@)));
    }
    if bytes_eq(up.as_slice(), "OFF".as_bytes()) || bytes_eq(up.as_slice(), "NO".as_bytes())
        || bytes_eq(up.as_slice(), "FALSE".as_bytes()) || bytes_eq(up.as_slice(), "0".as_bytes()) {
        Some(false)
    } else if bytes_eq(up.as_slice(), "ON".as_bytes()) || bytes_eq(up.as_slice(), "YES".as_bytes())
        || bytes_eq(up.as_slice(), "TRUE".as_bytes()) || bytes_eq(up.as_slice(), "1".as_bytes()) {
        Some(true)
    } else {
        None
    }
}

/// Views of a list of name-value pairs.
pub open spec fn pair_views(ds: Seq<(Vec<u8>, Vec<u8>)>) -> Seq<(Seq<u8>, Seq<u8>)> {
    Seq::new(ds.len(), |i: int| (ds[i].0@, ds[i].1@))
}

/// The cache entries handed to cmake for a target, in order: a static
/// library without tests but with the file operations, compatibility
/// naming as asked, hardware compression on the mainframe, the
/// vector-extension override where one was read, the 32-bit generator
/// platform for the one target that needs it, and a fixed library
/// directory.
pub open spec fn cmake_defines_spec(t: Seq<u8>, compat: bool, rvv: Option<Seq<u8>>) -> Seq<
    (Seq<u8>, Seq<u8>),
> {
    seq![
        ("BUILD_SHARED_LIBS".spec_bytes(), "OFF".spec_bytes()),
        (
            "ZLIB_COMPAT".spec_bytes(),
            if compat {
                "ON".spec_bytes()
            } else {
                "OFF".spec_bytes()
            },
        ),
        ("ZLIB_ENABLE_TESTS".spec_bytes(), "OFF".spec_bytes()),
        ("WITH_GZFILEOP".spec_bytes(), "ON".spec_bytes()),
    ] + (if target_has(t, "s390x".spec_bytes()) {
        seq![
            ("WITH_DFLTCC_DEFLATE".spec_bytes(), "1".spec_bytes()),
            ("WITH_DFLTCC_INFLATE".spec_bytes(), "1".spec_bytes()),
        ]
    } else {
        Seq::<(Seq<u8>, Seq<u8>)>::empty()
    }) + (if target_has(t, "riscv".spec_bytes()) {
        match rvv {
            Some(v) => match rvv_spec(v) {
                Some(true) => seq![("WITH_RVV".spec_bytes(), "ON".spec_bytes())],
                Some(false) => seq![("WITH_RVV".spec_bytes(), "OFF".spec_bytes())],
                None => Seq::<(Seq<u8>, Seq<u8>)>::empty(),
            },
            None => Seq::<(Seq<u8>, Seq<u8>)>::empty(),
        }
    } else {
        Seq::<(Seq<u8>, Seq<u8>)>::empty()
    }) + (if t == "i686-pc-windows-msvc".spec_bytes() {
        seq![("CMAKE_GENERATOR_PLATFORM".spec_bytes(), "Win32".spec_bytes())]
    } else {
        Seq::<(Seq<u8>, Seq<u8>)>::empty()
    }) + seq![("CMAKE_INSTALL_LIBDIR".spec_bytes(), "lib".spec_bytes())]
}

/// The extra C flag of the cmake path: the hardware-compression level
/// mask on the mainframe.
pub open spec fn cmake_cflags_spec(t: Seq<u8>) -> Seq<Seq<u8>> {
    if target_has(t, "s390x".spec_bytes()) {
        seq!["-DDFLTCC_LEVEL_MASK=0x7e".spec_bytes()]
    } else {
        Seq::<Seq<u8>>::empty()
    }
}

/// What the cmake path hands to cmake.
pub struct CmakePlan {
    /// Cache entries, in order.
    pub defines: Vec<(Vec<u8>, Vec<u8>)>,
    /// Extra C flags.
    pub cflags: Vec<Vec<u8>>,
}

/// Work out the cmake configuration for a target; `rvv` is the
/// vector-extension override value where the environment set one.
pub fn cmake_config(target: &[u8], compat: bool, rvv: Option<&Vec<u8>>) -> (r: CmakePlan)
    ensures
        pair_views(r.defines@) == cmake_defines_spec(target@, compat, match rvv {
            Some(v) => Some(v@),
            None => None,
        }),
        views_of(r.cflags@) == cmake_cflags_spec(target@),
{
    let ghost rvv_view: Option<Seq<u8>> = match rvv {
        Some(v) => Some(v@),
        None => None,
    };
    let mut defines: Vec<(Vec<u8>, Vec<u8>)> = Vec::new();
    defines.push((bv("BUILD_SHARED_LIBS"), bv("OFF")));
    if compat {
        defines.push((bv("ZLIB_COMPAT"), bv("ON")));
    } else {
        defines.push((bv("ZLIB_COMPAT"), bv("OFF")));
    }
    defines.push((bv("ZLIB_ENABLE_TESTS"), bv("OFF")));
    defines.push((bv("WITH_GZFILEOP"), bv("ON")));
    let ghost g1 = seq![
        ("BUILD_SHARED_LIBS".spec_bytes(), "OFF".spec_bytes()),
        (
            "ZLIB_COMPAT".spec_bytes(),
            if compat {
                "ON".spec_bytes()
            } else {
                "OFF".spec_bytes()
            },
        ),
        ("ZLIB_ENABLE_TESTS".spec_bytes(), "OFF".spec_bytes()),
        ("WITH_GZFILEOP".spec_bytes(), "ON".spec_bytes()),
    ];
    assert(pair_views(defines@) =~= g1);
    let s390x = contains_sub(target, "s390x".as_bytes());
    if s390x {
        defines.push((bv("WITH_DFLTCC_DEFLATE"), bv("1")));
        defines.push((bv("WITH_DFLTCC_INFLATE"), bv("1")));
    }
    let ghost g2: Seq<(Seq<u8>, Seq<u8>)> = if target_has(target@, "s390x".spec_bytes()) {
        seq![
            ("WITH_DFLTCC_DEFLATE".spec_bytes(), "1".spec_bytes()),
            ("WITH_DFLTCC_INFLATE".spec_bytes(), "1".spec_bytes()),
        ]
    } else {
        Seq::empty()
    };
    assert(pair_views(defines@) =~= g1 + g2);
    if contains_sub(target, "riscv".as_bytes()) {
        match rvv {
            Some(v) => {
                match rvv_setting(v.as_slice()) {
                    Some(true) => {
                        defines.push((bv("WITH_RVV"), bv("ON")));
                    },
                    Some(false) => {
                        defines.push((bv("WITH_RVV"), bv("OFF")));
                    },
                    None => {},
                }
            },
            None => {},
        }
    }
    let ghost g3: Seq<(Seq<u8>, Seq<u8>)> = if target_has(target@, "riscv".spec_bytes()) {
        match rvv_view {
            Some(v) => match rvv_spec(v) {
                Some(true) => seq![("WITH_RVV".spec_bytes(), "ON".spec_bytes())],
                Some(false) => seq![("WITH_RVV".spec_bytes(), "OFF".spec_bytes())],
                None => Seq::empty(),
            },
            None => Seq::empty(),
        }
    } else {
        Seq::empty()
    };
    assert(pair_views(defines@) =~= g1 + g2 + g3);
    if bytes_eq(target, "i686-pc-windows-msvc".as_bytes()) {
        defines.push((bv("CMAKE_GENERATOR_PLATFORM"), bv("Win32")));
    }
    let ghost g4: Seq<(Seq<u8>, Seq<u8>)> = if target@ == "i686-pc-windows-msvc".spec_bytes() {
        seq![("CMAKE_GENERATOR_PLATFORM".spec_bytes(), "Win32".spec_bytes())]
    } else {
        Seq::empty()
    };
    assert(pair_views(defines@) =~= g1 + g2 + g3 + g4);
    defines.push((bv("CMAKE_INSTALL_LIBDIR"), bv("lib")));
    assert(pair_views(defines@) =~= cmake_defines_spec(target@, compat, rvv_view));

    let mut cflags: Vec<Vec<u8>> = Vec::new();
    if s390x {
        cflags.push(bv("-DDFLTCC_LEVEL_MASK=0x7e"));
    }
    assert(views_of(cflags@) =~= cmake_cflags_spec(target@));
    CmakePlan { defines, cflags }
}

/// The name under which the built library is linked: the static cmake
/// name on a Microsoft Windows target and the plain name elsewhere,
/// the fork suffix without compatibility naming, and a debug mark on
/// an unoptimized Microsoft build.
pub open spec fn link_name_spec(t: Seq<u8>, compat: bool, opt_zero: bool) -> Seq<u8> {
    let win_msvc = target_has(t, "windows".spec_bytes()) && target_has(t, "msvc".spec_bytes());
    (if win_msvc {
        "zlibstatic".spec_bytes()
    } else {
        "z".spec_bytes()
    }) + (if compat {
        Seq::<u8>::empty()
    } else {
        "-ng".spec_bytes()
    }) + (if win_msvc && opt_zero {
        "d".spec_bytes()
    } else {
        Seq::<u8>::empty()
    })
}

/// Work out the link name of the built library; `opt_zero` says
/// whether the build runs without optimization.
pub fn link_name(target: &[u8], compat: bool, opt_zero: bool) -> (r: Vec<u8>)
    ensures
        r@ == link_name_spec(target@, compat, opt_zero),
{
    let win_msvc = contains_sub(target, "windows".as_bytes()) && contains_sub(
        target,
        "msvc".as_bytes(),
    );
    let mut r: Vec<u8> = if win_msvc {
        bv("zlibstatic")
    } else {
        bv("z")
    };
    if !compat {
        let mut sfx = bv("-ng");
        r.append(&mut sfx);
    }
    if win_msvc && opt_zero {
        let mut d = bv("d");
        r.append(&mut d);
    }
    proof {
        assert(r@ =~= link_name_spec(target@, compat, opt_zero));
    }
    r
}

} // verus!
