//! Which resolver a target binary uses at all: a statically linked Go
//! binary ships its own pure-Go resolver and never consults nsswitch.conf,
//! so simulating the OS chain for it would simulate the wrong thing.

pub use crate::types::ResolverRuntime;
use vstd::prelude::*;
use vstd::string::StringSliceAdditionalSpecFns;

verus! {

/// `needle` occurs in `haystack` at offset `i`.
pub open spec fn occurs_at(haystack: Seq<u8>, needle: Seq<u8>, i: int) -> bool {
    &&& 0 <= i
    &&& i + needle.len() <= haystack.len()
    &&& haystack.subrange(i, i + needle.len()) == needle
}

/// `needle` occurs somewhere in `haystack`.
pub open spec fn contains_bytes(haystack: Seq<u8>, needle: Seq<u8>) -> bool {
    exists|i: int| occurs_at(haystack, needle, i)
}

/// The ELF magic number.
pub open spec fn elf_magic() -> Seq<u8> {
    "\x7fELF".spec_bytes()
}

/// The 64-bit dynamic loader's path.
pub open spec fn loader64_path() -> Seq<u8> {
    "/lib64/ld-linux".spec_bytes()
}

/// The 32-bit (or merged-/lib) dynamic loader's path.
pub open spec fn loader_path() -> Seq<u8> {
    "/lib/ld-linux".spec_bytes()
}

/// The marker the Go linker writes into every binary.
pub open spec fn go_build_marker() -> Seq<u8> {
    "Go build ID:".spec_bytes()
}

/// A module path that Go binaries carry in their symbol names.
pub open spec fn golang_marker() -> Seq<u8> {
    "golang.org/x".spec_bytes()
}

/// The binary is an ELF file that names a dynamic loader: the ELF magic
/// number together with the 64-bit or the `/lib` loader path. Without the
/// ELF magic nothing counts as a dynamic interpreter.
pub open spec fn looks_dynamic(bytes: Seq<u8>) -> bool {
    contains_bytes(bytes, elf_magic()) && (contains_bytes(bytes, loader64_path()) || contains_bytes(
        bytes,
        loader_path(),
    ))
}

/// The binary carries a Go build marker.
pub open spec fn looks_like_go(bytes: Seq<u8>) -> bool {
    contains_bytes(bytes, go_build_marker()) || contains_bytes(bytes, golang_marker())
}

/// The runtime a binary with these bytes is judged to use: a Go binary
/// with no dynamic loader resolves on its own; a binary with a dynamic
/// loader goes through glibc's NSS; anything else is unknown.
pub open spec fn spec_detect_runtime(bytes: Seq<u8>) -> ResolverRuntime {
    if looks_like_go(bytes) && !looks_dynamic(bytes) {
        ResolverRuntime::GoPureResolver
    } else if looks_dynamic(bytes) {
        ResolverRuntime::GlibcNss
    } else {
        ResolverRuntime::Unknown
    }
}

/// How a binary is judged, in terms of the markers it carries: an ELF
/// file that names either dynamic loader goes through glibc's NSS, Go
/// markers or not (a cgo-enabled Go binary does use glibc's NSS); a binary
/// with a Go marker that is not such a file uses Go's own resolver; a
/// binary with neither is unknown.
pub proof fn runtime_follows_the_markers(bytes: Seq<u8>)
    ensures
        contains_bytes(bytes, "\x7fELF".spec_bytes()) && (contains_bytes(bytes, "/lib64/ld-linux".spec_bytes())
            || contains_bytes(bytes, "/lib/ld-linux".spec_bytes())) ==> spec_detect_runtime(bytes)
            == ResolverRuntime::GlibcNss,
        !(contains_bytes(bytes, "\x7fELF".spec_bytes()) && (contains_bytes(bytes, "/lib64/ld-linux".spec_bytes())
            || contains_bytes(bytes, "/lib/ld-linux".spec_bytes()))) ==> (spec_detect_runtime(bytes)
            == if contains_bytes(bytes, "Go build ID:".spec_bytes()) || contains_bytes(
            bytes,
            "golang.org/x".spec_bytes(),
        ) {
            ResolverRuntime::GoPureResolver
        } else {
            ResolverRuntime::Unknown
        }),
{
}

/// The first offset at which `needle` occurs in `haystack`.
pub fn find_subslice(haystack: &[u8], needle: &[u8]) -> (r: Option<usize>)
    requires
        needle@.len() > 0,
    ensures
        match r {
            Some(i) => occurs_at(haystack@, needle@, i as int) && forall|j: int|
                0 <= j < i ==> !occurs_at(haystack@, needle@, j),
            None => !contains_bytes(haystack@, needle@),
        },
{
    let n = needle.len();
    if n > haystack.len() {
        return None;
    }
    let last = haystack.len() - n;
    let mut i: usize = 0;
    while i <= last
        invariant
            n == needle@.len(),
            0 < n <= haystack@.len(),
            last == haystack@.len() - n,
            last + n == haystack.len(),
            forall|j: int| 0 <= j < i ==> !occurs_at(haystack@, needle@, j),
        decreases last + 1 - i,
    {
        let mut k: usize = 0;
        let mut same = true;
        while k < n
            invariant_except_break
                same,
            invariant
                n == needle@.len(),
                n <= haystack@.len(),
                i <= last,
                last == haystack@.len() - n,
                last + n == haystack.len(),
                k <= n,
                forall|m: int| 0 <= m < k ==> haystack@[i + m] == needle@[m],
            ensures
                same ==> k == n,
                forall|m: int| 0 <= m < k ==> haystack@[i + m] == needle@[m],
                !same ==> !occurs_at(haystack@, needle@, i as int),
            decreases n - k,
        {
            if haystack[i + k] != needle[k] {
                assert(haystack@.subrange(i as int, i + n)[k as int] != needle@[k as int]);
                same = false;
                break;
            }
            k = k + 1;
        }
        if same {
            assert(haystack@.subrange(i as int, i + n) =~= needle@);
            return Some(i);
        }
        i = i + 1;
    }
    proof {
        assert forall|j: int| !occurs_at(haystack@, needle@, j) by {
            if 0 <= j < i {
            }
        }
    }
    None
}

/// Judges, from the bytes of a binary, how it resolves names: a Go binary
/// that is not an ELF file naming a dynamic loader uses Go's own resolver,
/// an ELF file naming one goes through glibc's NSS, and anything else is
/// unknown. Distinguishing
/// glibc from musl would need the loader path read exactly; this judgement
/// does not try.
pub fn detect_resolver_runtime(bytes: &[u8]) -> (r: ResolverRuntime)
    ensures
        r == spec_detect_runtime(bytes@),
{
    proof {
        reveal_strlit("\x7fELF");
        reveal_strlit("/lib64/ld-linux");
        reveal_strlit("/lib/ld-linux");
        reveal_strlit("Go build ID:");
        reveal_strlit("golang.org/x");
    }
    let elf = find_subslice(bytes, "\x7fELF".as_bytes()).is_some();
    let loader64 = find_subslice(bytes, "/lib64/ld-linux".as_bytes()).is_some();
    let loader = find_subslice(bytes, "/lib/ld-linux".as_bytes()).is_some();
    let is_dynamic = elf && (loader64 || loader);
    let go_build = find_subslice(bytes, "Go build ID:".as_bytes()).is_some();
    let golang = find_subslice(bytes, "golang.org/x".as_bytes()).is_some();
    let looks_go = go_build || golang;
    if looks_go && !is_dynamic {
        ResolverRuntime::GoPureResolver
    } else if is_dynamic {
        ResolverRuntime::GlibcNss
    } else {
        ResolverRuntime::Unknown
    }
}

} // verus!
