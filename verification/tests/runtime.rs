use gai::runtime::{detect_resolver_runtime, find_subslice, ResolverRuntime};

#[test]
fn static_go_binary_uses_the_go_resolver() {
    assert_eq!(detect_resolver_runtime(b"\x7fELF...Go build ID: deadbeef..."), ResolverRuntime::GoPureResolver);
    assert_eq!(detect_resolver_runtime(b"stuff golang.org/x/net stuff"), ResolverRuntime::GoPureResolver);
}

#[test]
fn dynamic_binaries_go_through_glibc() {
    assert_eq!(detect_resolver_runtime(b"\x7fELF..../lib64/ld-linux-x86-64.so.2"), ResolverRuntime::GlibcNss);
    assert_eq!(detect_resolver_runtime(b"\x7fELF /lib/ld-linux.so.2 Go build ID: x"), ResolverRuntime::GlibcNss);
}

#[test]
fn loader_paths_without_elf_magic_are_not_dynamic() {
    assert_eq!(detect_resolver_runtime(b"/lib64/ld-linux"), ResolverRuntime::Unknown);
    assert_eq!(
        detect_resolver_runtime(b"#!/bin/sh\nexec /lib/ld-linux.so.2 ./app\n"),
        ResolverRuntime::Unknown
    );
    assert_eq!(detect_resolver_runtime(b"/lib/ld-linux.so.2 Go build ID: x"), ResolverRuntime::GoPureResolver);
    assert_eq!(detect_resolver_runtime(b""), ResolverRuntime::Unknown);
}

#[test]
fn find_subslice_gives_the_first_offset() {
    assert_eq!(find_subslice(b"abcabc", b"bc"), Some(1));
    assert_eq!(find_subslice(b"abc", b"abcd"), None);
    assert_eq!(find_subslice(b"abc", b"abc"), Some(0));
    assert_eq!(find_subslice(b"", b"a"), None);
}
