use remotelink::elf_deps::{
    first_existing, get_library_dependencies, is_runtime_name, is_system_library, is_system_name,
    join_path, library_candidates, parse_elf_libraries, resolve_library_dependencies,
    search_paths, without_runtime, ElfDynamic,
};

fn u16le(out: &mut Vec<u8>, v: u16) {
    out.extend_from_slice(&v.to_le_bytes());
}

fn u32le(out: &mut Vec<u8>, v: u32) {
    out.extend_from_slice(&v.to_le_bytes());
}

fn u64le(out: &mut Vec<u8>, v: u64) {
    out.extend_from_slice(&v.to_le_bytes());
}

/// A 64-bit little-endian ELF image that holds nothing but a dynamic
/// section: the needed libraries, and a run path or an rpath.
fn elf_image(needed: &[&str], runpath: Option<&str>, rpath: Option<&str>) -> Vec<u8> {
    let mut strtab = vec![0u8];
    let mut entries: Vec<(u64, u64)> = Vec::new();
    for name in needed {
        entries.push((1, strtab.len() as u64));
        strtab.extend_from_slice(name.as_bytes());
        strtab.push(0);
    }
    if let Some(path) = rpath {
        entries.push((15, strtab.len() as u64));
        strtab.extend_from_slice(path.as_bytes());
        strtab.push(0);
    }
    if let Some(path) = runpath {
        entries.push((29, strtab.len() as u64));
        strtab.extend_from_slice(path.as_bytes());
        strtab.push(0);
    }
    while strtab.len() % 8 != 0 {
        strtab.push(0);
    }
    let strtab_offset: u64 = 64 + 2 * 56;
    let dynamic_offset: u64 = strtab_offset + strtab.len() as u64;
    entries.push((5, strtab_offset));
    entries.push((10, strtab.len() as u64));
    entries.push((0, 0));
    let dynamic_size: u64 = 16 * entries.len() as u64;
    let total: u64 = dynamic_offset + dynamic_size;

    let mut image = vec![0x7f, b'E', b'L', b'F', 2, 1, 1, 0, 0, 0, 0, 0, 0, 0, 0, 0];
    u16le(&mut image, 2); // e_type: executable
    u16le(&mut image, 0x3e); // e_machine: x86-64
    u32le(&mut image, 1); // e_version
    u64le(&mut image, 0); // e_entry
    u64le(&mut image, 64); // e_phoff
    u64le(&mut image, 0); // e_shoff
    u32le(&mut image, 0); // e_flags
    u16le(&mut image, 64); // e_ehsize
    u16le(&mut image, 56); // e_phentsize
    u16le(&mut image, 2); // e_phnum
    u16le(&mut image, 64); // e_shentsize
    u16le(&mut image, 0); // e_shnum
    u16le(&mut image, 0); // e_shstrndx
    // PT_LOAD: the whole file, at address 0.
    u32le(&mut image, 1);
    u32le(&mut image, 5);
    u64le(&mut image, 0);
    u64le(&mut image, 0);
    u64le(&mut image, 0);
    u64le(&mut image, total);
    u64le(&mut image, total);
    u64le(&mut image, 0x1000);
    // PT_DYNAMIC
    u32le(&mut image, 2);
    u32le(&mut image, 6);
    u64le(&mut image, dynamic_offset);
    u64le(&mut image, dynamic_offset);
    u64le(&mut image, dynamic_offset);
    u64le(&mut image, dynamic_size);
    u64le(&mut image, dynamic_size);
    u64le(&mut image, 8);
    image.extend_from_slice(&strtab);
    for (tag, value) in entries {
        u64le(&mut image, tag);
        u64le(&mut image, value);
    }
    assert_eq!(image.len() as u64, total);
    image
}

fn names(list: &[&str]) -> Vec<Vec<u8>> {
    list.iter().map(|s| s.as_bytes().to_vec()).collect()
}

#[test]
fn test_parse_elf_libraries() {
    let image = elf_image(
        &["libfoo.so.1", "libc.so.6", "libbar.so"],
        Some("/opt/app/lib::/usr/local/lib:"),
        Some("/ignored"),
    );
    let (libraries, paths) = parse_elf_libraries(&image);
    assert_eq!(libraries, names(&["libfoo.so.1", "libc.so.6", "libbar.so"]));
    assert_eq!(paths, names(&["/opt/app/lib", "/usr/local/lib"]));
}

#[test]
fn test_rpath_is_the_fallback() {
    let image = elf_image(&["libfoo.so"], None, Some("$ORIGIN/../lib:/opt/lib"));
    let (libraries, paths) = parse_elf_libraries(&image);
    assert_eq!(libraries, names(&["libfoo.so"]));
    assert_eq!(paths, names(&["$ORIGIN/../lib", "/opt/lib"]));
    let image = elf_image(&["libfoo.so"], None, None);
    let (libraries, paths) = parse_elf_libraries(&image);
    assert_eq!(libraries, names(&["libfoo.so"]));
    assert!(paths.is_empty());
}

#[test]
fn test_bytes_that_are_no_elf_image() {
    for image in [&b""[..], &b"not an elf image"[..], &[0x7f, b'E', b'L', b'F'][..]] {
        let (libraries, paths) = parse_elf_libraries(image);
        assert!(libraries.is_empty());
        assert!(paths.is_empty());
        assert!(resolve_library_dependencies(image).is_empty());
        assert!(get_library_dependencies(image).is_empty());
    }
}

#[test]
fn test_resolve_library_dependencies() {
    let image = elf_image(
        &["libfoo.so.1", "libc.so.6", "libdrm.so.2", "libbar.so"],
        Some("/opt/app/lib:/usr/local/lib/"),
        None,
    );
    let candidates = resolve_library_dependencies(&image);
    assert_eq!(candidates.len(), 2);
    assert_eq!(candidates[0].name, b"libfoo.so.1");
    assert_eq!(
        candidates[0].paths,
        names(&["/opt/app/lib/libfoo.so.1", "/usr/local/lib/libfoo.so.1"])
    );
    assert_eq!(candidates[1].name, b"libbar.so");
    assert_eq!(
        candidates[1].paths,
        names(&["/opt/app/lib/libbar.so", "/usr/local/lib/libbar.so"])
    );
}

#[test]
fn test_get_library_dependencies() {
    let image = elf_image(
        &["libfoo.so.1", "libm.so.6", "libdrm.so.2", "ld-linux-x86-64.so.2", "libgcc_s.so.1"],
        None,
        None,
    );
    // The Runner fetches what is not part of the C runtime.
    assert_eq!(get_library_dependencies(&image), names(&["libfoo.so.1", "libdrm.so.2"]));
    assert_eq!(
        without_runtime(&names(&["libstdc++.so.6", "libz.so", "libpthread.so.0"])),
        names(&["libz.so"])
    );
}

#[test]
fn test_search_paths() {
    let dynamic = ElfDynamic {
        libraries: Vec::new(),
        runpaths: names(&["/a:/b", "", ":", "/c::"]),
        rpaths: names(&["/r"]),
    };
    assert_eq!(search_paths(&dynamic), names(&["/a", "/b", "/c"]));
    // A run path that holds nothing still counts as a run path.
    let dynamic =
        ElfDynamic { libraries: Vec::new(), runpaths: names(&[""]), rpaths: names(&["/r"]) };
    assert!(search_paths(&dynamic).is_empty());
    let dynamic =
        ElfDynamic { libraries: Vec::new(), runpaths: Vec::new(), rpaths: names(&["/r:/s"]) };
    assert_eq!(search_paths(&dynamic), names(&["/r", "/s"]));
    let dynamic = ElfDynamic { libraries: Vec::new(), runpaths: Vec::new(), rpaths: Vec::new() };
    assert!(search_paths(&dynamic).is_empty());
}

#[test]
fn test_is_system_library() {
    for name in [
        "libc.so.6",
        "libc.so",
        "libm.so.6",
        "libpthread.so.0",
        "libdl.so.2",
        "librt.so.1",
        "libgcc_s.so.1",
        "libstdc++.so.6",
        "ld-linux-x86-64.so.2",
        "libdrm.so.2",
        "libevdev.so.2",
    ] {
        assert!(is_system_library(name), "{}", name);
        assert!(is_system_name(name.as_bytes()), "{}", name);
    }
    for name in ["libfoo.so", "libcrypto.so.3", "libcurl.so.4", "libmath.so", "", "libc", "xlibc.so"]
    {
        assert!(!is_system_library(name), "{}", name);
    }
    assert!(is_runtime_name(b"libc.so.6"));
    assert!(!is_runtime_name(b"libdrm.so.2"));
    assert!(!is_runtime_name(b"libevdev.so.2"));
}

#[test]
fn test_join_path() {
    assert_eq!(join_path(b"/opt/lib", b"libfoo.so"), b"/opt/lib/libfoo.so");
    assert_eq!(join_path(b"/opt/lib/", b"libfoo.so"), b"/opt/lib/libfoo.so");
    assert_eq!(join_path(b"/", b"libfoo.so"), b"/libfoo.so");
    assert_eq!(join_path(b"", b"libfoo.so"), b"libfoo.so");
    assert_eq!(join_path(b"/opt/lib", b"/abs/libfoo.so"), b"/abs/libfoo.so");
    assert_eq!(join_path(b"/opt/lib", b""), b"/opt/lib/");
    assert_eq!(join_path(b"rel", b"x/y"), b"rel/x/y");
}

#[test]
fn test_join_path_is_that_of_std() {
    for (dir, name) in [
        ("/opt/lib", "libfoo.so"),
        ("/opt/lib/", "libfoo.so"),
        ("/", "x"),
        ("", "x"),
        ("/opt/lib", "/abs/x"),
        ("rel", "x/y"),
    ] {
        let joined = std::path::Path::new(dir).join(name);
        assert_eq!(join_path(dir.as_bytes(), name.as_bytes()), joined.to_str().unwrap().as_bytes());
    }
}

#[test]
fn test_library_candidates() {
    let libraries = names(&["libc.so.6", "liba.so", "libevdev.so.2", "libb.so"]);
    let dirs = names(&["/x", "/y/"]);
    let candidates = library_candidates(&libraries, &dirs);
    assert_eq!(candidates.len(), 2);
    assert_eq!(candidates[0].name, b"liba.so");
    assert_eq!(candidates[0].paths, names(&["/x/liba.so", "/y/liba.so"]));
    assert_eq!(candidates[1].name, b"libb.so");
    // Without search paths there is nowhere to look.
    let candidates = library_candidates(&libraries, &Vec::new());
    assert_eq!(candidates.len(), 2);
    assert!(candidates[0].paths.is_empty());
}

#[test]
fn test_first_existing() {
    assert_eq!(first_existing(&[false, true, true]), Some(1));
    assert_eq!(first_existing(&[true]), Some(0));
    assert_eq!(first_existing(&[false, false]), None);
    assert_eq!(first_existing(&[]), None);
}
