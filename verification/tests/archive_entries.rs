use flate2::write::GzEncoder;
use flate2::Compression;
use juliaup::archive::{archive_entry_target, plan_entries, unpack_sans_parent};
use juliaup::error::EngineError;
use juliaup::paths::{
    append_bytes, bytes_equal, components, paths_match, push_component, search_path_holds,
    split_bytes,
};
use std::io::Write;

fn b(text: &str) -> Vec<u8> {
    text.as_bytes().to_vec()
}

fn header_for(path: &str, size: u64, directory: bool) -> tar::Header {
    let mut header = tar::Header::new_gnu();
    header.as_mut_bytes()[..path.len()].copy_from_slice(path.as_bytes());
    header.set_size(size);
    header.set_mode(0o644);
    if directory {
        header.set_entry_type(tar::EntryType::Directory);
    } else {
        header.set_entry_type(tar::EntryType::Regular);
    }
    header.set_cksum();
    header
}

fn tar_of(entries: &[(&str, &[u8])]) -> Vec<u8> {
    let mut builder = tar::Builder::new(Vec::new());
    for (path, data) in entries {
        let header = header_for(path, data.len() as u64, path.ends_with('/'));
        builder.append(&header, *data).unwrap();
    }
    builder.into_inner().unwrap()
}

fn gzip(bytes: &[u8]) -> Vec<u8> {
    let mut encoder = GzEncoder::new(Vec::new(), Compression::default());
    encoder.write_all(bytes).unwrap();
    encoder.finish().unwrap()
}

#[test]
fn split_keeps_empty_pieces() {
    assert_eq!(split_bytes(&b("a/b"), 47), vec![b("a"), b("b")]);
    assert_eq!(split_bytes(&b(""), 47), vec![b("")]);
    assert_eq!(split_bytes(&b("/"), 47), vec![b(""), b("")]);
    assert_eq!(split_bytes(&b("/a//b/"), 47), vec![b(""), b("a"), b(""), b("b"), b("")]);
    assert_eq!(split_bytes(&b("/usr/bin:/bin"), 58), vec![b("/usr/bin"), b("/bin")]);
}

#[test]
fn components_drop_empty_pieces() {
    assert_eq!(components(&b("/a//b/")), vec![b("a"), b("b")]);
    assert_eq!(components(&b("")), Vec::<Vec<u8>>::new());
    assert_eq!(components(&b("x")), vec![b("x")]);
}

#[test]
fn byte_helpers() {
    let mut out = b("ab");
    append_bytes(&mut out, &b("cd"));
    assert_eq!(out, b("abcd"));
    append_bytes(&mut out, &b(""));
    assert_eq!(out, b("abcd"));
    assert!(bytes_equal(&b("abc"), &b("abc")));
    assert!(!bytes_equal(&b("abc"), &b("abd")));
    assert!(!bytes_equal(&b("abc"), &b("ab")));
    assert!(bytes_equal(&b(""), &b("")));
}

#[test]
fn push_component_follows_path_rules() {
    assert_eq!(push_component(&b("/home/me"), &b("bin")), b("/home/me/bin"));
    assert_eq!(push_component(&b("/home/me/"), &b("bin")), b("/home/me/bin"));
    assert_eq!(push_component(&b(""), &b("bin")), b("bin"));
    assert_eq!(push_component(&b("/home/me"), &b("/opt")), b("/opt"));
    assert_eq!(push_component(&b("/home/me"), &b("")), b("/home/me/"));
}

#[test]
fn same_paths_ignore_extra_separators() {
    assert!(paths_match(&b("/usr/bin"), &b("/usr/bin/")));
    assert!(paths_match(&b("/usr//bin"), &b("/usr/bin")));
    assert!(!paths_match(&b("usr/bin"), &b("/usr/bin")));
    assert!(!paths_match(&b("/usr/bin"), &b("/usr/sbin")));
    assert!(!paths_match(&b("/usr/bin"), &b("/usr")));
    assert!(paths_match(&b(""), &b("")));
}

#[test]
fn search_path_lookup() {
    assert!(search_path_holds(&b("/usr/bin:/home/me/bin/:/bin"), &b("/home/me/bin")));
    assert!(search_path_holds(&b("/home/me/bin"), &b("/home/me/bin")));
    assert!(!search_path_holds(&b("/usr/bin:/bin"), &b("/home/me/bin")));
    assert!(!search_path_holds(&b(""), &b("/home/me/bin")));
    assert!(!search_path_holds(&b("/home/me/bin/julia:/home/me"), &b("/home/me/bin")));
}

#[test]
fn entry_target_strips_top_directory() {
    assert_eq!(archive_entry_target(&b("julia-1.9.3/bin/julia")), Ok(b("bin/julia")));
    assert_eq!(archive_entry_target(&b("julia-1.9.3/LICENSE.md")), Ok(b("LICENSE.md")));
    assert_eq!(archive_entry_target(&b("julia-1.9.3/")), Ok(b("")));
    assert_eq!(archive_entry_target(&b("julia-1.9.3")), Ok(b("")));
    assert_eq!(archive_entry_target(&b("")), Ok(b("")));
    assert_eq!(archive_entry_target(&b("top//share/julia/")), Ok(b("share/julia")));
    assert_eq!(archive_entry_target(&b("top/...")), Ok(b("...")));
    assert_eq!(archive_entry_target(&b("top/.hidden/..x")), Ok(b(".hidden/..x")));
}

#[test]
fn entry_target_refuses_unsafe_paths() {
    let unsafe_paths = [
        "julia-1.9.3/../../etc/passwd",
        "..",
        "../x",
        "julia-1.9.3/bin/..",
        "/etc/passwd",
        "/",
        "./julia-1.9.3/bin/julia",
        "julia-1.9.3/./bin",
        ".",
    ];
    for path in unsafe_paths {
        assert_eq!(archive_entry_target(&b(path)), Err(EngineError::UnsafeArchiveEntry), "{}", path);
    }
}

#[test]
fn plan_covers_every_entry_in_order() {
    let paths = vec![b("julia-1.9.3/"), b("julia-1.9.3/bin/"), b("julia-1.9.3/bin/julia")];
    assert_eq!(plan_entries(&paths), Ok(vec![b(""), b("bin"), b("bin/julia")]));
    assert_eq!(plan_entries(&Vec::new()), Ok(Vec::new()));
}

#[test]
fn plan_refuses_archive_with_one_unsafe_entry() {
    let paths = vec![b("julia-1.9.3/"), b("julia-1.9.3/../evil"), b("julia-1.9.3/bin/julia")];
    assert_eq!(plan_entries(&paths), Err(EngineError::UnsafeArchiveEntry));
}

#[test]
fn archive_is_decompressed_and_listed() {
    let tar = tar_of(&[
        ("julia-1.9.3/", b""),
        ("julia-1.9.3/bin/", b""),
        ("julia-1.9.3/bin/julia", b"#!/bin/sh\n"),
        ("julia-1.9.3/LICENSE.md", b"MIT"),
    ]);
    let targets = unpack_sans_parent(&gzip(&tar));
    assert_eq!(targets, Ok(vec![b(""), b("bin"), b("bin/julia"), b("LICENSE.md")]));
}

#[test]
fn archive_with_traversal_is_refused() {
    let tar = tar_of(&[
        ("julia-1.9.3/bin/julia", b"#!/bin/sh\n"),
        ("julia-1.9.3/../../home/me/.profile", b"evil"),
    ]);
    assert_eq!(unpack_sans_parent(&gzip(&tar)), Err(EngineError::UnsafeArchiveEntry));
    let absolute = tar_of(&[("/etc/cron.d/job", b"evil")]);
    assert_eq!(unpack_sans_parent(&gzip(&absolute)), Err(EngineError::UnsafeArchiveEntry));
}

#[test]
fn unreadable_archive_is_a_file_system_error() {
    assert_eq!(unpack_sans_parent(&b("this is no archive")), Err(EngineError::FileSystemError));
    let tar = tar_of(&[("julia-1.9.3/bin/julia", b"#!/bin/sh\n")]);
    assert_eq!(unpack_sans_parent(&tar), Err(EngineError::FileSystemError));
    let garbage = gzip(&[7u8; 1000]);
    assert_eq!(unpack_sans_parent(&garbage), Err(EngineError::FileSystemError));
}

#[test]
fn empty_archive_has_no_entries() {
    let tar = tar_of(&[]);
    assert_eq!(unpack_sans_parent(&gzip(&tar)), Ok(Vec::new()));
}
