//! Behavior of the deterministic archive builder: reproducible streams,
//! hardlink resolution, socket skipping, and PAX attribute round trips.

use rpmoci::archive::{build_archive, ArchiveError, EntryKind, FsEntry};
use rpmoci::digest::sha256_hex;
use rpmoci::pax::{pax_data, push_pax_record, Xattr};

fn file_entry(path: &str, content: &[u8], dev: u64, ino: u64, nlink: u64, mtime: u64) -> FsEntry {
    FsEntry {
        path: path.to_string(),
        kind: EntryKind::File { content: content.to_vec() },
        dev,
        ino,
        nlink,
        mtime,
        mode: 0o644,
        uid: 0,
        gid: 0,
        xattrs: Vec::new(),
    }
}

fn dir_entry(path: &str, mtime: u64) -> FsEntry {
    FsEntry {
        path: path.to_string(),
        kind: EntryKind::Dir,
        dev: 1,
        ino: 1,
        nlink: 1,
        mtime,
        mode: 0o755,
        uid: 0,
        gid: 0,
        xattrs: Vec::new(),
    }
}

fn scenario_entries() -> Vec<FsEntry> {
    let mut file1 = file_entry("a/file1", b"content", 7, 42, 2, 1800000000);
    file1.xattrs = vec![Xattr { key: b"user.foo".to_vec(), value: b"bar".to_vec() }];
    let file2 = file_entry("a/file2", b"", 7, 42, 2, 1800000000);
    vec![dir_entry("a", 1800000000), file1, file2]
}

#[test]
fn scenario_hardlink_xattr_clamp() {
    let bytes = build_archive(&scenario_entries(), 1700000000).unwrap();

    let mut ar = tar::Archive::new(&bytes[..]);
    let mut entries = ar.entries().unwrap();

    let dir = entries.next().unwrap().unwrap();
    assert_eq!(dir.path().unwrap().to_str().unwrap(), "a");
    assert!(dir.header().entry_type().is_dir());
    assert_eq!(dir.header().mtime().unwrap(), 1700000000);

    let mut file1 = entries.next().unwrap().unwrap();
    assert_eq!(file1.path().unwrap().to_str().unwrap(), "a/file1");
    assert!(file1.header().entry_type().is_file());
    assert_eq!(file1.header().mtime().unwrap(), 1700000000);
    let pax = file1.pax_extensions().unwrap().unwrap();
    let mut found = false;
    for ext in pax {
        let ext = ext.unwrap();
        if ext.key().unwrap() == "SCHILY.xattr.user.foo" {
            assert_eq!(ext.value_bytes(), b"bar");
            found = true;
        }
    }
    assert!(found);

    let file2 = entries.next().unwrap().unwrap();
    assert_eq!(file2.path().unwrap().to_str().unwrap(), "a/file2");
    assert!(matches!(
        file2.header().entry_type(),
        tar::EntryType::Link
    ));
    assert_eq!(
        file2.link_name().unwrap().unwrap().to_str().unwrap(),
        "a/file1"
    );
}

#[test]
fn scenario_reproducible_digest() {
    let first = build_archive(&scenario_entries(), 1700000000).unwrap();
    let second = build_archive(&scenario_entries(), 1700000000).unwrap();
    assert_eq!(first, second);
    assert_eq!(sha256_hex(&first), sha256_hex(&second));
    // One header block for the directory, one PAX block pair and one
    // content block pair for the first file, a bare link block for the
    // second, and the two terminating zero blocks: the shared content is
    // stored once.
    assert_eq!(first.len(), 512 + 1024 + 1024 + 512 + 1024);
}

#[test]
fn mtime_below_clamp_kept() {
    let entries = vec![file_entry("old.txt", b"x", 1, 5, 1, 1600000000)];
    let bytes = build_archive(&entries, 1700000000).unwrap();
    let mut ar = tar::Archive::new(&bytes[..]);
    let entry = ar.entries().unwrap().next().unwrap().unwrap();
    assert_eq!(entry.header().mtime().unwrap(), 1600000000);
}

#[test]
fn socket_skipped() {
    let sock = FsEntry {
        path: "a/sock".to_string(),
        kind: EntryKind::Socket,
        dev: 1,
        ino: 9,
        nlink: 1,
        mtime: 0,
        mode: 0o644,
        uid: 0,
        gid: 0,
        xattrs: Vec::new(),
    };
    let entries = vec![dir_entry("a", 0), sock, file_entry("a/keep", b"k", 1, 10, 1, 0)];
    let bytes = build_archive(&entries, 1700000000).unwrap();
    let mut ar = tar::Archive::new(&bytes[..]);
    let names: Vec<String> = ar
        .entries()
        .unwrap()
        .map(|e| e.unwrap().path().unwrap().to_str().unwrap().to_string())
        .collect();
    assert_eq!(names, vec!["a".to_string(), "a/keep".to_string()]);
}

#[test]
fn symlink_target_recorded() {
    let link = FsEntry {
        path: "bin/sh".to_string(),
        kind: EntryKind::Symlink { target: "/usr/bin/bash".to_string() },
        dev: 1,
        ino: 11,
        nlink: 1,
        mtime: 1800000000,
        mode: 0o777,
        uid: 0,
        gid: 0,
        xattrs: Vec::new(),
    };
    let entries = vec![dir_entry("bin", 0), link];
    let bytes = build_archive(&entries, 1700000000).unwrap();
    let mut ar = tar::Archive::new(&bytes[..]);
    let mut it = ar.entries().unwrap();
    it.next().unwrap().unwrap();
    let entry = it.next().unwrap().unwrap();
    assert!(matches!(
        entry.header().entry_type(),
        tar::EntryType::Symlink
    ));
    assert_eq!(
        entry.link_name().unwrap().unwrap().to_str().unwrap(),
        "/usr/bin/bash"
    );
    assert_eq!(entry.header().mtime().unwrap(), 1700000000);
}

#[test]
fn invalid_path_rejected() {
    let entries = vec![file_entry("../escape", b"x", 1, 12, 1, 0)];
    let err = build_archive(&entries, 0).unwrap_err();
    let ArchiveError::InvalidPath { path } = err;
    assert_eq!(path, "../escape");
}

#[test]
fn pax_record_exact_bytes() {
    let mut out = Vec::new();
    push_pax_record(&mut out, &b"user.foo".to_vec(), &b"bar".to_vec());
    assert_eq!(out, b"29 SCHILY.xattr.user.foo=bar\n".to_vec());
}

#[test]
fn pax_record_length_fixed_point() {
    // A record whose length without the field sits at a digit boundary:
    // data_len 97 gives total 99 with two digits, data_len 98 forces three.
    let mut out = Vec::new();
    let key = b"user.k".to_vec();
    let value = vec![b'v'; 97 - 13 - 6 - 1 - 2];
    push_pax_record(&mut out, &key, &value);
    assert_eq!(out.len(), 99);
    assert!(out.starts_with(b"99 "));

    let mut out = Vec::new();
    let value = vec![b'v'; 98 - 13 - 6 - 1 - 2];
    push_pax_record(&mut out, &key, &value);
    assert_eq!(out.len(), 101);
    assert!(out.starts_with(b"101 "));
}

#[test]
fn xattr_round_trip() {
    let mut entry = file_entry("f", b"data", 1, 20, 1, 0);
    entry.xattrs = vec![
        Xattr { key: b"user.a".to_vec(), value: b"1".to_vec() },
        Xattr { key: b"user.b".to_vec(), value: b"two".to_vec() },
        Xattr { key: b"security.capability".to_vec(), value: vec![1, 0, 2, 255] },
    ];
    let entries = vec![entry];
    let bytes = build_archive(&entries, 1700000000).unwrap();
    let mut ar = tar::Archive::new(&bytes[..]);
    let mut entry = ar.entries().unwrap().next().unwrap().unwrap();
    let pax = entry.pax_extensions().unwrap().unwrap();
    let mut listed: Vec<(Vec<u8>, Vec<u8>)> = Vec::new();
    for ext in pax {
        let ext = ext.unwrap();
        listed.push((ext.key_bytes().to_vec(), ext.value_bytes().to_vec()));
    }
    assert_eq!(
        listed,
        vec![
            (b"SCHILY.xattr.user.a".to_vec(), b"1".to_vec()),
            (b"SCHILY.xattr.user.b".to_vec(), b"two".to_vec()),
            (
                b"SCHILY.xattr.security.capability".to_vec(),
                vec![1, 0, 2, 255]
            ),
        ]
    );
}

#[test]
fn pax_data_empty_for_no_attributes() {
    let out = pax_data(&Vec::new());
    assert!(out.is_empty());
}
