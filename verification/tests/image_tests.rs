//! Behavior of the layer-splitting engine and the OCI store: layer counts,
//! reproducible digests, JSON emission, index tag replacement, and the
//! digest and compression primitives.

use rpmoci::archive::{EntryKind, FsEntry};
use rpmoci::compress::{compress, CompressionAlgorithm};
use rpmoci::digest::{sha256_hex, to_hex};
use rpmoci::imager::{default_max_layers, BuiltImage, ImagerBuilder, Package};
use rpmoci::store::{
    check_layout_version, empty_index, index_insert, index_json, manifest_json, oci_layout_json,
    plan_init, Descriptor, DirState, ImageIndex, InitAction, Manifest, MediaType, StoreError,
};
use std::io::Read;

#[test]
fn test_builder() {
    let cfg = ImagerBuilder::new().build();
    assert_eq!(cfg.max_layers, 125);
    assert_eq!(default_max_layers(), 125);
    assert_eq!(cfg.tag, "latest");
    assert_eq!(cfg.rpm_size_threshold, 5 * 1024 * 1024);
    assert!(matches!(cfg.compression_algorithm, CompressionAlgorithm::Gzip));
}

fn file_entry(path: &str, content: &[u8], ino: u64) -> FsEntry {
    FsEntry {
        path: path.to_string(),
        kind: EntryKind::File { content: content.to_vec() },
        dev: 1,
        ino,
        nlink: 1,
        mtime: 1800000000,
        mode: 0o644,
        uid: 0,
        gid: 0,
        xattrs: Vec::new(),
    }
}

fn two_packages() -> Vec<Package> {
    vec![
        Package {
            name: "alpha".to_string(),
            evr: "1.0-1".to_string(),
            arch: "x86_64".to_string(),
            files: vec!["/a/file1".to_string()],
            buildtime: 1600000000,
        },
        Package {
            name: "beta".to_string(),
            evr: "2.0-1".to_string(),
            arch: "noarch".to_string(),
            files: vec!["/b/file2".to_string()],
            buildtime: 1650000000,
        },
    ]
}

fn build(entries: &Vec<FsEntry>, pkgs: &Vec<Package>) -> BuiltImage {
    let mut b = ImagerBuilder::new();
    b.creation_time = Some(1700000000);
    b.tag = Some("bar".to_string());
    b.build().create_image(pkgs, entries).unwrap()
}

#[test]
fn layer_bound_with_catchall() {
    let entries = vec![
        file_entry("a/file1", b"alpha content", 10),
        file_entry("b/file2", b"beta content", 11),
        file_entry("c.txt", b"unmapped", 12),
    ];
    let built = build(&entries, &two_packages());
    assert_eq!(built.manifest.layers.len(), 3);
    assert_eq!(built.config.diff_ids.len(), 3);
    assert_eq!(built.config.history.len(), 3);
    // Layer blobs, then config, then manifest.
    assert_eq!(built.blobs.len(), 5);
    assert_eq!(
        built.config.history[0].created_by,
        "Created by rpmoci for package alpha-1.0-1.x86_64"
    );
    assert_eq!(
        built.config.history[1].created_by,
        "Created by rpmoci for package beta-2.0-1.noarch"
    );
    assert_eq!(built.config.history[2].created_by, "Created by rpmoci");
}

#[test]
fn layer_bound_all_mapped() {
    let entries = vec![
        file_entry("a/file1", b"alpha content", 10),
        file_entry("b/file2", b"beta content", 11),
    ];
    let built = build(&entries, &two_packages());
    assert_eq!(built.manifest.layers.len(), 2);
    assert_eq!(built.blobs.len(), 4);
}

#[test]
fn unused_package_layer_dropped() {
    // The second package's file never appears in the walk.
    let entries = vec![
        file_entry("a/file1", b"alpha content", 10),
        file_entry("c.txt", b"unmapped", 12),
    ];
    let built = build(&entries, &two_packages());
    assert_eq!(built.manifest.layers.len(), 2);
    assert_eq!(
        built.config.history[0].created_by,
        "Created by rpmoci for package alpha-1.0-1.x86_64"
    );
    assert_eq!(built.config.history[1].created_by, "Created by rpmoci");
}

#[test]
fn image_reproducible() {
    let entries = vec![
        file_entry("a/file1", b"alpha content", 10),
        file_entry("c.txt", b"unmapped", 12),
    ];
    let one = build(&entries, &two_packages());
    let two = build(&entries, &two_packages());
    assert_eq!(one.manifest_descriptor.digest, two.manifest_descriptor.digest);
    assert_eq!(one.blobs.len(), two.blobs.len());
    for (a, b) in one.blobs.iter().zip(two.blobs.iter()) {
        assert_eq!(a.0, b.0);
        assert_eq!(a.1, b.1);
    }
}

#[test]
fn image_blobs_are_content_addressed() {
    let entries = vec![file_entry("c.txt", b"unmapped", 12)];
    let built = build(&entries, &Vec::new());
    for (hex, bytes) in &built.blobs {
        assert_eq!(hex, &sha256_hex(bytes));
    }
    let cfg_bytes = &built.blobs[built.blobs.len() - 2].1;
    let man_bytes = &built.blobs[built.blobs.len() - 1].1;
    let cfg_json: serde_json::Value = serde_json::from_slice(cfg_bytes).unwrap();
    let man_json: serde_json::Value = serde_json::from_slice(man_bytes).unwrap();
    assert_eq!(cfg_json["rootfs"]["type"], "layers");
    assert_eq!(cfg_json["created"], "2023-11-14T22:13:20+00:00");
    assert_eq!(man_json["schemaVersion"], 2);
    assert_eq!(
        man_json["config"]["digest"],
        built.manifest.config.digest.as_str()
    );
    assert_eq!(
        built.manifest_descriptor.digest,
        format!("sha256:{}", sha256_hex(man_bytes))
    );
    assert_eq!(built.manifest_descriptor.tag, Some("bar".to_string()));
}

#[test]
fn gzip_layer_decompresses_to_tar() {
    let entries = vec![file_entry("c.txt", b"unmapped", 12)];
    let built = build(&entries, &Vec::new());
    let blob = &built.blobs[0].1;
    let mut decoder = flate2::read::GzDecoder::new(&blob[..]);
    let mut tar_bytes = Vec::new();
    decoder.read_to_end(&mut tar_bytes).unwrap();
    assert_eq!(
        built.config.diff_ids[0],
        format!("sha256:{}", sha256_hex(&tar_bytes))
    );
    let mut ar = tar::Archive::new(&tar_bytes[..]);
    let entry = ar.entries().unwrap().next().unwrap().unwrap();
    assert_eq!(entry.path().unwrap().to_str().unwrap(), "c.txt");
}

#[test]
fn sha256_known_vectors() {
    assert_eq!(
        sha256_hex(&Vec::new()),
        "e3b0c44298fc1c149afbf4c8996fb92427ae41e4649b934ca495991b7852b855"
    );
    assert_eq!(
        sha256_hex(&b"abc".to_vec()),
        "ba7816bf8f01cfea414140de5dae2223b00361a396177a9cb410ff61f20015ad"
    );
    assert_eq!(to_hex(&vec![0x00, 0x0f, 0xa5, 0xff]), "000fa5ff");
}

#[test]
fn gzip_round_trip() {
    let data = b"some layer data, repeated, repeated, repeated".to_vec();
    let blob = compress(&data, CompressionAlgorithm::Gzip, None);
    assert_ne!(blob, data);
    let mut decoder = flate2::read::GzDecoder::new(&blob[..]);
    let mut out = Vec::new();
    decoder.read_to_end(&mut out).unwrap();
    assert_eq!(out, data);
}

#[test]
fn zstd_round_trip() {
    let data = b"some layer data, repeated, repeated, repeated".to_vec();
    let blob = compress(&data, CompressionAlgorithm::Zstd, Some(5));
    assert_ne!(blob, data);
    let out = zstd::decode_all(&blob[..]).unwrap();
    assert_eq!(out, data);
}

fn tagged(digest: &str, tag: Option<&str>) -> Descriptor {
    Descriptor {
        media_type: MediaType::ImageManifest,
        digest: digest.to_string(),
        size: 1,
        tag: tag.map(|t| t.to_string()),
    }
}

#[test]
fn index_tag_replace() {
    let mut ix = empty_index();
    index_insert(&mut ix, tagged("sha256:aaa", Some("t")));
    index_insert(&mut ix, tagged("sha256:bbb", Some("other")));
    index_insert(&mut ix, tagged("sha256:ccc", Some("t")));
    assert_eq!(ix.manifests.len(), 2);
    assert_eq!(ix.manifests[0].digest, "sha256:bbb");
    assert_eq!(ix.manifests[0].tag, Some("other".to_string()));
    assert_eq!(ix.manifests[1].digest, "sha256:ccc");
    assert_eq!(ix.manifests[1].tag, Some("t".to_string()));
    let holders: Vec<&Descriptor> = ix
        .manifests
        .iter()
        .filter(|d| d.tag.as_deref() == Some("t"))
        .collect();
    assert_eq!(holders.len(), 1);
    assert_eq!(holders[0].digest, "sha256:ccc");
}

#[test]
fn index_insert_untagged_appends() {
    let mut ix = empty_index();
    index_insert(&mut ix, tagged("sha256:aaa", Some("t")));
    index_insert(&mut ix, tagged("sha256:bbb", None));
    assert_eq!(ix.manifests.len(), 2);
    assert_eq!(ix.manifests[0].digest, "sha256:aaa");
}

#[test]
fn json_emission_exact() {
    assert_eq!(oci_layout_json(), b"{\"imageLayoutVersion\":\"1.0.0\"}".to_vec());
    let ix = ImageIndex { schema_version: 2, manifests: Vec::new() };
    assert_eq!(index_json(&ix), b"{\"schemaVersion\":2,\"manifests\":[]}".to_vec());
    let m = Manifest {
        schema_version: 2,
        config: Descriptor {
            media_type: MediaType::ImageConfig,
            digest: "sha256:abc".to_string(),
            size: 3,
            tag: None,
        },
        layers: vec![Descriptor {
            media_type: MediaType::ImageLayerGzip,
            digest: "sha256:def".to_string(),
            size: 10,
            tag: None,
        }],
    };
    let expected = "{\"schemaVersion\":2,\"mediaType\":\"application/vnd.oci.image.manifest.v1+json\",\"config\":{\"mediaType\":\"application/vnd.oci.image.config.v1+json\",\"digest\":\"sha256:abc\",\"size\":3},\"layers\":[{\"mediaType\":\"application/vnd.oci.image.layer.v1.tar+gzip\",\"digest\":\"sha256:def\",\"size\":10}]}";
    assert_eq!(manifest_json(&m), expected.as_bytes().to_vec());
}

#[test]
fn layout_version_checks() {
    assert!(check_layout_version("1.0.0"));
    assert!(check_layout_version("1.1.0"));
    assert!(check_layout_version("1"));
    assert!(!check_layout_version("2.0.0"));
    assert!(!check_layout_version("10.0"));
    assert!(!check_layout_version(""));
    assert!(!check_layout_version(".1"));
}

#[test]
fn plan_init_decisions() {
    assert!(matches!(
        plan_init(DirState::Missing),
        Ok(InitAction::Initialize)
    ));
    assert!(matches!(
        plan_init(DirState::Empty),
        Ok(InitAction::Initialize)
    ));
    assert!(matches!(
        plan_init(DirState::Occupied { layout_version: Some("1.0.0".to_string()) }),
        Ok(InitAction::AlreadyValid)
    ));
    assert!(matches!(
        plan_init(DirState::Occupied { layout_version: None }),
        Err(StoreError::UnreadableLayout)
    ));
    match plan_init(DirState::Occupied { layout_version: Some("2.0.0".to_string()) }) {
        Err(StoreError::UnsupportedLayoutVersion { version }) => {
            assert_eq!(version, "2.0.0");
        }
        _ => panic!("expected a version error"),
    }
}
