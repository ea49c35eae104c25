//! The layer-splitting engine: builds an OCI image from a walked filesystem
//! subtree and a ranked package list.
//!
//! Each of the most popular packages gets its own layer; a catch-all layer
//! takes every entry no package claims.  One walk over the entries routes
//! each to its layer's archive builder, sharing one hardlink table, and only
//! layers that received an entry are finalized, in rank order, catch-all
//! last.

use crate::archive::{
    append_entry, entries_ok, entries_xattrs_bounded, entry_emit, entry_like_but_mtime,
    entry_ok, entry_table_after, lemma_entry_emit_like, seq_zeros, tar_bytes, ArchiveBuilder,
    ArchiveError, EntryKind, FsEntry, HardlinkTable,
};
use crate::compress::{compress, compress_spec, level_ok, CompressionAlgorithm};
use crate::digest::{hex_of, sha256_hex, sha256_of};
use crate::store::{
    image_config_json, json_image_config, json_manifest, manifest_json, push_layer, Descriptor,
    ImageConfiguration, Layer, Manifest, MediaType, RunConfig,
};
use vstd::prelude::*;
use vstd::string::StringExecFns;

verus! {

/// A resolved package: its identity, the files it owns, and its build time.
pub struct Package {
    /// The package name.
    pub name: String,
    /// The package epoch-version-release.
    pub evr: String,
    /// The package architecture.
    pub arch: String,
    /// The files the package owns, absolute or relative.
    pub files: Vec<String>,
    /// The package build time, seconds since the epoch; the clamp time of
    /// the package's layer.
    pub buildtime: u64,
}

/// A path with its single leading slash removed, if it has one.
pub open spec fn strip_slash(p: Seq<char>) -> Seq<char> {
    if p.len() > 0 && p[0] == '/' {
        p.drop_first()
    } else {
        p
    }
}

/// The map entries one package contributes: each of its files, stripped of
/// a leading slash, mapped to the package's rank.
pub open spec fn pkg_map_entries(p: Package, i: usize) -> Seq<(Seq<char>, usize)> {
    p.files@.map(|j: int, f: String| (strip_slash(f@), i))
}

/// The map entries of the first `n` packages, in rank order.
pub open spec fn map_entries(pkgs: Seq<Package>, n: int) -> Seq<(Seq<char>, usize)>
    decreases n,
{
    if n <= 0 {
        Seq::<(Seq<char>, usize)>::empty()
    } else {
        map_entries(pkgs, n - 1) + pkg_map_entries(pkgs[n - 1], (n - 1) as usize)
    }
}

/// The rank the map assigns to a path: the first entry that names it.
pub open spec fn map_find(m: Seq<(Seq<char>, usize)>, path: Seq<char>) -> Option<usize>
    decreases m.len(),
{
    if m.len() == 0 {
        None
    } else if m[0].0 == path {
        Some(m[0].1)
    } else {
        map_find(m.drop_first(), path)
    }
}

/// The path-to-layer assignment map, built once per build from the ranked
/// package list and consulted read-only during the walk.  Where two
/// packages name one path, the first in rank order wins.
pub struct LayerMap {
    entries: Vec<(String, usize)>,
}

impl LayerMap {
    pub closed spec fn view(&self) -> Seq<(Seq<char>, usize)> {
        self.entries@.map(|i: int, t: (String, usize)| (t.0@, t.1))
    }

    /// The rank assigned to a path, if any package claims it.
    pub fn find(&self, path: &String) -> (r: Option<usize>)
        ensures
            r == map_find(self.view(), path@),
    {
        let n = self.entries.len();
        let mut i: usize = 0;
        proof {
            assert(self.view().skip(0) =~= self.view());
        }
        while i < n
            invariant
                n == self.entries@.len(),
                i <= n,
                map_find(self.view(), path@) == map_find(self.view().skip(i as int), path@),
            decreases n - i,
        {
            proof {
                assert(self.view().skip(i as int)[0] == self.view()[i as int]);
                assert(self.view().skip(i as int).drop_first() =~= self.view().skip(i + 1));
            }
            if self.entries[i].0.eq(path) {
                return Some(self.entries[i].1);
            }
            i = i + 1;
        }
        proof {
            assert(self.view().skip(n as int) =~= Seq::<(Seq<char>, usize)>::empty());
        }
        None
    }
}

/// A file path with its single leading slash removed, if it has one.
fn strip_leading_slash(p: &String) -> (r: String)
    ensures
        r@ == strip_slash(p@),
{
    let s = p.as_str();
    let n = s.unicode_len();
    if n > 0 && s.get_char(0) == '/' {
        let rest = s.substring_char(1, n);
        String::from_str(rest)
    } else {
        p.clone()
    }
}

/// Build the path-to-layer map from the ranked package list: each file of
/// the package of rank `i`, stripped of its leading slash, maps to `i`;
/// the first package naming a path wins.
pub fn path_to_layer_map(pkgs: &Vec<Package>) -> (m: LayerMap)
    ensures
        m.view() == map_entries(pkgs@, pkgs@.len() as int),
{
    let mut entries: Vec<(String, usize)> = Vec::new();
    let mut i: usize = 0;
    proof {
        assert(LayerMap { entries: entries }.view() =~= map_entries(pkgs@, 0));
    }
    while i < pkgs.len()
        invariant
            i <= pkgs@.len(),
            (LayerMap { entries: entries }).view() == map_entries(pkgs@, i as int),
        decreases pkgs@.len() - i,
    {
        let files = &pkgs[i].files;
        let mut j: usize = 0;
        proof {
            assert(pkg_map_entries(pkgs@[i as int], i).take(0) =~= Seq::<
                (Seq<char>, usize),
            >::empty());
            assert((LayerMap { entries: entries }).view() =~= map_entries(pkgs@, i as int)
                + pkg_map_entries(pkgs@[i as int], i).take(0));
        }
        while j < files.len()
            invariant
                i < pkgs@.len(),
                j <= files@.len(),
                files == &pkgs@[i as int].files,
                (LayerMap { entries: entries }).view() == map_entries(pkgs@, i as int)
                    + pkg_map_entries(pkgs@[i as int], i).take(j as int),
            decreases files@.len() - j,
        {
            let stripped = strip_leading_slash(&files[j]);
            let ghost prev_view = (LayerMap { entries: entries }).view();
            entries.push((stripped, i));
            proof {
                let pm = pkg_map_entries(pkgs@[i as int], i);
                assert(pm[j as int] == (strip_slash(files@[j as int]@), i));
                assert(pm.take(j + 1) =~= pm.take(j as int).push(pm[j as int]));
                assert((LayerMap { entries: entries }).view() =~= prev_view.push(
                    (strip_slash(files@[j as int]@), i),
                ));
                assert((LayerMap { entries: entries }).view() =~= map_entries(pkgs@, i as int)
                    + pm.take(j + 1));
            }
            j = j + 1;
        }
        proof {
            assert(pkg_map_entries(pkgs@[i as int], i).take(files@.len() as int)
                =~= pkg_map_entries(pkgs@[i as int], i));
            assert((LayerMap { entries: entries }).view() =~= map_entries(pkgs@, i + 1));
        }
        i = i + 1;
    }
    LayerMap { entries }
}

/// The layer an entry goes to: the rank its path is mapped to, else the
/// catch-all layer `k`.
pub open spec fn route_of(m: Seq<(Seq<char>, usize)>, k: int, e: FsEntry) -> int {
    match map_find(m, e.path@) {
        Some(i) => if i < k {
            i as int
        } else {
            k
        },
        None => k,
    }
}

/// Whether an entry marks its layer used: everything the walk does not
/// pass over before routing, that is all but sockets and the walk root.
pub open spec fn entry_marks(e: FsEntry) -> bool {
    &&& !(e.kind is Socket)
    &&& e.path@.len() > 0
}


/// The split walk state after the first `n` entries: the stream so far of
/// each layer (ranks `0..k`, then the catch-all at `k`), the shared
/// hardlink table, and the used flag of each layer.
pub open spec fn split_state(
    m: Seq<(Seq<char>, usize)>,
    k: int,
    clamps: Seq<u64>,
    entries: Seq<FsEntry>,
    n: int,
) -> (Seq<Seq<u8>>, Seq<(u64, u64, Seq<char>)>, Seq<bool>)
    decreases n,
{
    if n <= 0 {
        (
            Seq::new((k + 1) as nat, |i: int| Seq::<u8>::empty()),
            Seq::<(u64, u64, Seq<char>)>::empty(),
            Seq::new((k + 1) as nat, |i: int| false),
        )
    } else {
        let prev = split_state(m, k, clamps, entries, n - 1);
        let e = entries[n - 1];
        let r = route_of(m, k, e);
        (
            prev.0.update(r, prev.0[r] + entry_emit(e, clamps[r], prev.1)),
            entry_table_after(e, prev.1),
            if entry_marks(e) {
                prev.2.update(r, true)
            } else {
                prev.2
            },
        )
    }
}

/// The clamp time of each layer: a package layer clamps to the package's
/// build time, the catch-all to the image creation time.
pub open spec fn clamps_of(pkgs: Seq<Package>, creation: u64) -> Seq<u64> {
    Seq::new(
        (pkgs.len() + 1) as nat,
        |i: int|
            if i < pkgs.len() {
                pkgs[i].buildtime
            } else {
                creation
            },
    )
}

/// The indices of the used layers among the first `n`, in rank order.
pub open spec fn used_indices(used: Seq<bool>, n: int) -> Seq<int>
    decreases n,
{
    if n <= 0 {
        Seq::<int>::empty()
    } else if used[n - 1] {
        used_indices(used, n - 1).push(n - 1)
    } else {
        used_indices(used, n - 1)
    }
}

/// The full tar stream of one layer: its records, then the terminating
/// zero blocks.
pub open spec fn layer_stream(streams: Seq<Seq<u8>>, i: int) -> Seq<u8> {
    streams[i] + seq_zeros(1024)
}

/// The history line of a layer: the tool for the catch-all, the tool and
/// package for a package layer.
pub open spec fn created_by_of(pkgs: Seq<Package>, k: int, i: int) -> Seq<char> {
    if i == k {
        "Created by rpmoci"@
    } else {
        "Created by rpmoci for package "@ + pkgs[i].name@ + "-"@ + pkgs[i].evr@ + "."@
            + pkgs[i].arch@
    }
}

/// The media type a codec's layers carry.
pub open spec fn layer_media(alg: CompressionAlgorithm) -> MediaType {
    match alg {
        CompressionAlgorithm::Gzip => MediaType::ImageLayerGzip,
        CompressionAlgorithm::Zstd => MediaType::ImageLayerZstd,
    }
}

/// What chrono renders for a UNIX timestamp in UTC, RFC 3339 form.
pub uninterp spec fn rfc3339_of(ts: u64) -> Seq<char>;

/// Relies on chrono's DateTime::to_rfc3339 over a UTC timestamp: the
/// rendering depends on the timestamp alone, and timestamps before the
/// year 10000 are in chrono's range.
#[verifier::external_body]
fn rfc3339_utc(ts: u64) -> (r: String)
    requires
        ts < 253402300800,
    ensures
        r@ == rfc3339_of(ts),
{
    chrono::DateTime::<chrono::Utc>::from_timestamp(ts as i64, 0)
        .expect("timestamp in range")
        .to_rfc3339()
}


/// Assemble the built image: write the configuration blob, embed its
/// descriptor in the manifest, write the manifest blob, and stamp the
/// manifest's descriptor with the image tag.
fn assemble_image(
    manifest: Manifest,
    config: ImageConfiguration,
    blobs: Vec<(String, Vec<u8>)>,
    tag: String,
) -> (b: BuiltImage)
    ensures
        b.config == config,
        b.manifest.schema_version == manifest.schema_version,
        b.manifest.layers@ == manifest.layers@,
        b.manifest.config.digest@ == "sha256:"@ + hex_of(sha256_of(json_image_config(config))),
        b.manifest.config.size == json_image_config(config).len(),
        b.manifest.config.media_type == MediaType::ImageConfig,
        b.manifest.config.tag is None,
        b.blobs@.len() == blobs@.len() + 2,
        forall|j: int| 0 <= j < blobs@.len() ==> b.blobs@[j] == #[trigger] blobs@[j],
        b.blobs@[blobs@.len() as int].0@ == hex_of(sha256_of(json_image_config(config))),
        b.blobs@[blobs@.len() as int].1@ == json_image_config(config),
        b.blobs@[blobs@.len() as int + 1].0@ == hex_of(sha256_of(json_manifest(b.manifest))),
        b.blobs@[blobs@.len() as int + 1].1@ == json_manifest(b.manifest),
        b.manifest_descriptor.digest@ == "sha256:"@ + hex_of(sha256_of(json_manifest(b.manifest))),
        b.manifest_descriptor.size == json_manifest(b.manifest).len(),
        b.manifest_descriptor.media_type == MediaType::ImageManifest,
        (b.manifest_descriptor.tag matches Some(t) && t@ == tag@),
{
    let mut manifest = manifest;
    let mut blobs = blobs;
    let cfg_bytes = image_config_json(&config);
    let cfg_hex = sha256_hex(&cfg_bytes);
    let mut cfg_digest = String::from_str("sha256:");
    cfg_digest.append(cfg_hex.as_str());
    manifest.config = Descriptor {
        media_type: MediaType::ImageConfig,
        digest: cfg_digest,
        size: cfg_bytes.len() as u64,
        tag: None,
    };
    let man_bytes = manifest_json(&manifest);
    let man_hex = sha256_hex(&man_bytes);
    let mut man_digest = String::from_str("sha256:");
    man_digest.append(man_hex.as_str());
    let manifest_descriptor = Descriptor {
        media_type: MediaType::ImageManifest,
        digest: man_digest,
        size: man_bytes.len() as u64,
        tag: Some(tag),
    };
    blobs.push((cfg_hex, cfg_bytes));
    blobs.push((man_hex, man_bytes));
    BuiltImage { blobs, manifest, config, manifest_descriptor }
}

/// An OCI image builder that puts popular packages into layers of their
/// own.
pub struct Imager {
    /// The greatest number of package layers to create.
    pub max_layers: usize,
    /// The image creation time, seconds since the epoch; also the clamp
    /// time of the catch-all layer.
    pub creation_time: u64,
    /// The codec for the image layers.
    pub compression_algorithm: CompressionAlgorithm,
    /// The codec level, or its default.
    pub compression_level: Option<i32>,
    /// The image's runtime configuration.
    pub config: RunConfig,
    /// The image author, if set.
    pub author: Option<String>,
    /// The tag the built image is inserted under.
    pub tag: String,
    /// Packages smaller than this are not worth a layer of their own; the
    /// resolver is given this threshold.
    pub rpm_size_threshold: u64,
}

/// The default number of package layers.
pub fn default_max_layers() -> (n: usize)
    ensures
        n == 125,
{
    125
}

/// A configuration-with-defaults for `Imager`: unset fields take the
/// documented defaults when `build` is called.
pub struct ImagerBuilder {
    /// The greatest number of package layers; 125 when unset.
    pub max_layers: Option<usize>,
    /// The image creation time; the epoch when unset.
    pub creation_time: Option<u64>,
    /// The codec; gzip when unset.
    pub compression_algorithm: Option<CompressionAlgorithm>,
    /// The codec level; the codec's default when unset.
    pub compression_level: Option<i32>,
    /// The runtime configuration; empty when unset.
    pub config: Option<RunConfig>,
    /// The image author.
    pub author: Option<String>,
    /// The image tag; `latest` when unset.
    pub tag: Option<String>,
    /// The package size threshold; five megabytes when unset.
    pub rpm_size_threshold: Option<u64>,
}

impl ImagerBuilder {
    /// A builder with every field unset.
    pub fn new() -> (b: ImagerBuilder)
        ensures
            b.max_layers is None,
            b.creation_time is None,
            b.compression_algorithm is None,
            b.compression_level is None,
            b.config is None,
            b.author is None,
            b.tag is None,
            b.rpm_size_threshold is None,
    {
        ImagerBuilder {
            max_layers: None,
            creation_time: None,
            compression_algorithm: None,
            compression_level: None,
            config: None,
            author: None,
            tag: None,
            rpm_size_threshold: None,
        }
    }

    /// The imager, with defaults filled in for unset fields.
    pub fn build(self) -> (im: Imager)
        ensures
            im.max_layers == (match self.max_layers {
                Some(n) => n,
                None => 125usize,
            }),
            im.creation_time == (match self.creation_time {
                Some(t) => t,
                None => 0u64,
            }),
            im.compression_algorithm == (match self.compression_algorithm {
                Some(a) => a,
                None => CompressionAlgorithm::Gzip,
            }),
            im.compression_level == self.compression_level,
            self.config matches Some(c) ==> im.config == c,
            self.config is None ==> im.config.user is None && im.config.exposed_ports@.len() == 0
                && im.config.env@.len() == 0 && im.config.entrypoint@.len() == 0
                && im.config.cmd@.len() == 0 && im.config.volumes@.len() == 0
                && im.config.workingdir is None && im.config.labels@.len() == 0
                && im.config.stopsignal is None,
            im.author == self.author,
            im.tag@ == (match self.tag {
                Some(t) => t@,
                None => "latest"@,
            }),
            im.rpm_size_threshold == (match self.rpm_size_threshold {
                Some(t) => t,
                None => 5242880u64,
            }),
    {
        Imager {
            max_layers: match self.max_layers {
                Option::Some(n) => n,
                Option::None => default_max_layers(),
            },
            creation_time: match self.creation_time {
                Option::Some(t) => t,
                Option::None => 0,
            },
            compression_algorithm: match self.compression_algorithm {
                Option::Some(a) => a,
                Option::None => CompressionAlgorithm::Gzip,
            },
            compression_level: self.compression_level,
            config: match self.config {
                Option::Some(c) => c,
                Option::None => RunConfig {
                    user: None,
                    exposed_ports: Vec::new(),
                    env: Vec::new(),
                    entrypoint: Vec::new(),
                    cmd: Vec::new(),
                    volumes: Vec::new(),
                    workingdir: None,
                    labels: Vec::new(),
                    stopsignal: None,
                },
            },
            author: self.author,
            tag: match self.tag {
                Option::Some(t) => t,
                Option::None => String::from_str("latest"),
            },
            rpm_size_threshold: match self.rpm_size_threshold {
                Option::Some(t) => t,
                Option::None => 5242880,
            },
        }
    }
}

/// Why an image build was abandoned.
#[derive(Debug)]
pub enum ImageError {
    /// The entry at this path, or its link target, is not one tar can
    /// encode.
    InvalidPath {
        /// The path of the offending entry.
        path: String,
    },
}

/// A built image as values: the content-addressed blobs to store, keyed by
/// their lowercase hex digest, the manifest and configuration, and the
/// manifest's descriptor stamped with the image tag.
pub struct BuiltImage {
    /// Each blob to store: the layer blobs in rank order, then the
    /// configuration, then the manifest, keyed by lowercase hex digest.
    pub blobs: Vec<(String, Vec<u8>)>,
    /// The image manifest.
    pub manifest: Manifest,
    /// The image configuration.
    pub config: ImageConfiguration,
    /// The manifest's descriptor, annotated with the image tag; inserting
    /// it into the index publishes the image.
    pub manifest_descriptor: Descriptor,
}

/// What holds of layer `j` of the built image, drawn from used layer `us[j]`.
pub open spec fn built_layer_ok(
    manifest: Manifest,
    config: ImageConfiguration,
    blobs: Seq<(String, Vec<u8>)>,
    pkgs: Seq<Package>,
    k: int,
    streams: Seq<Seq<u8>>,
    us: Seq<int>,
    j: int,
    alg: CompressionAlgorithm,
    level: Option<i32>,
    creation: u64,
) -> bool {
    let i = us[j];
    let stream = layer_stream(streams, i);
    let blob = compress_spec(stream, alg, level);
    &&& manifest.layers@[j].digest@ == "sha256:"@ + hex_of(sha256_of(blob))
    &&& manifest.layers@[j].size == blob.len()
    &&& manifest.layers@[j].media_type == layer_media(alg)
    &&& manifest.layers@[j].tag is None
    &&& config.diff_ids@[j]@ == "sha256:"@ + hex_of(sha256_of(stream))
    &&& config.history@[j].created_by@ == created_by_of(pkgs, k, i)
    &&& config.history@[j].created@ == rfc3339_of(creation)
    &&& blobs[j].0@ == hex_of(sha256_of(blob))
    &&& blobs[j].1@ == blob
}

impl Imager {
    /// Build the OCI image: route each walked entry to its package's layer
    /// or the catch-all, finalize only the layers that received an entry,
    /// in rank order with the catch-all last, and assemble the manifest,
    /// configuration and tagged manifest descriptor.
    ///
    /// Everything returned is a function of the imager, the package list
    /// and the entries alone: two builds from equal inputs give equal
    /// blobs and digests.  The build fails exactly when some entry cannot
    /// be encoded, and reports the first such entry's path.
    #[verifier::rlimit(100)]
    pub fn create_image(self, pkgs: &Vec<Package>, entries: &Vec<FsEntry>) -> (r: Result<
        BuiltImage,
        ImageError,
    >)
        requires
            pkgs@.len() <= self.max_layers,
            pkgs@.len() < 0xffffffff,
            entries_xattrs_bounded(entries@),
            level_ok(self.compression_algorithm, self.compression_level),
            self.creation_time < 253402300800,
        ensures
            r is Ok == entries_ok(entries@),
            r matches Err(ImageError::InvalidPath { path }) ==> exists|i: int|
                0 <= i < entries@.len() && !entry_ok(#[trigger] entries@[i]) && path@
                    == entries@[i].path@ && (forall|j: int|
                    0 <= j < i ==> entry_ok(entries@[j])),
            r matches Ok(b) ==> ({
                let k = pkgs@.len() as int;
                let m = map_entries(pkgs@, k);
                let split = split_state(
                    m,
                    k,
                    clamps_of(pkgs@, self.creation_time),
                    entries@,
                    entries@.len() as int,
                );
                let us = used_indices(split.2, k + 1);
                let cfg_bytes = json_image_config(b.config);
                let man_bytes = json_manifest(b.manifest);
                &&& b.manifest.layers@.len() == us.len()
                &&& b.config.diff_ids@.len() == us.len()
                &&& b.config.history@.len() == us.len()
                &&& b.blobs@.len() == us.len() + 2
                &&& (forall|j: int|
                    0 <= j < us.len() ==> #[trigger] built_layer_ok(
                        b.manifest,
                        b.config,
                        b.blobs@,
                        pkgs@,
                        k,
                        split.0,
                        us,
                        j,
                        self.compression_algorithm,
                        self.compression_level,
                        self.creation_time,
                    ))
                &&& b.config.created@ == rfc3339_of(self.creation_time)
                &&& b.config.architecture@ == "amd64"@
                &&& b.config.os@ == "linux"@
                &&& b.config.config == self.config
                &&& b.config.author == self.author
                &&& b.blobs@[us.len() as int].0@ == hex_of(sha256_of(cfg_bytes))
                &&& b.blobs@[us.len() as int].1@ == cfg_bytes
                &&& b.manifest.config.digest@ == "sha256:"@ + hex_of(sha256_of(cfg_bytes))
                &&& b.manifest.config.size == cfg_bytes.len()
                &&& b.manifest.config.media_type == MediaType::ImageConfig
                &&& b.manifest.config.tag is None
                &&& b.manifest.schema_version == 2
                &&& b.blobs@[us.len() as int + 1].0@ == hex_of(sha256_of(man_bytes))
                &&& b.blobs@[us.len() as int + 1].1@ == man_bytes
                &&& b.manifest_descriptor.digest@ == "sha256:"@ + hex_of(sha256_of(man_bytes))
                &&& b.manifest_descriptor.size == man_bytes.len()
                &&& b.manifest_descriptor.media_type == MediaType::ImageManifest
                &&& (b.manifest_descriptor.tag matches Some(t) && t@ == self.tag@)
            }),
    {
        let k = pkgs.len();
        let ghost gm = map_entries(pkgs@, pkgs@.len() as int);
        let ghost gclamps = clamps_of(pkgs@, self.creation_time);
        let map = path_to_layer_map(pkgs);

        let mut builders: Vec<ArchiveBuilder> = Vec::new();
        let mut clamps: Vec<u64> = Vec::new();
        let mut used: Vec<bool> = Vec::new();
        let mut i: usize = 0;
        while i < k
            invariant
                i <= k == pkgs@.len(),
                gclamps == clamps_of(pkgs@, self.creation_time),
                builders@.len() == i,
                clamps@.len() == i,
                used@.len() == i,
                forall|t: int| 0 <= t < i ==> tar_bytes(#[trigger] builders@[t])
                    == Seq::<u8>::empty(),
                forall|t: int| 0 <= t < i ==> #[trigger] clamps@[t] == gclamps[t],
                forall|t: int| 0 <= t < i ==> !(#[trigger] used@[t]),
            decreases k - i,
        {
            builders.push(ArchiveBuilder::new());
            clamps.push(pkgs[i].buildtime);
            used.push(false);
            i = i + 1;
        }
        builders.push(ArchiveBuilder::new());
        clamps.push(self.creation_time);
        used.push(false);

        let mut table = HardlinkTable::new();
        let ghost n_entries = entries@.len() as int;
        proof {
            let init = split_state(gm, k as int, gclamps, entries@, 0);
            assert(builders@.map_values(|b: ArchiveBuilder| tar_bytes(b)) =~= init.0);
            assert(used@ =~= init.2);
            assert(table.view() =~= init.1);
        }
        let mut e_i: usize = 0;
        while e_i < entries.len()
            invariant
                e_i <= entries@.len(),
                k == pkgs@.len(),
                k < 0xffffffff,
                gm == map_entries(pkgs@, k as int),
                gclamps == clamps_of(pkgs@, self.creation_time),
                map.view() == gm,
                entries_xattrs_bounded(entries@),
                builders@.len() == k + 1,
                clamps@.len() == k + 1,
                used@.len() == k + 1,
                forall|t: int| 0 <= t < k + 1 ==> #[trigger] clamps@[t] == gclamps[t],
                table.wf(),
                forall|j: int| 0 <= j < e_i ==> entry_ok(#[trigger] entries@[j]),
                ({
                    let st = split_state(gm, k as int, gclamps, entries@, e_i as int);
                    &&& builders@.map_values(|b: ArchiveBuilder| tar_bytes(b)) == st.0
                    &&& table.view() == st.1
                    &&& used@ == st.2
                }),
            decreases entries@.len() - e_i,
        {
            let ghost st_prev = split_state(gm, k as int, gclamps, entries@, e_i as int);
            let e = &entries[e_i];
            let route: usize = match map.find(&e.path) {
                Option::Some(p) => if p < k {
                    p
                } else {
                    k
                },
                Option::None => k,
            };
            assert(route as int == route_of(gm, k as int, entries@[e_i as int]));
            let marks = match &e.kind {
                EntryKind::Socket => false,
                _ => !e.path.as_str().is_empty(),
            };
            if marks {
                let u = &mut used[route];
                *u = true;
            }
            let clamp = clamps[route];
            let b = &mut builders[route];
            let ghost bytes_before = tar_bytes(*b);
            let res = append_entry(b, e, clamp, &mut table);
            match res {
                Result::Ok(()) => {},
                Result::Err(ArchiveError::InvalidPath { path }) => {
                    proof {
                        assert(!entry_ok(entries@[e_i as int]));
                    }
                    return Err(ImageError::InvalidPath { path });
                },
            }
            proof {
                let st = split_state(gm, k as int, gclamps, entries@, e_i + 1);
                assert(st.0 =~= st_prev.0.update(
                    route as int,
                    st_prev.0[route as int] + entry_emit(
                        entries@[e_i as int],
                        gclamps[route as int],
                        st_prev.1,
                    ),
                ));
                assert(builders@.map_values(|bb: ArchiveBuilder| tar_bytes(bb)) =~= st.0);
                assert(used@ =~= st.2);
            }
            e_i = e_i + 1;
        }
        proof {
            assert(entries_ok(entries@));
        }

        let ghost split = split_state(gm, k as int, gclamps, entries@, n_entries);
        let ghost streams = split.0;
        let created = rfc3339_utc(self.creation_time);
        let mut manifest = Manifest {
            schema_version: 2,
            config: Descriptor {
                media_type: MediaType::ImageConfig,
                digest: String::new(),
                size: 0,
                tag: None,
            },
            layers: Vec::new(),
        };
        let mut config = ImageConfiguration {
            created: created.clone(),
            author: self.author,
            architecture: String::from_str("amd64"),
            os: String::from_str("linux"),
            config: self.config,
            diff_ids: Vec::new(),
            history: Vec::new(),
        };
        let mut blobs: Vec<(String, Vec<u8>)> = Vec::new();
        let ghost gauthor = config.author;
        let ghost grun = config.config;

        let mut li: usize = 0;
        proof {
            assert(used_indices(split.2, 0) =~= Seq::<int>::empty());
        }
        while li < k + 1
            invariant
                li <= k + 1,
                k == pkgs@.len(),
                k < 0xffffffff,
                used@.len() == k + 1,
                used@ == split.2,
                streams == split.0,
                builders@.len() == k + 1 - li,
                forall|t: int| 0 <= t < builders@.len() ==> tar_bytes(#[trigger] builders@[t])
                    == streams[li + t],
                level_ok(self.compression_algorithm, self.compression_level),
                created@ == rfc3339_of(self.creation_time),
                manifest.schema_version == 2,
                manifest.config.digest@.len() == 0,
                config.created@ == rfc3339_of(self.creation_time),
                config.architecture@ == "amd64"@,
                config.os@ == "linux"@,
                config.author == gauthor,
                config.config == grun,
                ({
                    let us = used_indices(split.2, li as int);
                    &&& manifest.layers@.len() == us.len()
                    &&& config.diff_ids@.len() == us.len()
                    &&& config.history@.len() == us.len()
                    &&& blobs@.len() == us.len()
                    &&& (forall|j: int|
                        0 <= j < us.len() ==> built_layer_ok(
                            manifest,
                            config,
                            blobs@,
                            pkgs@,
                            k as int,
                            streams,
                            us,
                            j,
                            self.compression_algorithm,
                            self.compression_level,
                            self.creation_time,
                        ))
                }),
            decreases k + 1 - li,
        {
            let b = builders.remove(0);
            proof {
                assert(tar_bytes(b) == streams[li as int]);
            }
            if used[li] {
                let bytes = b.finish();
                let diff_hex = sha256_hex(&bytes);
                let blob = compress(&bytes, self.compression_algorithm, self.compression_level);
                let blob_hex = sha256_hex(&blob);
                let mut digest = String::from_str("sha256:");
                digest.append(blob_hex.as_str());
                let mut diff = String::from_str("sha256:");
                diff.append(diff_hex.as_str());
                let mt = match self.compression_algorithm {
                    CompressionAlgorithm::Gzip => MediaType::ImageLayerGzip,
                    CompressionAlgorithm::Zstd => MediaType::ImageLayerZstd,
                };
                let desc = Descriptor {
                    media_type: mt,
                    digest,
                    size: blob.len() as u64,
                    tag: None,
                };
                let created_by = if li < k {
                    let mut cb = String::from_str("Created by rpmoci for package ");
                    cb.append(pkgs[li].name.as_str());
                    cb.append("-");
                    cb.append(pkgs[li].evr.as_str());
                    cb.append(".");
                    cb.append(pkgs[li].arch.as_str());
                    cb
                } else {
                    String::from_str("Created by rpmoci")
                };
                proof {
                    assert(created_by@ == created_by_of(pkgs@, k as int, li as int));
                }
                let ghost us_prev = used_indices(split.2, li as int);
                let ghost man_prev = manifest;
                let ghost cfg_prev = config;
                let ghost blobs_prev = blobs@;
                let ghost gbytes = bytes@;
                let ghost gblob = blob@;
                push_layer(
                    &mut manifest,
                    &mut config,
                    Layer { blob: desc, diff_id: diff },
                    created_by,
                    created.clone(),
                );
                blobs.push((blob_hex, blob));
                proof {
                    let us_new = used_indices(split.2, li + 1);
                    assert(us_new =~= us_prev.push(li as int));
                    assert(gbytes == layer_stream(streams, li as int));
                    assert(gblob == compress_spec(
                        layer_stream(streams, li as int),
                        self.compression_algorithm,
                        self.compression_level,
                    ));
                    assert forall|j: int| 0 <= j < us_new.len() implies built_layer_ok(
                        manifest,
                        config,
                        blobs@,
                        pkgs@,
                        k as int,
                        streams,
                        us_new,
                        j,
                        self.compression_algorithm,
                        self.compression_level,
                        self.creation_time,
                    ) by {
                        if j < us_prev.len() {
                            assert(us_new[j] == us_prev[j]);
                            assert(manifest.layers@[j] == man_prev.layers@[j]);
                            assert(config.diff_ids@[j] == cfg_prev.diff_ids@[j]);
                            assert(config.history@[j] == cfg_prev.history@[j]);
                            assert(blobs@[j] == blobs_prev[j]);
                            assert(built_layer_ok(
                                man_prev,
                                cfg_prev,
                                blobs_prev,
                                pkgs@,
                                k as int,
                                streams,
                                us_prev,
                                j,
                                self.compression_algorithm,
                                self.compression_level,
                                self.creation_time,
                            ));
                        } else {
                            assert(us_new[j] == li as int);
                            assert(manifest.layers@[j] == man_prev.layers@.push(
                                Layer { blob: desc, diff_id: diff }.blob,
                            ).last());
                        }
                    }
                }
            } else {
                proof {
                    assert(used_indices(split.2, li + 1) =~= used_indices(split.2, li as int));
                }
            }
            li = li + 1;
        }

        let ghost us_final = used_indices(split.2, k as int + 1);
        let ghost gman = manifest;
        let ghost gcfg = config;
        let ghost gblobs = blobs@;
        let b = assemble_image(manifest, config, blobs, self.tag);
        proof {
            assert forall|j: int| 0 <= j < us_final.len() implies #[trigger] built_layer_ok(
                b.manifest,
                b.config,
                b.blobs@,
                pkgs@,
                k as int,
                split.0,
                us_final,
                j,
                self.compression_algorithm,
                self.compression_level,
                self.creation_time,
            ) by {
                assert(built_layer_ok(
                    gman,
                    gcfg,
                    gblobs,
                    pkgs@,
                    k as int,
                    split.0,
                    us_final,
                    j,
                    self.compression_algorithm,
                    self.compression_level,
                    self.creation_time,
                ));
                assert(b.manifest.layers@[j] == gman.layers@[j]);
                assert(b.blobs@[j] == gblobs[j]);
            }
        }
        Ok(b)
    }
}


/// The split state always carries one stream and one flag per layer.
proof fn lemma_split_len(
    m: Seq<(Seq<char>, usize)>,
    k: int,
    clamps: Seq<u64>,
    entries: Seq<FsEntry>,
    n: int,
)
    requires
        k >= 0,
    ensures
        split_state(m, k, clamps, entries, n).0.len() == k + 1,
        split_state(m, k, clamps, entries, n).2.len() == k + 1,
    decreases n,
{
    if n > 0 {
        lemma_split_len(m, k, clamps, entries, n - 1);
    }
}

/// A layer's used flag after `n` entries is set exactly when some entry
/// among them routed to the layer and was not passed over.
proof fn lemma_split_used(
    m: Seq<(Seq<char>, usize)>,
    k: int,
    clamps: Seq<u64>,
    entries: Seq<FsEntry>,
    n: int,
    i: int,
)
    requires
        0 <= i <= k,
        0 <= n <= entries.len(),
    ensures
        split_state(m, k, clamps, entries, n).2[i] == exists|e: int|
            0 <= e < n && entry_marks(#[trigger] entries[e]) && route_of(m, k, entries[e]) == i,
    decreases n,
{
    if n > 0 {
        lemma_split_used(m, k, clamps, entries, n - 1, i);
        lemma_split_len(m, k, clamps, entries, n - 1);
        let prev = split_state(m, k, clamps, entries, n - 1);
        let e = entries[n - 1];
        let flag = split_state(m, k, clamps, entries, n).2[i];
        assert(0 <= route_of(m, k, e) <= k);
        if entry_marks(e) && route_of(m, k, e) == i {
            assert(flag);
        } else {
            assert(flag == prev.2[i]);
            if prev.2[i] {
                let w = choose|w: int|
                    0 <= w < n - 1 && entry_marks(#[trigger] entries[w]) && route_of(
                        m,
                        k,
                        entries[w],
                    ) == i;
                assert(0 <= w < n && entry_marks(entries[w]) && route_of(m, k, entries[w]) == i);
            }
        }
    }
}

/// With every flag among the first `n` set, every layer is listed.
proof fn lemma_used_indices_full(used: Seq<bool>, n: int)
    requires
        0 <= n <= used.len(),
        forall|i: int| 0 <= i < n ==> used[i],
    ensures
        used_indices(used, n).len() == n,
    decreases n,
{
    if n > 0 {
        lemma_used_indices_full(used, n - 1);
    }
}

/// With every flag but the last set, all but the last layer are listed.
proof fn lemma_used_indices_almost_full(used: Seq<bool>, n: int)
    requires
        0 < n <= used.len(),
        forall|i: int| 0 <= i < n - 1 ==> used[i],
        !used[n - 1],
    ensures
        used_indices(used, n).len() == n - 1,
{
    lemma_used_indices_full(used, n - 1);
}

/// Whether some entry of the walk routes to layer `i` and is not passed
/// over: such an entry marks the layer used.
pub open spec fn layer_matched(
    m: Seq<(Seq<char>, usize)>,
    k: int,
    entries: Seq<FsEntry>,
    i: int,
) -> bool {
    exists|e: int|
        0 <= e < entries.len() && entry_marks(#[trigger] entries[e]) && route_of(m, k, entries[e])
            == i
}

/// The layer-bound law: for a ranked package list of size `K` where every
/// package has at least one routed entry, the build produces exactly `K+1`
/// layers when some entry falls to the catch-all, and exactly `K` when
/// none does; a layer no entry routed to is never produced.
pub proof fn lemma_layer_bound(
    m: Seq<(Seq<char>, usize)>,
    k: int,
    clamps: Seq<u64>,
    entries: Seq<FsEntry>,
)
    requires
        k >= 0,
        forall|i: int| 0 <= i < k ==> #[trigger] layer_matched(m, k, entries, i),
    ensures
        ({
            let split = split_state(m, k, clamps, entries, entries.len() as int);
            let us = used_indices(split.2, k + 1);
            &&& layer_matched(m, k, entries, k) ==> us.len() == k + 1
            &&& !layer_matched(m, k, entries, k) ==> us.len() == k
        }),
{
    let n = entries.len() as int;
    let split = split_state(m, k, clamps, entries, n);
    lemma_split_len(m, k, clamps, entries, n);
    assert(split.2.len() == k + 1);
    assert forall|i: int| 0 <= i < k implies split.2[i] by {
        assert(layer_matched(m, k, entries, i));
        lemma_split_used(m, k, clamps, entries, n, i);
    }
    lemma_split_used(m, k, clamps, entries, n, k);
    if layer_matched(m, k, entries, k) {
        assert(split.2[k]);
        lemma_used_indices_full(split.2, k + 1);
    } else {
        assert(!split.2[k]);
        lemma_used_indices_almost_full(split.2, k + 1);
    }
}


/// The layer streams are deterministic: two walks of subtrees with equal
/// contents produce equal streams, tables and used flags for every layer,
/// whatever the actual mtimes of entries above their layer's clamp time.
pub proof fn lemma_split_deterministic(
    m: Seq<(Seq<char>, usize)>,
    k: int,
    clamps: Seq<u64>,
    e1: Seq<FsEntry>,
    e2: Seq<FsEntry>,
)
    requires
        k >= 0,
        e1.len() == e2.len(),
        forall|i: int|
            0 <= i < e1.len() ==> entry_like_but_mtime(#[trigger] e1[i], #[trigger] e2[i]) && (
            e1[i].mtime == e2[i].mtime || (e1[i].mtime > clamps[route_of(m, k, e1[i])]
                && e2[i].mtime > clamps[route_of(m, k, e2[i])])),
    ensures
        split_state(m, k, clamps, e1, e1.len() as int) == split_state(
            m,
            k,
            clamps,
            e2,
            e2.len() as int,
        ),
{
    lemma_split_like(m, k, clamps, e1, e2, e1.len() as int);
}

proof fn lemma_split_like(
    m: Seq<(Seq<char>, usize)>,
    k: int,
    clamps: Seq<u64>,
    e1: Seq<FsEntry>,
    e2: Seq<FsEntry>,
    n: int,
)
    requires
        k >= 0,
        e1.len() == e2.len(),
        n <= e1.len(),
        forall|i: int|
            0 <= i < e1.len() ==> entry_like_but_mtime(#[trigger] e1[i], #[trigger] e2[i]) && (
            e1[i].mtime == e2[i].mtime || (e1[i].mtime > clamps[route_of(m, k, e1[i])]
                && e2[i].mtime > clamps[route_of(m, k, e2[i])])),
    ensures
        split_state(m, k, clamps, e1, n) == split_state(m, k, clamps, e2, n),
    decreases n,
{
    if n > 0 {
        lemma_split_like(m, k, clamps, e1, e2, n - 1);
        let prev = split_state(m, k, clamps, e1, n - 1);
        assert(e1[n - 1].path@ == e2[n - 1].path@);
        assert(route_of(m, k, e1[n - 1]) == route_of(m, k, e2[n - 1]));
        let r = route_of(m, k, e1[n - 1]);
        lemma_entry_emit_like(e1[n - 1], e2[n - 1], clamps[r], prev.1);
        assert(entry_marks(e1[n - 1]) == entry_marks(e2[n - 1]));
    }
}

} // verus!
