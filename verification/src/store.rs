//! The OCI image store, modelled as values.
//!
//! Blobs are content-addressed: a blob's descriptor carries the lowercase
//! hex SHA-256 of its bytes, its media type and its size.  The manifest,
//! configuration and index are emitted as JSON byte streams pinned exactly
//! by spec functions, so their digests are reproducible.  The index holds
//! at most one manifest descriptor per tag: inserting under an existing tag
//! replaces the prior holder.

use crate::digest::{hex_of, sha256_hex, sha256_of};
use crate::json::{json_string, push_json_string, push_json_u64, push_lit};
use crate::pax::dec_bytes;
use vstd::prelude::*;
use vstd::string::StringSliceAdditionalSpecFns;
use vstd::string::StringExecFns;
use vstd::utf8::encode_utf8;

verus! {

/// The UTF-8 bytes of a character sequence.
pub open spec fn sbytes(s: Seq<char>) -> Seq<u8> {
    encode_utf8(s)
}

/// Media types of the blobs the store writes.
#[derive(Debug, Clone, Copy, PartialEq, Eq, Structural)]
pub enum MediaType {
    /// An image manifest.
    ImageManifest,
    /// An image configuration.
    ImageConfig,
    /// A gzip-compressed layer.
    ImageLayerGzip,
    /// A Zstandard-compressed layer.
    ImageLayerZstd,
}

impl MediaType {
    /// The media type's wire name.
    pub open spec fn str_spec(self) -> Seq<char> {
        match self {
            MediaType::ImageManifest => "application/vnd.oci.image.manifest.v1+json"@,
            MediaType::ImageConfig => "application/vnd.oci.image.config.v1+json"@,
            MediaType::ImageLayerGzip => "application/vnd.oci.image.layer.v1.tar+gzip"@,
            MediaType::ImageLayerZstd => "application/vnd.oci.image.layer.v1.tar+zstd"@,
        }
    }

    /// The media type's wire name.
    pub fn as_str(&self) -> (r: &str)
        ensures
            r@ == self.str_spec(),
    {
        match self {
            MediaType::ImageManifest => "application/vnd.oci.image.manifest.v1+json",
            MediaType::ImageConfig => "application/vnd.oci.image.config.v1+json",
            MediaType::ImageLayerGzip => "application/vnd.oci.image.layer.v1.tar+gzip",
            MediaType::ImageLayerZstd => "application/vnd.oci.image.layer.v1.tar+zstd",
        }
    }
}

/// Identifies a blob: its content address, media type and size, with an
/// optional tag annotation.  Computed, never hand-edited.
pub struct Descriptor {
    /// The blob's media type.
    pub media_type: MediaType,
    /// The blob's content address, `sha256:` followed by lowercase hex.
    pub digest: String,
    /// The blob's size in bytes.
    pub size: u64,
    /// The tag this descriptor is annotated with, if any.
    pub tag: Option<String>,
}

/// The JSON form of a descriptor.
pub open spec fn json_descriptor(d: Descriptor) -> Seq<u8> {
    "{\"mediaType\":".spec_bytes() + json_string(sbytes(d.media_type.str_spec()))
        + ",\"digest\":".spec_bytes() + json_string(sbytes(d.digest@)) + ",\"size\":".spec_bytes()
        + dec_bytes(d.size as nat) + (match d.tag {
        Some(t) => ",\"annotations\":{\"org.opencontainers.image.ref.name\":".spec_bytes()
            + json_string(sbytes(t@)) + "}".spec_bytes(),
        None => Seq::<u8>::empty(),
    }) + "}".spec_bytes()
}

/// Append the JSON form of a descriptor.
pub fn push_descriptor(out: &mut Vec<u8>, d: &Descriptor)
    ensures
        final(out)@ == old(out)@ + json_descriptor(*d),
{
    push_lit(out, "{\"mediaType\":");
    push_json_string(out, d.media_type.as_str());
    push_lit(out, ",\"digest\":");
    push_json_string(out, d.digest.as_str());
    push_lit(out, ",\"size\":");
    push_json_u64(out, d.size);
    match &d.tag {
        Option::Some(t) => {
            push_lit(out, ",\"annotations\":{\"org.opencontainers.image.ref.name\":");
            push_json_string(out, t.as_str());
            push_lit(out, "}");
        },
        Option::None => {},
    }
    push_lit(out, "}");
    assert(final(out)@ =~= old(out)@ + json_descriptor(*d));
}

/// The JSON forms of a run of descriptors, comma-separated.
pub open spec fn json_descriptor_list(ds: Seq<Descriptor>) -> Seq<u8>
    decreases ds.len(),
{
    if ds.len() == 0 {
        Seq::<u8>::empty()
    } else if ds.len() == 1 {
        json_descriptor(ds[0])
    } else {
        json_descriptor_list(ds.drop_last()) + ",".spec_bytes() + json_descriptor(ds.last())
    }
}

/// Append the comma-separated JSON forms of the descriptors.
pub fn push_descriptor_list(out: &mut Vec<u8>, ds: &Vec<Descriptor>)
    ensures
        final(out)@ == old(out)@ + json_descriptor_list(ds@),
{
    let mut i: usize = 0;
    proof {
        assert(ds@.take(0) =~= Seq::<Descriptor>::empty());
        assert(out@ =~= old(out)@ + json_descriptor_list(ds@.take(0)));
    }
    while i < ds.len()
        invariant
            i <= ds@.len(),
            out@ == old(out)@ + json_descriptor_list(ds@.take(i as int)),
        decreases ds@.len() - i,
    {
        if i > 0 {
            push_lit(out, ",");
        }
        push_descriptor(out, &ds[i]);
        proof {
            assert(ds@.take(i + 1).drop_last() =~= ds@.take(i as int));
            assert(ds@.take(i + 1).last() == ds@[i as int]);
            assert(out@ =~= old(out)@ + json_descriptor_list(ds@.take(i + 1)));
        }
        i = i + 1;
    }
    proof {
        assert(ds@.take(ds@.len() as int) =~= ds@);
    }
}

/// An image manifest: a config descriptor and an ordered run of layer
/// descriptors.
pub struct Manifest {
    /// The manifest schema version.
    pub schema_version: u64,
    /// The descriptor of the image configuration blob.
    pub config: Descriptor,
    /// The descriptors of the layer blobs, in order.
    pub layers: Vec<Descriptor>,
}

/// The JSON form of a manifest.
pub open spec fn json_manifest(m: Manifest) -> Seq<u8> {
    "{\"schemaVersion\":".spec_bytes() + dec_bytes(m.schema_version as nat)
        + ",\"mediaType\":\"application/vnd.oci.image.manifest.v1+json\",\"config\":".spec_bytes()
        + json_descriptor(m.config) + ",\"layers\":[".spec_bytes() + json_descriptor_list(
        m.layers@,
    ) + "]}".spec_bytes()
}

/// Serialize a manifest as JSON.
pub fn manifest_json(m: &Manifest) -> (r: Vec<u8>)
    ensures
        r@ == json_manifest(*m),
{
    let mut out: Vec<u8> = Vec::new();
    push_lit(&mut out, "{\"schemaVersion\":");
    push_json_u64(&mut out, m.schema_version);
    push_lit(&mut out, ",\"mediaType\":\"application/vnd.oci.image.manifest.v1+json\",\"config\":");
    push_descriptor(&mut out, &m.config);
    push_lit(&mut out, ",\"layers\":[");
    push_descriptor_list(&mut out, &m.layers);
    push_lit(&mut out, "]}");
    proof {
        assert(out@ =~= json_manifest(*m));
    }
    out
}

/// An image index: the set of manifest descriptors, each optionally
/// annotated with a tag.
pub struct ImageIndex {
    /// The index schema version.
    pub schema_version: u64,
    /// The manifest descriptors.
    pub manifests: Vec<Descriptor>,
}

/// The JSON form of an index.
pub open spec fn json_index(ix: ImageIndex) -> Seq<u8> {
    "{\"schemaVersion\":".spec_bytes() + dec_bytes(ix.schema_version as nat)
        + ",\"manifests\":[".spec_bytes() + json_descriptor_list(ix.manifests@)
        + "]}".spec_bytes()
}

/// Serialize an index as JSON.
pub fn index_json(ix: &ImageIndex) -> (r: Vec<u8>)
    ensures
        r@ == json_index(*ix),
{
    let mut out: Vec<u8> = Vec::new();
    push_lit(&mut out, "{\"schemaVersion\":");
    push_json_u64(&mut out, ix.schema_version);
    push_lit(&mut out, ",\"manifests\":[");
    push_descriptor_list(&mut out, &ix.manifests);
    push_lit(&mut out, "]}");
    proof {
        assert(out@ =~= json_index(*ix));
    }
    out
}

/// A fresh, empty index.
pub fn empty_index() -> (ix: ImageIndex)
    ensures
        ix.schema_version == 2,
        ix.manifests@ == Seq::<Descriptor>::empty(),
{
    ImageIndex { schema_version: 2, manifests: Vec::new() }
}

/// The content of a fresh `oci-layout` file.
pub fn oci_layout_json() -> (r: Vec<u8>)
    ensures
        r@ == "{\"imageLayoutVersion\":\"1.0.0\"}".spec_bytes(),
{
    let mut out: Vec<u8> = Vec::new();
    push_lit(&mut out, "{\"imageLayoutVersion\":\"1.0.0\"}");
    proof {
        assert(out@ =~= "{\"imageLayoutVersion\":\"1.0.0\"}".spec_bytes());
    }
    out
}

/// The descriptor of a blob: its content address is the lowercase hex
/// SHA-256 of its bytes, prefixed `sha256:`; its size is its byte count.
pub fn blob_descriptor(bytes: &Vec<u8>, media_type: MediaType) -> (d: Descriptor)
    ensures
        d.digest@ == "sha256:"@ + hex_of(sha256_of(bytes@)),
        d.size == bytes@.len(),
        d.media_type == media_type,
        d.tag is None,
{
    let hex = sha256_hex(bytes);
    let mut digest = String::from_str("sha256:");
    digest.append(hex.as_str());
    Descriptor { media_type, digest, size: bytes.len() as u64, tag: None }
}


/// The JSON forms of a run of strings, comma-separated.
pub open spec fn json_string_list(ss: Seq<String>) -> Seq<u8>
    decreases ss.len(),
{
    if ss.len() == 0 {
        Seq::<u8>::empty()
    } else if ss.len() == 1 {
        json_string(sbytes(ss[0]@))
    } else {
        json_string_list(ss.drop_last()) + ",".spec_bytes() + json_string(sbytes(ss.last()@))
    }
}

/// Append the comma-separated JSON forms of the strings.
pub fn push_string_list(out: &mut Vec<u8>, ss: &Vec<String>)
    ensures
        final(out)@ == old(out)@ + json_string_list(ss@),
{
    let mut i: usize = 0;
    proof {
        assert(ss@.take(0) =~= Seq::<String>::empty());
        assert(out@ =~= old(out)@ + json_string_list(ss@.take(0)));
    }
    while i < ss.len()
        invariant
            i <= ss@.len(),
            out@ == old(out)@ + json_string_list(ss@.take(i as int)),
        decreases ss@.len() - i,
    {
        if i > 0 {
            push_lit(out, ",");
        }
        push_json_string(out, ss[i].as_str());
        proof {
            assert(ss@.take(i + 1).drop_last() =~= ss@.take(i as int));
            assert(ss@.take(i + 1).last() == ss@[i as int]);
            assert(out@ =~= old(out)@ + json_string_list(ss@.take(i + 1)));
        }
        i = i + 1;
    }
    proof {
        assert(ss@.take(ss@.len() as int) =~= ss@);
    }
}

/// The JSON object mapping each name to an empty object, as the image
/// configuration writes port and volume sets.
pub open spec fn json_empty_object_map(ss: Seq<String>) -> Seq<u8>
    decreases ss.len(),
{
    if ss.len() == 0 {
        Seq::<u8>::empty()
    } else if ss.len() == 1 {
        json_string(sbytes(ss[0]@)) + ":{}".spec_bytes()
    } else {
        json_empty_object_map(ss.drop_last()) + ",".spec_bytes() + json_string(
            sbytes(ss.last()@),
        ) + ":{}".spec_bytes()
    }
}

/// Append the members of an object mapping each name to an empty object.
pub fn push_empty_object_map(out: &mut Vec<u8>, ss: &Vec<String>)
    ensures
        final(out)@ == old(out)@ + json_empty_object_map(ss@),
{
    let mut i: usize = 0;
    proof {
        assert(ss@.take(0) =~= Seq::<String>::empty());
        assert(out@ =~= old(out)@ + json_empty_object_map(ss@.take(0)));
    }
    while i < ss.len()
        invariant
            i <= ss@.len(),
            out@ == old(out)@ + json_empty_object_map(ss@.take(i as int)),
        decreases ss@.len() - i,
    {
        if i > 0 {
            push_lit(out, ",");
        }
        push_json_string(out, ss[i].as_str());
        push_lit(out, ":{}");
        proof {
            assert(ss@.take(i + 1).drop_last() =~= ss@.take(i as int));
            assert(ss@.take(i + 1).last() == ss@[i as int]);
            assert(out@ =~= old(out)@ + json_empty_object_map(ss@.take(i + 1)));
        }
        i = i + 1;
    }
    proof {
        assert(ss@.take(ss@.len() as int) =~= ss@);
    }
}

/// The members of a JSON object mapping keys to string values.
pub open spec fn json_string_map(ps: Seq<(String, String)>) -> Seq<u8>
    decreases ps.len(),
{
    if ps.len() == 0 {
        Seq::<u8>::empty()
    } else if ps.len() == 1 {
        json_string(sbytes(ps[0].0@)) + ":".spec_bytes() + json_string(sbytes(ps[0].1@))
    } else {
        json_string_map(ps.drop_last()) + ",".spec_bytes() + json_string(sbytes(ps.last().0@))
            + ":".spec_bytes() + json_string(sbytes(ps.last().1@))
    }
}

/// Append the members of an object mapping keys to string values.
pub fn push_string_map(out: &mut Vec<u8>, ps: &Vec<(String, String)>)
    ensures
        final(out)@ == old(out)@ + json_string_map(ps@),
{
    let mut i: usize = 0;
    proof {
        assert(ps@.take(0) =~= Seq::<(String, String)>::empty());
        assert(out@ =~= old(out)@ + json_string_map(ps@.take(0)));
    }
    while i < ps.len()
        invariant
            i <= ps@.len(),
            out@ == old(out)@ + json_string_map(ps@.take(i as int)),
        decreases ps@.len() - i,
    {
        if i > 0 {
            push_lit(out, ",");
        }
        push_json_string(out, ps[i].0.as_str());
        push_lit(out, ":");
        push_json_string(out, ps[i].1.as_str());
        proof {
            assert(ps@.take(i + 1).drop_last() =~= ps@.take(i as int));
            assert(ps@.take(i + 1).last() == ps@[i as int]);
            assert(out@ =~= old(out)@ + json_string_map(ps@.take(i + 1)));
        }
        i = i + 1;
    }
    proof {
        assert(ps@.take(ps@.len() as int) =~= ps@);
    }
}

/// The runtime half of an image configuration: what the container runs as.
pub struct RunConfig {
    /// The user the process runs as, if set.
    pub user: Option<String>,
    /// The set of exposed ports.
    pub exposed_ports: Vec<String>,
    /// Environment entries, each `KEY=VALUE`.
    pub env: Vec<String>,
    /// The entrypoint argument list.
    pub entrypoint: Vec<String>,
    /// The default command argument list.
    pub cmd: Vec<String>,
    /// The set of volume mount points.
    pub volumes: Vec<String>,
    /// The working directory, if set.
    pub workingdir: Option<String>,
    /// Image labels as key/value pairs.
    pub labels: Vec<(String, String)>,
    /// The stop signal, if set.
    pub stopsignal: Option<String>,
}

/// The opening half of the runtime configuration object: user, ports,
/// environment, entrypoint and command.
pub open spec fn json_run_config_head(c: RunConfig) -> Seq<u8> {
    "{".spec_bytes() + (match c.user {
        Some(u) => "\"User\":".spec_bytes() + json_string(sbytes(u@)) + ",".spec_bytes(),
        None => Seq::<u8>::empty(),
    }) + "\"ExposedPorts\":{".spec_bytes() + json_empty_object_map(c.exposed_ports@)
        + "},\"Env\":[".spec_bytes() + json_string_list(c.env@)
        + "],\"Entrypoint\":[".spec_bytes() + json_string_list(c.entrypoint@)
        + "],\"Cmd\":[".spec_bytes() + json_string_list(c.cmd@)
}

/// The closing half of the runtime configuration object: volumes, working
/// directory, labels and stop signal.
pub open spec fn json_run_config_tail(c: RunConfig) -> Seq<u8> {
    "],\"Volumes\":{".spec_bytes() + json_empty_object_map(c.volumes@) + "}".spec_bytes() + (
    match c.workingdir {
        Some(w) => ",\"WorkingDir\":".spec_bytes() + json_string(sbytes(w@)),
        None => Seq::<u8>::empty(),
    }) + ",\"Labels\":{".spec_bytes() + json_string_map(c.labels@) + "}".spec_bytes() + (
    match c.stopsignal {
        Some(g) => ",\"StopSignal\":".spec_bytes() + json_string(sbytes(g@)),
        None => Seq::<u8>::empty(),
    }) + "}".spec_bytes()
}

/// The JSON form of the runtime configuration object.
pub open spec fn json_run_config(c: RunConfig) -> Seq<u8> {
    json_run_config_head(c) + json_run_config_tail(c)
}

/// Append the opening half of the runtime configuration object.
#[verifier::rlimit(100)]
fn push_run_config_head(out: &mut Vec<u8>, c: &RunConfig)
    ensures
        final(out)@ == old(out)@ + json_run_config_head(*c),
{
    push_lit(out, "{");
    match &c.user {
        Option::Some(u) => {
            push_lit(out, "\"User\":");
            push_json_string(out, u.as_str());
            push_lit(out, ",");
        },
        Option::None => {},
    }
    push_lit(out, "\"ExposedPorts\":{");
    push_empty_object_map(out, &c.exposed_ports);
    push_lit(out, "},\"Env\":[");
    push_string_list(out, &c.env);
    push_lit(out, "],\"Entrypoint\":[");
    push_string_list(out, &c.entrypoint);
    push_lit(out, "],\"Cmd\":[");
    push_string_list(out, &c.cmd);
    proof {
        assert(out@ =~= old(out)@ + json_run_config_head(*c));
    }
}

/// Append the closing half of the runtime configuration object.
#[verifier::rlimit(100)]
fn push_run_config_tail(out: &mut Vec<u8>, c: &RunConfig)
    ensures
        final(out)@ == old(out)@ + json_run_config_tail(*c),
{
    push_lit(out, "],\"Volumes\":{");
    push_empty_object_map(out, &c.volumes);
    push_lit(out, "}");
    match &c.workingdir {
        Option::Some(w) => {
            push_lit(out, ",\"WorkingDir\":");
            push_json_string(out, w.as_str());
        },
        Option::None => {},
    }
    push_lit(out, ",\"Labels\":{");
    push_string_map(out, &c.labels);
    push_lit(out, "}");
    match &c.stopsignal {
        Option::Some(g) => {
            push_lit(out, ",\"StopSignal\":");
            push_json_string(out, g.as_str());
        },
        Option::None => {},
    }
    push_lit(out, "}");
    proof {
        assert(out@ =~= old(out)@ + json_run_config_tail(*c));
    }
}

/// Append the JSON form of the runtime configuration.
pub fn push_run_config(out: &mut Vec<u8>, c: &RunConfig)
    ensures
        final(out)@ == old(out)@ + json_run_config(*c),
{
    push_run_config_head(out, c);
    push_run_config_tail(out, c);
    proof {
        assert(out@ =~= old(out)@ + json_run_config(*c));
    }
}

/// One history entry: when a layer was created and by what.
pub struct HistoryEntry {
    /// Creation time, RFC 3339.
    pub created: String,
    /// The tool and package that produced the layer.
    pub created_by: String,
}

/// The JSON forms of a run of history entries, comma-separated.
pub open spec fn json_history_list(hs: Seq<HistoryEntry>) -> Seq<u8>
    decreases hs.len(),
{
    if hs.len() == 0 {
        Seq::<u8>::empty()
    } else if hs.len() == 1 {
        json_history_entry(hs[0])
    } else {
        json_history_list(hs.drop_last()) + ",".spec_bytes() + json_history_entry(hs.last())
    }
}

/// The JSON form of one history entry.
pub open spec fn json_history_entry(h: HistoryEntry) -> Seq<u8> {
    "{\"created\":".spec_bytes() + json_string(sbytes(h.created@))
        + ",\"created_by\":".spec_bytes() + json_string(sbytes(h.created_by@))
        + "}".spec_bytes()
}

/// Append the comma-separated JSON forms of the history entries.
pub fn push_history_list(out: &mut Vec<u8>, hs: &Vec<HistoryEntry>)
    ensures
        final(out)@ == old(out)@ + json_history_list(hs@),
{
    let mut i: usize = 0;
    proof {
        assert(hs@.take(0) =~= Seq::<HistoryEntry>::empty());
        assert(out@ =~= old(out)@ + json_history_list(hs@.take(0)));
    }
    while i < hs.len()
        invariant
            i <= hs@.len(),
            out@ == old(out)@ + json_history_list(hs@.take(i as int)),
        decreases hs@.len() - i,
    {
        if i > 0 {
            push_lit(out, ",");
        }
        push_lit(out, "{\"created\":");
        push_json_string(out, hs[i].created.as_str());
        push_lit(out, ",\"created_by\":");
        push_json_string(out, hs[i].created_by.as_str());
        push_lit(out, "}");
        proof {
            assert(hs@.take(i + 1).drop_last() =~= hs@.take(i as int));
            assert(hs@.take(i + 1).last() == hs@[i as int]);
            assert(out@ =~= old(out)@ + json_history_list(hs@.take(i + 1)));
        }
        i = i + 1;
    }
    proof {
        assert(hs@.take(hs@.len() as int) =~= hs@);
    }
}

/// An image configuration: the runtime config plus the ordered diff ids of
/// the layers and their history.
pub struct ImageConfiguration {
    /// Creation time, RFC 3339.
    pub created: String,
    /// The image author, if set.
    pub author: Option<String>,
    /// The target architecture.
    pub architecture: String,
    /// The target operating system.
    pub os: String,
    /// The runtime configuration.
    pub config: RunConfig,
    /// One diff id per layer, `sha256:` hex of the uncompressed stream, in
    /// the same order as the manifest's layers.
    pub diff_ids: Vec<String>,
    /// One history entry per layer, in the same order.
    pub history: Vec<HistoryEntry>,
}

/// The JSON form of an image configuration.
pub open spec fn json_image_config(c: ImageConfiguration) -> Seq<u8> {
    "{\"created\":".spec_bytes() + json_string(sbytes(c.created@)) + (match c.author {
        Some(a) => ",\"author\":".spec_bytes() + json_string(sbytes(a@)),
        None => Seq::<u8>::empty(),
    }) + ",\"architecture\":".spec_bytes() + json_string(sbytes(c.architecture@))
        + ",\"os\":".spec_bytes() + json_string(sbytes(c.os@)) + ",\"config\":".spec_bytes()
        + json_run_config(c.config)
        + ",\"rootfs\":{\"type\":\"layers\",\"diff_ids\":[".spec_bytes() + json_string_list(
        c.diff_ids@,
    ) + "]},\"history\":[".spec_bytes() + json_history_list(c.history@) + "]}".spec_bytes()
}

/// Serialize an image configuration as JSON.
pub fn image_config_json(c: &ImageConfiguration) -> (r: Vec<u8>)
    ensures
        r@ == json_image_config(*c),
{
    let mut out: Vec<u8> = Vec::new();
    push_lit(&mut out, "{\"created\":");
    push_json_string(&mut out, c.created.as_str());
    match &c.author {
        Option::Some(a) => {
            push_lit(&mut out, ",\"author\":");
            push_json_string(&mut out, a.as_str());
        },
        Option::None => {},
    }
    push_lit(&mut out, ",\"architecture\":");
    push_json_string(&mut out, c.architecture.as_str());
    push_lit(&mut out, ",\"os\":");
    push_json_string(&mut out, c.os.as_str());
    push_lit(&mut out, ",\"config\":");
    push_run_config(&mut out, &c.config);
    push_lit(&mut out, ",\"rootfs\":{\"type\":\"layers\",\"diff_ids\":[");
    push_string_list(&mut out, &c.diff_ids);
    push_lit(&mut out, "]},\"history\":[");
    push_history_list(&mut out, &c.history);
    push_lit(&mut out, "]}");
    proof {
        assert(out@ =~= json_image_config(*c));
    }
    out
}


impl Clone for Descriptor {
    /// A descriptor's clone carries the same values.
    fn clone(&self) -> (r: Self)
        ensures
            r == *self,
    {
        Descriptor {
            media_type: self.media_type,
            digest: self.digest.clone(),
            size: self.size,
            tag: match &self.tag {
                Option::Some(t) => Some(t.clone()),
                Option::None => None,
            },
        }
    }
}

/// A produced layer: the stored blob's descriptor and the digest of the
/// uncompressed stream, the layer's diff id.
pub struct Layer {
    /// The descriptor of the compressed blob as stored.
    pub blob: Descriptor,
    /// `sha256:` hex of the uncompressed tar stream.
    pub diff_id: String,
}

/// A manifest and a configuration stay index-aligned: one diff id and one
/// history entry per layer.
pub open spec fn aligned(m: Manifest, c: ImageConfiguration) -> bool {
    &&& m.layers@.len() == c.diff_ids@.len()
    &&& c.history@.len() == c.diff_ids@.len()
}

/// Append a layer to a manifest and configuration in step: the blob
/// descriptor to the manifest's layers, the diff id to the configuration's
/// rootfs, and a history entry naming what created it.
pub fn push_layer(
    m: &mut Manifest,
    c: &mut ImageConfiguration,
    layer: Layer,
    created_by: String,
    created: String,
)
    ensures
        final(m).layers@ == old(m).layers@.push(layer.blob),
        final(m).config == old(m).config,
        final(m).schema_version == old(m).schema_version,
        final(c).diff_ids@ == old(c).diff_ids@.push(layer.diff_id),
        final(c).history@ == old(c).history@.push(
            (HistoryEntry { created: created, created_by: created_by }),
        ),
        final(c).created == old(c).created,
        final(c).author == old(c).author,
        final(c).architecture == old(c).architecture,
        final(c).os == old(c).os,
        final(c).config == old(c).config,
        aligned(*old(m), *old(c)) ==> aligned(*final(m), *final(c)),
{
    m.layers.push(layer.blob);
    c.diff_ids.push(layer.diff_id);
    c.history.push(HistoryEntry { created, created_by });
}

/// Whether a descriptor carries the tag as its annotation.
pub open spec fn has_tag(d: Descriptor, tag: Seq<char>) -> bool {
    match d.tag {
        Some(t) => t@ == tag,
        None => false,
    }
}

/// The index entries that do not carry the tag, in their original order.
pub open spec fn retain_untagged(ms: Seq<Descriptor>, tag: Seq<char>) -> Seq<Descriptor>
    decreases ms.len(),
{
    if ms.len() == 0 {
        Seq::<Descriptor>::empty()
    } else if has_tag(ms.last(), tag) {
        retain_untagged(ms.drop_last(), tag)
    } else {
        retain_untagged(ms.drop_last(), tag).push(ms.last())
    }
}

/// What the index holds after inserting a manifest descriptor: with a tag,
/// any prior holder of that tag is removed and the new descriptor appended;
/// without one, the descriptor is appended.
pub open spec fn index_insert_spec(ms: Seq<Descriptor>, d: Descriptor) -> Seq<Descriptor> {
    match d.tag {
        Some(t) => retain_untagged(ms, t@).push(d),
        None => ms.push(d),
    }
}

/// Insert a manifest descriptor into the index, replacing any prior holder
/// of its tag.  This is the single mutation point for which image a tag
/// names.
pub fn index_insert(ix: &mut ImageIndex, d: Descriptor)
    ensures
        final(ix).manifests@ == index_insert_spec(old(ix).manifests@, d),
        final(ix).schema_version == old(ix).schema_version,
{
    match &d.tag {
        Option::None => {
            ix.manifests.push(d);
        },
        Option::Some(t) => {
            let ghost ms0 = ix.manifests@;
            let ghost tag = t@;
            let mut kept: Vec<Descriptor> = Vec::new();
            let mut i: usize = 0;
            proof {
                assert(ms0.take(0) =~= Seq::<Descriptor>::empty());
            }
            while i < ix.manifests.len()
                invariant
                    i <= ms0.len(),
                    ix.manifests@ == ms0,
                    d.tag == Some(*t),
                    tag == t@,
                    kept@ == retain_untagged(ms0.take(i as int), tag),
                decreases ms0.len() - i,
            {
                let keep = match &ix.manifests[i].tag {
                    Option::Some(other) => !t.eq(other),
                    Option::None => true,
                };
                if keep {
                    kept.push(ix.manifests[i].clone());
                }
                proof {
                    assert(ms0.take(i + 1).drop_last() =~= ms0.take(i as int));
                    assert(ms0.take(i + 1).last() == ms0[i as int]);
                }
                i = i + 1;
            }
            proof {
                assert(ms0.take(ms0.len() as int) =~= ms0);
            }
            kept.push(d);
            ix.manifests = kept;
        },
    }
}

/// Every survivor of the removal lacks the tag.
proof fn lemma_retain_untagged_all(ms: Seq<Descriptor>, tag: Seq<char>)
    ensures
        forall|i: int|
            0 <= i < retain_untagged(ms, tag).len() ==> !has_tag(
                #[trigger] retain_untagged(ms, tag)[i],
                tag,
            ),
    decreases ms.len(),
{
    if ms.len() > 0 {
        lemma_retain_untagged_all(ms.drop_last(), tag);
        let r = retain_untagged(ms, tag);
        let rp = retain_untagged(ms.drop_last(), tag);
        if !has_tag(ms.last(), tag) {
            assert(forall|i: int| 0 <= i < rp.len() ==> r[i] == #[trigger] rp[i]);
            assert(r[r.len() - 1] == ms.last());
        }
    }
}

/// Every survivor was an entry of the index.
proof fn lemma_retain_untagged_sub(ms: Seq<Descriptor>, tag: Seq<char>)
    ensures
        forall|i: int|
            0 <= i < retain_untagged(ms, tag).len() ==> exists|j: int|
                0 <= j < ms.len() && #[trigger] retain_untagged(ms, tag)[i] == ms[j],
    decreases ms.len(),
{
    if ms.len() > 0 {
        lemma_retain_untagged_sub(ms.drop_last(), tag);
        let r = retain_untagged(ms, tag);
        let rp = retain_untagged(ms.drop_last(), tag);
        assert forall|i: int| 0 <= i < r.len() implies exists|j: int|
            0 <= j < ms.len() && #[trigger] r[i] == ms[j] by {
            if i < rp.len() {
                let j0 = choose|j: int| 0 <= j < ms.drop_last().len() && rp[i] == ms.drop_last()[j];
                assert(r[i] == ms[j0]);
            } else {
                assert(r[i] == ms[ms.len() - 1]);
            }
        }
    }
}

/// Every entry without the tag survives the removal.
proof fn lemma_retain_untagged_complete(ms: Seq<Descriptor>, tag: Seq<char>)
    ensures
        forall|j: int|
            0 <= j < ms.len() && !has_tag(#[trigger] ms[j], tag) ==> exists|i: int|
                0 <= i < retain_untagged(ms, tag).len() && retain_untagged(ms, tag)[i] == ms[j],
    decreases ms.len(),
{
    if ms.len() > 0 {
        lemma_retain_untagged_complete(ms.drop_last(), tag);
        let r = retain_untagged(ms, tag);
        let rp = retain_untagged(ms.drop_last(), tag);
        assert forall|j: int| 0 <= j < ms.len() && !has_tag(#[trigger] ms[j], tag) implies exists|
            i: int,
        | 0 <= i < r.len() && r[i] == ms[j] by {
            if j < ms.len() - 1 {
                assert(ms.drop_last()[j] == ms[j]);
                let i0 = choose|i: int| 0 <= i < rp.len() && rp[i] == ms.drop_last()[j];
                assert(r[i0] == ms[j]);
            } else {
                assert(r[r.len() - 1] == ms[j]);
            }
        }
    }
}

/// The index-tag-replace law: after inserting a manifest descriptor under a
/// tag, exactly one index entry carries that tag — the new descriptor, in
/// last position — and the other entries are exactly the previously
/// untagged ones.
pub proof fn lemma_index_tag_replace(ms: Seq<Descriptor>, d: Descriptor, tag: Seq<char>)
    requires
        has_tag(d, tag),
    ensures
        ({
            let after = index_insert_spec(ms, d);
            &&& after.len() >= 1
            &&& after.last() == d
            &&& has_tag(after.last(), tag)
            &&& (forall|i: int| 0 <= i < after.len() - 1 ==> !has_tag(#[trigger] after[i], tag))
            &&& (forall|i: int|
                0 <= i < after.len() - 1 ==> exists|j: int|
                    0 <= j < ms.len() && #[trigger] after[i] == ms[j])
            &&& (forall|j: int|
                0 <= j < ms.len() && !has_tag(#[trigger] ms[j], tag) ==> exists|i: int|
                    0 <= i < after.len() - 1 && after[i] == ms[j])
        }),
{
    let t = d.tag->Some_0;
    assert(t@ == tag);
    lemma_retain_untagged_all(ms, tag);
    lemma_retain_untagged_sub(ms, tag);
    lemma_retain_untagged_complete(ms, tag);
    let after = index_insert_spec(ms, d);
    let r = retain_untagged(ms, tag);
    assert(after == r.push(d));
    assert(forall|i: int| 0 <= i < r.len() ==> after[i] == #[trigger] r[i]);
}

/// The layout version's major component: the characters before the first
/// dot.
pub open spec fn major_of(v: Seq<char>) -> Seq<char>
    decreases v.len(),
{
    if v.len() == 0 || v[0] == '.' {
        Seq::<char>::empty()
    } else {
        seq![v[0]] + major_of(v.drop_first())
    }
}

/// Whether an `oci-layout` version is one this store supports: its major
/// version is 1.
pub open spec fn layout_version_ok(v: Seq<char>) -> bool {
    major_of(v) == seq!['1']
}

/// Whether the layout version's major component is 1.
pub fn check_layout_version(v: &str) -> (b: bool)
    ensures
        b == layout_version_ok(v@),
{
    let n = v.unicode_len();
    if n == 0 {
        proof {
            assert(major_of(v@) =~= Seq::<char>::empty());
        }
        return false;
    }
    let c0 = v.get_char(0);
    if c0 != '1' {
        proof {
            assert(seq!['1'].len() == 1);
            assert(seq!['1'][0] == '1');
            if v@[0] == '.' {
                assert(major_of(v@) =~= Seq::<char>::empty());
            } else {
                assert(major_of(v@)[0] == v@[0]);
            }
        }
        return false;
    }
    let dot_next = n == 1 || v.get_char(1) == '.';
    proof {
        assert(seq!['1'].len() == 1);
        assert(seq!['1'][0] == '1');
        assert(major_of(v@) == seq![v@[0]] + major_of(v@.drop_first()));
        if v@.len() == 1 {
            assert(v@.drop_first() =~= Seq::<char>::empty());
            assert(major_of(v@) =~= seq!['1']);
        } else if v@[1] == '.' {
            assert(v@.drop_first()[0] == v@[1]);
            assert(major_of(v@.drop_first()) =~= Seq::<char>::empty());
            assert(major_of(v@) =~= seq!['1']);
        } else {
            assert(v@.drop_first()[0] == v@[1]);
            assert(major_of(v@.drop_first())[0] == v@[1]);
            assert(major_of(v@) != seq!['1']) by {
                assert(major_of(v@)[1] == major_of(v@.drop_first())[0]);
            }
        }
    }
    dot_next
}

/// What was found on disk where the image directory should be.
pub enum DirState {
    /// No directory exists.
    Missing,
    /// The directory exists and is empty.
    Empty,
    /// The directory exists and holds files; the `oci-layout` file's
    /// version string, if it could be read.
    Occupied {
        /// The `imageLayoutVersion` value, or nothing where the file was
        /// absent or unreadable.
        layout_version: Option<String>,
    },
}

/// What to do with the directory.
#[derive(Debug)]
pub enum InitAction {
    /// Create the layout: `blobs/sha256/`, `oci-layout`, an empty index.
    Initialize,
    /// The directory already holds a layout this store supports.
    AlreadyValid,
}

/// Why the store refused a directory.
#[derive(Debug)]
pub enum StoreError {
    /// The layout's version is one this store does not support.
    UnsupportedLayoutVersion {
        /// The version string found.
        version: String,
    },
    /// The `oci-layout` file was absent or unreadable.
    UnreadableLayout,
}

/// Decide what to do with an image directory: a missing or empty directory
/// is initialized; an occupied one must hold a readable `oci-layout` whose
/// major version is supported, else the build fails.
pub fn plan_init(state: DirState) -> (r: Result<InitAction, StoreError>)
    ensures
        match state {
            DirState::Missing => r == Ok::<InitAction, StoreError>(InitAction::Initialize),
            DirState::Empty => r == Ok::<InitAction, StoreError>(InitAction::Initialize),
            DirState::Occupied { layout_version } => match layout_version {
                None => r == Err::<InitAction, StoreError>(StoreError::UnreadableLayout),
                Some(v) => if layout_version_ok(v@) {
                    r == Ok::<InitAction, StoreError>(InitAction::AlreadyValid)
                } else {
                    r matches Err(StoreError::UnsupportedLayoutVersion { version }) && version@
                        == v@
                },
            },
        },
{
    match state {
        DirState::Missing => Ok(InitAction::Initialize),
        DirState::Empty => Ok(InitAction::Initialize),
        DirState::Occupied { layout_version } => match layout_version {
            Option::None => Err(StoreError::UnreadableLayout),
            Option::Some(v) => {
                if check_layout_version(v.as_str()) {
                    Ok(InitAction::AlreadyValid)
                } else {
                    Err(StoreError::UnsupportedLayoutVersion { version: v })
                }
            },
        },
    }
}

} // verus!
