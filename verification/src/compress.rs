//! Compression codecs for image layers.
//!
//! Both codecs turn a layer's tar stream into the stored blob bytes; the
//! output depends on the input bytes and the level alone, so blob digests
//! are reproducible.

use vstd::prelude::*;

verus! {

/// The compression codec to use for image layers.
#[derive(Debug, Clone, Copy, PartialEq, Eq, Structural)]
pub enum CompressionAlgorithm {
    /// Gzip compression.
    Gzip,
    /// Zstandard compression.
    Zstd,
}

impl Default for CompressionAlgorithm {
    /// The codec used when none is configured.
    fn default() -> (r: Self)
        ensures
            r == CompressionAlgorithm::Gzip,
    {
        CompressionAlgorithm::Gzip
    }
}

/// What gzip produces for data at a level.  flate2 writes a fixed header
/// (mtime zero, operating-system byte 255), so the output is a function of
/// the data and the level alone.
pub uninterp spec fn gzip_of(data: Seq<u8>, level: u32) -> Seq<u8>;

/// What Zstandard produces for data at a level, single-stream.
pub uninterp spec fn zstd_of(data: Seq<u8>, level: i32) -> Seq<u8>;

/// Relies on flate2::write::GzEncoder over an in-memory sink: deterministic
/// for fixed data and level, and infallible in memory for levels up to 9.
#[verifier::external_body]
fn gzip_compress(data: &Vec<u8>, level: u32) -> (r: Vec<u8>)
    requires
        level <= 9,
    ensures
        r@ == gzip_of(data@, level),
{
    let mut enc = flate2::write::GzEncoder::new(Vec::new(), flate2::Compression::new(level));
    std::io::Write::write_all(&mut enc, data.as_slice()).expect("writing to an in-memory sink");
    enc.finish().expect("writing to an in-memory sink")
}

/// Relies on zstd::bulk::compress: single-stream compression into a buffer
/// it sizes itself, deterministic for fixed data and level.
#[verifier::external_body]
fn zstd_compress(data: &Vec<u8>, level: i32) -> (r: Vec<u8>)
    requires
        0 <= level <= 19,
    ensures
        r@ == zstd_of(data@, level),
{
    zstd::bulk::compress(data.as_slice(), level).expect("compressing into an in-memory buffer")
}

/// The level a codec runs at: the configured one, else gzip's default 6 or
/// Zstandard's default 3.
pub open spec fn effective_level(alg: CompressionAlgorithm, level: Option<i32>) -> i32 {
    match level {
        Some(l) => l,
        None => match alg {
            CompressionAlgorithm::Gzip => 6,
            CompressionAlgorithm::Zstd => 3,
        },
    }
}

/// An admissible configured level for the codec.
pub open spec fn level_ok(alg: CompressionAlgorithm, level: Option<i32>) -> bool {
    match alg {
        CompressionAlgorithm::Gzip => 0 <= effective_level(alg, level) <= 9,
        CompressionAlgorithm::Zstd => 0 <= effective_level(alg, level) <= 19,
    }
}

/// The stored blob bytes for a layer stream under a codec and level.
pub open spec fn compress_spec(data: Seq<u8>, alg: CompressionAlgorithm, level: Option<i32>) -> Seq<
    u8,
> {
    match alg {
        CompressionAlgorithm::Gzip => gzip_of(data, effective_level(alg, level) as u32),
        CompressionAlgorithm::Zstd => zstd_of(data, effective_level(alg, level)),
    }
}

/// Compress a layer's tar stream into its stored blob bytes.
pub fn compress(data: &Vec<u8>, alg: CompressionAlgorithm, level: Option<i32>) -> (r: Vec<u8>)
    requires
        level_ok(alg, level),
    ensures
        r@ == compress_spec(data@, alg, level),
{
    let l: i32 = match level {
        Option::Some(l) => l,
        Option::None => match alg {
            CompressionAlgorithm::Gzip => 6,
            CompressionAlgorithm::Zstd => 3,
        },
    };
    match alg {
        CompressionAlgorithm::Gzip => gzip_compress(data, l as u32),
        CompressionAlgorithm::Zstd => zstd_compress(data, l),
    }
}

} // verus!
