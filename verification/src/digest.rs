//! Content digests: an incremental SHA-256 writer and lowercase hex encoding.
//!
//! A layer's diff id is the digest of the uncompressed tar stream, and a
//! blob's content address is the digest of the stored bytes; both are the
//! lowercase hex form of a SHA-256 digest.

use vstd::prelude::*;

verus! {

/// The lowercase hex digit for a nibble value.
pub open spec fn hex_digit(n: u8) -> char
    recommends
        n < 16,
{
    if n == 0 {
        '0'
    } else if n == 1 {
        '1'
    } else if n == 2 {
        '2'
    } else if n == 3 {
        '3'
    } else if n == 4 {
        '4'
    } else if n == 5 {
        '5'
    } else if n == 6 {
        '6'
    } else if n == 7 {
        '7'
    } else if n == 8 {
        '8'
    } else if n == 9 {
        '9'
    } else if n == 10 {
        'a'
    } else if n == 11 {
        'b'
    } else if n == 12 {
        'c'
    } else if n == 13 {
        'd'
    } else if n == 14 {
        'e'
    } else {
        'f'
    }
}

/// Lowercase hex encoding of a byte sequence: two digits for each byte,
/// high nibble first.
pub open spec fn hex_of(bytes: Seq<u8>) -> Seq<char> {
    Seq::new(
        bytes.len() * 2,
        |i: int|
            if i % 2 == 0 {
                hex_digit(bytes[i / 2] / 16)
            } else {
                hex_digit(bytes[i / 2] % 16)
            },
    )
}

/// What SHA-256 returns for a byte sequence; computed by openssl.
pub uninterp spec fn sha256_of(bytes: Seq<u8>) -> Seq<u8>;

#[verifier::external_type_specification]
#[verifier::external_body]
pub struct ExSha256(openssl::sha::Sha256);

/// Wraps a byte sink and computes the SHA-256 digest of everything written
/// through it.  `fed` is the ghost record of the bytes the hasher has seen;
/// the sink receives exactly the same bytes.
pub struct Sha256Writer {
    hasher: openssl::sha::Sha256,
    sink: Vec<u8>,
    fed: Ghost<Seq<u8>>,
}

impl Sha256Writer {
    pub closed spec fn bytes_fed(&self) -> Seq<u8> {
        self.fed@
    }

    pub closed spec fn sink_bytes(&self) -> Seq<u8> {
        self.sink@
    }

    /// Relies on openssl::sha::Sha256::new: a fresh hasher has seen no bytes.
    #[verifier::external_body]
    pub fn new() -> (w: Sha256Writer)
        ensures
            w.bytes_fed() == Seq::<u8>::empty(),
            w.sink_bytes() == Seq::<u8>::empty(),
    {
        Sha256Writer { hasher: openssl::sha::Sha256::new(), sink: Vec::new(), fed: Ghost(Seq::empty()) }
    }

    /// Relies on openssl::sha::Sha256::update: feeding bytes appends them to
    /// what the hasher has seen.  The same bytes go to the sink.
    #[verifier::external_body]
    pub fn write(&mut self, buf: &[u8])
        ensures
            final(self).bytes_fed() == old(self).bytes_fed() + buf@,
            final(self).sink_bytes() == old(self).sink_bytes() + buf@,
    {
        self.hasher.update(buf);
        self.sink.extend_from_slice(buf);
    }

    /// Relies on openssl::sha::Sha256::finish: the digest is 32 bytes and a
    /// function of the fed bytes alone.
    #[verifier::external_body]
    pub fn finish(self) -> (r: (Vec<u8>, Vec<u8>))
        ensures
            r.0@ == sha256_of(self.bytes_fed()),
            r.0@.len() == 32,
            r.1@ == self.sink_bytes(),
    {
        (self.hasher.finish().to_vec(), self.sink)
    }
}

/// Relies on hex::encode: lowercase hex, two digits for each byte, high
/// nibble first.
#[verifier::external_body]
pub fn to_hex(bytes: &Vec<u8>) -> (r: String)
    ensures
        r@ == hex_of(bytes@),
{
    hex::encode(bytes)
}

/// The lowercase hex SHA-256 digest of a byte sequence, as a string.
pub fn sha256_hex(bytes: &Vec<u8>) -> (r: String)
    ensures
        r@ == hex_of(sha256_of(bytes@)),
        r@.len() == 64,
{
    let mut w = Sha256Writer::new();
    w.write(bytes.as_slice());
    let (digest, _sink) = w.finish();
    to_hex(&digest)
}

} // verus!
