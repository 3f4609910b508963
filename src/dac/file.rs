//! The compiled blocklist file: `DAC` and a version byte, the hash of the
//! automaton bytes as a little-endian u64, then the automaton bytes. The
//! hash, mixed with a hash of the application version, names the ETag marker
//! that transformed responses carry.

use crate::bytes::{copy_range, push_range};
use crate::dac::automaton::{dac_bytes, serialize_dac};
use base64::Engine;
use daachorse::DoubleArrayAhoCorasick;
use vstd::prelude::*;

verus! {

/// The XXH3 64-bit hash (seed 0) of a byte string.
pub uninterp spec fn xxh3_of(s: Seq<u8>) -> u64;

/// URL-safe base64 without padding.
pub uninterp spec fn b64_url_of(s: Seq<u8>) -> Seq<u8>;

/// Relies on xxhash-rust's `xxh3::xxh3_64`: a hash that depends on the bytes alone.
#[verifier::external_body]
fn xxh3(s: &[u8]) -> (r: u64)
    ensures
        r == xxh3_of(s@),
{
    xxhash_rust::xxh3::xxh3_64(s)
}

/// The hash of the application version that blocklist markers mix in.
pub fn version_hash(version: &[u8]) -> (r: u64)
    ensures
        r == xxh3_of(version@),
{
    xxh3(version)
}

/// Relies on base64's `URL_SAFE_NO_PAD.encode`: the encoding depends on the
/// bytes alone.
#[verifier::external_body]
fn b64_url(s: &[u8]) -> (r: Vec<u8>)
    ensures
        r@ == b64_url_of(s@),
{
    base64::engine::general_purpose::URL_SAFE_NO_PAD.encode(s).into_bytes()
}

pub open spec fn magic() -> Seq<u8> {
    seq![68u8, 65, 67, 1]
}

/// The eight little-endian bytes of `v`.
pub open spec fn le_bytes(v: u64) -> Seq<u8> {
    Seq::new(8, |i: int| ((v >> (8 * i) as u64) & 0xff) as u8)
}

/// The value of eight little-endian bytes.
pub open spec fn le_value(b: Seq<u8>) -> int {
    b[0] + 256 * (b[1] + 256 * (b[2] + 256 * (b[3] + 256 * (b[4] + 256 * (b[5] + 256 * (b[6]
        + 256 * b[7]))))))
}

/// The file that stores automaton bytes `body`.
pub open spec fn dac_file(body: Seq<u8>) -> Seq<u8> {
    magic() + le_bytes(xxh3_of(body)) + body
}

fn push_le(v: &mut Vec<u8>, x: u64)
    ensures
        final(v)@ == old(v)@ + le_bytes(x),
{
    let mut i: u64 = 0;
    while i < 8
        invariant
            i <= 8,
            v@ == old(v)@ + le_bytes(x).subrange(0, i as int),
        decreases 8 - i,
    {
        v.push(((x >> (8 * i)) & 0xff) as u8);
        i += 1;
        assert(v@ =~= old(v)@ + le_bytes(x).subrange(0, i as int));
    }
    assert(le_bytes(x).subrange(0, 8) =~= le_bytes(x));
}

/// The file bytes of an automaton: header and serialized form.
pub fn dac_file_bytes(d: &DoubleArrayAhoCorasick<u32>) -> (r: Vec<u8>)
    ensures
        r@ == dac_file(dac_bytes(*d)),
{
    let body = serialize_dac(d);
    let h = xxh3(body.as_slice());
    let mut r: Vec<u8> = Vec::new();
    r.push(68);
    r.push(65);
    r.push(67);
    r.push(1);
    push_le(&mut r, h);
    push_range(&mut r, body.as_slice(), 0, body.len());
    assert(r@ =~= dac_file(body@));
    r
}

/// Why a compiled blocklist file was refused.
#[derive(Clone, Copy, Debug, PartialEq, Eq, Structural)]
pub enum DacError {
    /// Shorter than the header and some automaton bytes (20 bytes).
    TooShort,
    /// Does not start with `DAC` and version 1.
    BadMagic,
}

/// Checks a compiled blocklist file and reads the hash from its header.
pub fn parse_dac_header(file: &[u8]) -> (r: Result<u64, DacError>)
    ensures
        file@.len() < 20 ==> r == Err::<u64, DacError>(DacError::TooShort),
        file@.len() >= 20 && file@.subrange(0, 4) != magic() ==> r == Err::<u64, DacError>(
            DacError::BadMagic,
        ),
        file@.len() >= 20 && file@.subrange(0, 4) == magic() ==> r == Ok::<u64, DacError>(
            le_value(file@.subrange(4, 12)) as u64,
        ) && 0 <= le_value(file@.subrange(4, 12)) <= u64::MAX,
{
    if file.len() < 20 {
        return Err(DacError::TooShort);
    }
    if !(file[0] == 68 && file[1] == 65 && file[2] == 67 && file[3] == 1) {
        assert(file@.subrange(0, 4)[0] == file@[0]);
        assert(file@.subrange(0, 4) != magic() || (file@[0] == 68 && file@[1] == 65 && file@[2] == 67
            && file@[3] == 1));
        return Err(DacError::BadMagic);
    }
    assert(file@.subrange(0, 4) =~= magic());
    let b4 = file[4] as u64;
    let b5 = file[5] as u64;
    let b6 = file[6] as u64;
    let b7 = file[7] as u64;
    let b8 = file[8] as u64;
    let b9 = file[9] as u64;
    let b10 = file[10] as u64;
    let b11 = file[11] as u64;
    let x7 = b11;
    assert(b10 + 256 * x7 < 0x1_0000) by (nonlinear_arith)
        requires
            b10 < 256,
            x7 < 256,
    ;
    let x6 = b10 + 256 * x7;
    assert(b9 + 256 * x6 < 0x100_0000) by (nonlinear_arith)
        requires
            b9 < 256,
            x6 < 0x1_0000,
    ;
    let x5 = b9 + 256 * x6;
    assert(b8 + 256 * x5 < 0x1_0000_0000) by (nonlinear_arith)
        requires
            b8 < 256,
            x5 < 0x100_0000,
    ;
    let x4 = b8 + 256 * x5;
    assert(b7 + 256 * x4 < 0x100_0000_0000) by (nonlinear_arith)
        requires
            b7 < 256,
            x4 < 0x1_0000_0000,
    ;
    let x3 = b7 + 256 * x4;
    assert(b6 + 256 * x3 < 0x1_0000_0000_0000) by (nonlinear_arith)
        requires
            b6 < 256,
            x3 < 0x100_0000_0000,
    ;
    let x2 = b6 + 256 * x3;
    assert(b5 + 256 * x2 < 0x100_0000_0000_0000) by (nonlinear_arith)
        requires
            b5 < 256,
            x2 < 0x1_0000_0000_0000,
    ;
    let x1 = b5 + 256 * x2;
    assert(b4 + 256 * x1 <= 0xFFFF_FFFF_FFFF_FFFF) by (nonlinear_arith)
        requires
            b4 < 256,
            x1 < 0x100_0000_0000_0000,
    ;
    let h = b4 + 256 * x1;
    let ghost hb = file@.subrange(4, 12);
    assert(hb[0] == file@[4] && hb[1] == file@[5] && hb[2] == file@[6] && hb[3] == file@[7] && hb[4]
        == file@[8] && hb[5] == file@[9] && hb[6] == file@[10] && hb[7] == file@[11]);
    Ok(h)
}

/// The body hash mixed with the application hash.
pub open spec fn mixed_hash(app_hash: u64, body_hash: u64) -> u64 {
    body_hash ^ app_hash.wrapping_add(0x9e37_79b9_7f4a_7c15u64).wrapping_add(body_hash << 6u64).wrapping_add(
        body_hash >> 2u64,
    )
}

/// Mixes the hash of the automaton bytes with the hash of the application
/// version, so that a new version or a new blocklist gives a new marker.
pub fn mix_version_into_hash(app_hash: u64, body_hash: u64) -> (r: u64)
    ensures
        r == mixed_hash(app_hash, body_hash),
{
    let a = app_hash.wrapping_add(0x9e37_79b9_7f4a_7c15u64);
    let b = a.wrapping_add(body_hash << 6u64);
    let c = b.wrapping_add(body_hash >> 2u64);
    body_hash ^ c
}

/// `zhlob~`, the start of the ETag marker.
pub open spec fn marker_prefix() -> Seq<u8> {
    seq![122u8, 104, 108, 111, 98, 126]
}

/// The ETag marker of a blocklist and application version.
pub open spec fn etag_marker_of(app_hash: u64, body_hash: u64) -> Seq<u8> {
    marker_prefix() + b64_url_of(le_bytes(mixed_hash(app_hash, body_hash))) + seq![126u8]
}

/// The marker `zhlob~<base64>~` that transformed responses carry in their
/// ETag: the URL-safe base64 of the little-endian mixed hash.
pub fn etag_marker(app_hash: u64, body_hash: u64) -> (r: Vec<u8>)
    ensures
        r@ == etag_marker_of(app_hash, body_hash),
{
    let h = mix_version_into_hash(app_hash, body_hash);
    let mut le: Vec<u8> = Vec::new();
    push_le(&mut le, h);
    let enc = b64_url(le.as_slice());
    let mut r: Vec<u8> = Vec::new();
    r.push(122);
    r.push(104);
    r.push(108);
    r.push(111);
    r.push(98);
    r.push(126);
    push_range(&mut r, enc.as_slice(), 0, enc.len());
    r.push(126);
    assert(le@ =~= le_bytes(h));
    assert(r@ =~= etag_marker_of(app_hash, body_hash));
    r
}

/// The marker used when no blocklist is loaded.
pub fn default_etag_marker() -> (r: Vec<u8>)
    ensures
        r@ == marker_prefix() + seq![126u8],
{
    let mut r: Vec<u8> = Vec::new();
    r.push(122);
    r.push(104);
    r.push(108);
    r.push(111);
    r.push(98);
    r.push(126);
    r.push(126);
    assert(r@ =~= marker_prefix() + seq![126u8]);
    r
}

} // verus!
