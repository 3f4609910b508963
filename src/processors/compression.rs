//! The content codings the proxy reads and writes, and the choice between a
//! compressed and a plain body.

use crate::proxy::headers::{all_tokens, some_contains, visible, HeaderMap};
use crate::bytes::lower_seq;
use std::io::Write;
use vstd::prelude::*;

verus! {

#[derive(Clone, Copy, Debug, PartialEq, Eq, Structural)]
pub enum CompressionAlgo {
    Uncompressed,
    Brotli,
    Gzip,
    Deflate,
}

pub open spec fn name_accept_encoding() -> Seq<u8> {
    seq![97u8, 99, 99, 101, 112, 116, 45, 101, 110, 99, 111, 100, 105, 110, 103]
}

/// The bytes a `Content-Encoding: <name>\r\n` line costs.
pub open spec fn header_overhead(a: CompressionAlgo) -> int {
    match a {
        CompressionAlgo::Brotli => 21,
        CompressionAlgo::Gzip => 23,
        CompressionAlgo::Deflate => 26,
        CompressionAlgo::Uncompressed => 0,
    }
}

/// The coding a token names, if the proxy knows it: `Some(None)` for the
/// tokens that name no compression.
pub open spec fn coding_of(t: Seq<u8>) -> Option<Option<CompressionAlgo>> {
    if t == seq![99u8, 104, 117, 110, 107, 101, 100] || t == seq![105u8, 100, 101, 110, 116, 105, 116, 121] {
        Some(None)
    } else if t == seq![98u8, 114] {
        Some(Some(CompressionAlgo::Brotli))
    } else if t == seq![103u8, 122, 105, 112] {
        Some(Some(CompressionAlgo::Gzip))
    } else if t == seq![100u8, 101, 102, 108, 97, 116, 101] {
        Some(Some(CompressionAlgo::Deflate))
    } else {
        None
    }
}

/// The single compression that the tokens name, as far as `ts` goes:
/// `None` for an unknown coding or for a second compression.
pub open spec fn single_coding(ts: Seq<Seq<u8>>) -> Option<Option<CompressionAlgo>>
    decreases ts.len(),
{
    if ts.len() == 0 {
        Some(None)
    } else {
        match single_coding(ts.drop_last()) {
            None => None,
            Some(prev) => match coding_of(lower_seq(ts.last())) {
                None => None,
                Some(None) => Some(prev),
                Some(Some(a)) => if prev is Some {
                    None
                } else {
                    Some(Some(a))
                },
            },
        }
    }
}

pub open spec fn all_visible(vals: Seq<Seq<u8>>) -> bool {
    forall|i: int| 0 <= i < vals.len() ==> visible(#[trigger] vals[i])
}

/// The coding's name in `Content-Encoding`.
pub open spec fn coding_name(a: CompressionAlgo) -> Seq<u8> {
    match a {
        CompressionAlgo::Uncompressed => seq![105u8, 100, 101, 110, 116, 105, 116, 121],
        CompressionAlgo::Brotli => seq![98u8, 114],
        CompressionAlgo::Gzip => seq![103u8, 122, 105, 112],
        CompressionAlgo::Deflate => seq![100u8, 101, 102, 108, 97, 116, 101],
    }
}

impl CompressionAlgo {
    /// The coding's name in `Content-Encoding`, as bytes.
    pub fn name_bytes(&self) -> (r: Vec<u8>)
        ensures
            r@ == coding_name(*self),
    {
        let mut v: Vec<u8> = Vec::new();
        match self {
            CompressionAlgo::Uncompressed => {
                v.push(105);
                v.push(100);
                v.push(101);
                v.push(110);
                v.push(116);
                v.push(105);
                v.push(116);
                v.push(121);
            },
            CompressionAlgo::Brotli => {
                v.push(98);
                v.push(114);
            },
            CompressionAlgo::Gzip => {
                v.push(103);
                v.push(122);
                v.push(105);
                v.push(112);
            },
            CompressionAlgo::Deflate => {
                v.push(100);
                v.push(101);
                v.push(102);
                v.push(108);
                v.push(97);
                v.push(116);
                v.push(101);
            },
        }
        assert(v@ =~= coding_name(*self));
        v
    }

    /// The coding's name in `Content-Encoding`.
    pub fn as_str(&self) -> (r: &'static str)
        ensures
            r@ == match *self {
                CompressionAlgo::Uncompressed => "identity"@,
                CompressionAlgo::Brotli => "br"@,
                CompressionAlgo::Gzip => "gzip"@,
                CompressionAlgo::Deflate => "deflate"@,
            },
    {
        match self {
            CompressionAlgo::Uncompressed => "identity",
            CompressionAlgo::Brotli => "br",
            CompressionAlgo::Gzip => "gzip",
            CompressionAlgo::Deflate => "deflate",
        }
    }

    /// The best coding the client accepts: `br`, then `gzip`, then
    /// `deflate`, else none.
    pub fn from_req_headers(h: &HeaderMap) -> (r: CompressionAlgo)
        ensures
            r == (if some_contains(h.values(name_accept_encoding()), seq![98u8, 114]) {
                CompressionAlgo::Brotli
            } else if some_contains(h.values(name_accept_encoding()), seq![103u8, 122, 105, 112]) {
                CompressionAlgo::Gzip
            } else if some_contains(h.values(name_accept_encoding()), seq![100u8, 101, 102, 108, 97, 116, 101]) {
                CompressionAlgo::Deflate
            } else {
                CompressionAlgo::Uncompressed
            }),
    {
        let ae: [u8; 15] = [97, 99, 99, 101, 112, 116, 45, 101, 110, 99, 111, 100, 105, 110, 103];
        let br: [u8; 2] = [98, 114];
        let gz: [u8; 4] = [103, 122, 105, 112];
        let df: [u8; 7] = [100, 101, 102, 108, 97, 116, 101];
        assert(ae@ =~= name_accept_encoding());
        assert(br@ =~= seq![98u8, 114]);
        assert(gz@ =~= seq![103u8, 122, 105, 112]);
        assert(df@ =~= seq![100u8, 101, 102, 108, 97, 116, 101]);
        if h.value_contains(ae.as_slice(), br.as_slice()) {
            CompressionAlgo::Brotli
        } else if h.value_contains(ae.as_slice(), gz.as_slice()) {
            CompressionAlgo::Gzip
        } else if h.value_contains(ae.as_slice(), df.as_slice()) {
            CompressionAlgo::Deflate
        } else {
            CompressionAlgo::Uncompressed
        }
    }

    /// The single compression of a response, from its Transfer-Encoding and
    /// Content-Encoding (`chunked` and `identity` name none); `None` when a
    /// value is not readable, a coding is unknown, or two compressions are
    /// stacked.
    pub fn from_resp_headers(h: &HeaderMap) -> (r: Option<CompressionAlgo>)
        ensures
            r == (if all_visible(h.values(crate::proxy::response::name_transfer_encoding())) && all_visible(
                h.values(crate::proxy::response::name_content_encoding()),
            ) {
                match single_coding(
                    all_tokens(h.values(crate::proxy::response::name_transfer_encoding())) + all_tokens(
                        h.values(crate::proxy::response::name_content_encoding()),
                    ),
                ) {
                    Some(Some(a)) => Some(a),
                    Some(None) => Some(CompressionAlgo::Uncompressed),
                    None => None,
                }
            } else {
                None
            }),
    {
        let te: [u8; 17] = [116, 114, 97, 110, 115, 102, 101, 114, 45, 101, 110, 99, 111, 100, 105, 110, 103];
        let ce: [u8; 16] = [99, 111, 110, 116, 101, 110, 116, 45, 101, 110, 99, 111, 100, 105, 110, 103];
        assert(te@ =~= crate::proxy::response::name_transfer_encoding());
        assert(ce@ =~= crate::proxy::response::name_content_encoding());
        if !all_readable(h, te.as_slice()) || !all_readable(h, ce.as_slice()) {
            return None;
        }
        let mut toks = crate::proxy::response::readable_tokens(h, te.as_slice());
        let mut toks2 = crate::proxy::response::readable_tokens(h, ce.as_slice());
        let ghost t1 = toks@.map_values(|x: Vec<u8>| x@);
        let ghost t2 = toks2@.map_values(|x: Vec<u8>| x@);
        toks.append(&mut toks2);
        let ghost ts = toks@.map_values(|x: Vec<u8>| x@);
        assert(ts =~= t1 + t2);
        let mut cur: Option<CompressionAlgo> = None;
        let mut k: usize = 0;
        while k < toks.len()
            invariant
                k <= toks@.len(),
                ts == toks@.map_values(|x: Vec<u8>| x@),
                ts == all_tokens(h.values(crate::proxy::response::name_transfer_encoding())) + all_tokens(
                    h.values(crate::proxy::response::name_content_encoding()),
                ),
                all_visible(h.values(crate::proxy::response::name_transfer_encoding())),
                all_visible(h.values(crate::proxy::response::name_content_encoding())),
                single_coding(ts.subrange(0, k as int)) == Some(cur),
            decreases toks@.len() - k,
        {
            let t = crate::bytes::lower_copy(toks[k].as_slice());
            assert(ts.subrange(0, k + 1).drop_last() =~= ts.subrange(0, k as int));
            assert(ts.subrange(0, k + 1).last() == ts[k as int]);
            assert(t@ == lower_seq(ts[k as int]));
            match coding_exec(t.as_slice()) {
                None => {
                    proof {
                        lemma_single_coding_none(ts, k + 1);
                    }
                    return None;
                },
                Some(None) => {},
                Some(Some(a)) => {
                    if cur.is_some() {
                        proof {
                            lemma_single_coding_none(ts, k + 1);
                        }
                        return None;
                    }
                    cur = Some(a);
                },
            }
            k += 1;
        }
        assert(ts.subrange(0, ts.len() as int) =~= ts);
        match cur {
            Some(a) => Some(a),
            None => Some(CompressionAlgo::Uncompressed),
        }
    }

    /// Compresses `raw` with this coding when that pays: the body must be
    /// over 32 bytes, compression must work, and the compressed body plus
    /// the `Content-Encoding` line must be smaller than `raw`. Otherwise the
    /// body stays as it is, uncompressed.
    pub fn try_compress(self, raw: Vec<u8>) -> (r: (CompressionAlgo, Vec<u8>))
        ensures
            (r.0, r.1@) == compressed_result(self, raw@),
    {
        if raw.len() > 32 {
            let (compressed, overhead): (Option<Vec<u8>>, usize) = match self {
                CompressionAlgo::Brotli => (brotli_compress(raw.as_slice()), 21),
                CompressionAlgo::Gzip => (gzip_compress(raw.as_slice()), 23),
                CompressionAlgo::Deflate => (zlib_compress(raw.as_slice()), 26),
                CompressionAlgo::Uncompressed => (None, 0),
            };
            if let Some(c) = compressed {
                if c.len() < raw.len() && overhead < raw.len() - c.len() {
                    return (self, c);
                }
            }
        }
        (CompressionAlgo::Uncompressed, raw)
    }
}

/// Once two compressions or an unknown coding are seen, more tokens do not help.
proof fn lemma_single_coding_none(ts: Seq<Seq<u8>>, k: int)
    requires
        0 <= k <= ts.len(),
        single_coding(ts.subrange(0, k)) is None,
    ensures
        single_coding(ts) is None,
    decreases ts.len() - k,
{
    if k < ts.len() {
        assert(ts.subrange(0, k + 1).drop_last() =~= ts.subrange(0, k));
        lemma_single_coding_none(ts, k + 1);
    } else {
        assert(ts.subrange(0, k) =~= ts);
    }
}

fn all_readable(h: &HeaderMap, n: &[u8]) -> (r: bool)
    ensures
        r == all_visible(h.values(n@)),
{
    let vals = h.get_all(n);
    let ghost vs = vals@.map_values(|x: Vec<u8>| x@);
    let mut i: usize = 0;
    while i < vals.len()
        invariant
            i <= vals@.len(),
            vs == vals@.map_values(|x: Vec<u8>| x@),
            vs == h.values(n@),
            forall|j: int| 0 <= j < i ==> visible(#[trigger] vs[j]),
        decreases vals@.len() - i,
    {
        if !crate::proxy::headers::is_visible_value(vals[i].as_slice()) {
            assert(!visible(vs[i as int]));
            return false;
        }
        i += 1;
    }
    true
}

fn coding_exec(t: &[u8]) -> (r: Option<Option<CompressionAlgo>>)
    ensures
        r == coding_of(t@),
{
    let chunked: [u8; 7] = [99, 104, 117, 110, 107, 101, 100];
    let identity: [u8; 8] = [105, 100, 101, 110, 116, 105, 116, 121];
    let br: [u8; 2] = [98, 114];
    let gz: [u8; 4] = [103, 122, 105, 112];
    let df: [u8; 7] = [100, 101, 102, 108, 97, 116, 101];
    assert(chunked@ =~= seq![99u8, 104, 117, 110, 107, 101, 100]);
    assert(identity@ =~= seq![105u8, 100, 101, 110, 116, 105, 116, 121]);
    assert(br@ =~= seq![98u8, 114]);
    assert(gz@ =~= seq![103u8, 122, 105, 112]);
    assert(df@ =~= seq![100u8, 101, 102, 108, 97, 116, 101]);
    if crate::bytes::bytes_eq(t, chunked.as_slice()) || crate::bytes::bytes_eq(t, identity.as_slice()) {
        Some(None)
    } else if crate::bytes::bytes_eq(t, br.as_slice()) {
        Some(Some(CompressionAlgo::Brotli))
    } else if crate::bytes::bytes_eq(t, gz.as_slice()) {
        Some(Some(CompressionAlgo::Gzip))
    } else if crate::bytes::bytes_eq(t, df.as_slice()) {
        Some(Some(CompressionAlgo::Deflate))
    } else {
        None
    }
}

/// What brotli's `CompressorWriter` (quality 5, window 20) writes for `s`.
pub uninterp spec fn brotli_of(s: Seq<u8>) -> Option<Seq<u8>>;

/// What flate2's `GzEncoder` (level 4) writes for `s`.
pub uninterp spec fn gzip_of(s: Seq<u8>) -> Option<Seq<u8>>;

/// What flate2's `ZlibEncoder` (level 4) writes for `s`.
pub uninterp spec fn zlib_of(s: Seq<u8>) -> Option<Seq<u8>>;

/// The compressed form of `raw` in coding `a`, if the encoder gave one.
pub open spec fn coded(a: CompressionAlgo, raw: Seq<u8>) -> Option<Seq<u8>> {
    match a {
        CompressionAlgo::Brotli => brotli_of(raw),
        CompressionAlgo::Gzip => gzip_of(raw),
        CompressionAlgo::Deflate => zlib_of(raw),
        CompressionAlgo::Uncompressed => None,
    }
}

/// The coding and body sent: the compressed form when the body is over 32
/// bytes and the compressed form plus its header line is smaller; else the
/// body as it is.
pub open spec fn compressed_result(a: CompressionAlgo, raw: Seq<u8>) -> (CompressionAlgo, Seq<u8>) {
    match coded(a, raw) {
        Some(c) => if raw.len() > 32 && c.len() + header_overhead(a) < raw.len() {
            (a, c)
        } else {
            (CompressionAlgo::Uncompressed, raw)
        },
        None => (CompressionAlgo::Uncompressed, raw),
    }
}

/// Relies on brotli's `CompressorWriter` (quality 5, window 20): the
/// compressed bytes, a function of the input alone; none when writing fails.
#[verifier::external_body]
fn brotli_compress(raw: &[u8]) -> (r: Option<Vec<u8>>)
    ensures
        r matches Some(v) ==> brotli_of(raw@) == Some(v@),
        r is None ==> brotli_of(raw@) is None,
{
    let mut w = brotli::CompressorWriter::new(Vec::new(), 4096, 5, 20);
    w.write_all(raw).ok()?;
    w.flush().ok()?;
    Some(w.into_inner())
}

/// Relies on flate2's `GzEncoder` (level 4): the gzip stream, a function of
/// the input alone; none when writing fails.
#[verifier::external_body]
fn gzip_compress(raw: &[u8]) -> (r: Option<Vec<u8>>)
    ensures
        r matches Some(v) ==> gzip_of(raw@) == Some(v@),
        r is None ==> gzip_of(raw@) is None,
{
    let mut w = flate2::write::GzEncoder::new(Vec::new(), flate2::Compression::new(4));
    w.write_all(raw).ok()?;
    w.finish().ok()
}

/// Relies on flate2's `ZlibEncoder` (level 4): the zlib stream, a function
/// of the input alone; none when writing fails.
#[verifier::external_body]
fn zlib_compress(raw: &[u8]) -> (r: Option<Vec<u8>>)
    ensures
        r matches Some(v) ==> zlib_of(raw@) == Some(v@),
        r is None ==> zlib_of(raw@) is None,
{
    let mut w = flate2::write::ZlibEncoder::new(Vec::new(), flate2::Compression::new(4));
    w.write_all(raw).ok()?;
    w.finish().ok()
}

} // verus!
