//! The ETag marker: put into the ETag of a transformed response, taken out of
//! the `If-Match` / `If-None-Match` headers of a request.

use crate::bytes::{find_first, find_first_exec, is_ws, is_ws_byte, lemma_find_first, push_range, starts_with};
use crate::proxy::headers::HeaderMap;
use vstd::prelude::*;

verus! {

pub open spec fn name_etag() -> Seq<u8> {
    seq![101u8, 116, 97, 103]
}

pub open spec fn name_if_match() -> Seq<u8> {
    seq![105u8, 102, 45, 109, 97, 116, 99, 104]
}

pub open spec fn name_if_none_match() -> Seq<u8> {
    seq![105u8, 102, 45, 110, 111, 110, 101, 45, 109, 97, 116, 99, 104]
}

/// `zhlob~`
pub open spec fn zhlob() -> Seq<u8> {
    seq![122u8, 104, 108, 111, 98, 126]
}

/// Where the marker goes in an ETag: after a leading `W/` and then a `"`.
pub open spec fn marker_pos(e: Seq<u8>) -> int {
    let w: int = if starts_with(e, seq![87u8, 47]) {
        2
    } else {
        0
    };
    if w < e.len() && e[w] == 34 {
        w + 1
    } else {
        w
    }
}

/// The ETag with the marker put in.
pub open spec fn inject(e: Seq<u8>, m: Seq<u8>) -> Seq<u8> {
    e.subrange(0, marker_pos(e)) + m + e.subrange(marker_pos(e), e.len() as int)
}

pub open spec fn is_sep(b: u8) -> bool {
    b == 44 || is_ws(b)
}

pub open spec fn skip_seps(b: Seq<u8>, i: int) -> int
    decreases b.len() - i,
{
    if 0 <= i < b.len() && is_sep(b[i]) {
        skip_seps(b, i + 1)
    } else {
        i
    }
}

/// Length of the `W/"`, `W/` or `"` that opens the entity tag at `i`.
pub open spec fn tag_open_len(b: Seq<u8>, i: int) -> int {
    let r = b.subrange(i, b.len() as int);
    if starts_with(r, seq![87u8, 47, 34]) {
        3
    } else if starts_with(r, seq![87u8, 47]) {
        2
    } else if starts_with(r, seq![34u8]) {
        1
    } else {
        0
    }
}

/// Index of the `,` that ends the entity tag body at `i` (quotes toggle),
/// or the end.
pub open spec fn skip_body(b: Seq<u8>, i: int, inq: bool) -> int
    decreases b.len() - i,
{
    if i < 0 || i >= b.len() {
        i
    } else if b[i] == 34 {
        skip_body(b, i + 1, !inq)
    } else if b[i] == 44 && !inq {
        i
    } else {
        skip_body(b, i + 1, inq)
    }
}

/// A marker starts at `i`: `zhlob~` and, later, another `~`.
pub open spec fn marker_at(b: Seq<u8>, i: int) -> bool {
    i < b.len() && starts_with(b.subrange(i, b.len() as int), zhlob()) && find_first(b, 126, i + 6) < b.len()
}

/// One scan over the entity tags of a header value from `i`: `out` holds the
/// kept bytes before `last`; each marker that opens a tag is cut out.
/// Returns the kept bytes before the final `last`, that `last`, and whether
/// something was cut.
pub open spec fn scan(b: Seq<u8>, i: int, last: int, out: Seq<u8>, changed: bool) -> (Seq<u8>, int, bool)
    decreases b.len() - i,
{
    if i < 0 || i >= b.len() {
        (out, last, changed)
    } else {
        let i1 = skip_seps(b, i);
        let pl = tag_open_len(b, i1);
        let i2 = i1 + pl;
        let cut = marker_at(b, i2);
        let t = find_first(b, 126, i2 + 6);
        let out2 = if cut && i2 > last {
            out + b.subrange(last, i2)
        } else {
            out
        };
        let last2 = if cut {
            t + 1
        } else {
            last
        };
        let i3 = if cut {
            t + 1
        } else {
            i2
        };
        let inq = pl > 0 && b[i3 - 1] == 34;
        let i4 = skip_body(b, i3, inq);
        if i4 <= i || i4 > b.len() {
            (out2, last2, changed || cut)
        } else {
            scan(b, i4, last2, out2, changed || cut)
        }
    }
}

/// A header value with the markers that open its entity tags cut out, and
/// whether there was one.
pub open spec fn strip_one(b: Seq<u8>) -> (Seq<u8>, bool) {
    let (out, last, changed) = scan(b, 0, 0, Seq::empty(), false);
    (out + if last < b.len() {
        b.subrange(last, b.len() as int)
    } else {
        Seq::empty()
    }, changed)
}

/// All values of a header stripped, each followed by `, `; and whether
/// anything was cut.
pub open spec fn strip_all(vals: Seq<Seq<u8>>) -> (Seq<u8>, bool)
    decreases vals.len(),
{
    if vals.len() == 0 {
        (Seq::empty(), false)
    } else {
        let (o, c) = strip_all(vals.drop_last());
        let (s, c2) = strip_one(vals.last());
        (o + s + seq![44u8, 32], c || c2)
    }
}

/// The header after stripping: unchanged unless a marker was cut, else one
/// value, the stripped values joined with `, `.
pub open spec fn stripped_values(vals: Seq<Seq<u8>>) -> Seq<Seq<u8>> {
    let (o, c) = strip_all(vals);
    if c {
        seq![o.subrange(0, o.len() - 2)]
    } else {
        vals
    }
}

fn skip_seps_exec(b: &[u8], i: usize) -> (r: usize)
    requires
        i <= b@.len(),
    ensures
        r as int == skip_seps(b@, i as int),
        i <= r <= b@.len(),
{
    let mut k = i;
    while k < b.len() && (b[k] == 44 || is_ws_byte(b[k]))
        invariant
            i <= k <= b@.len(),
            skip_seps(b@, k as int) == skip_seps(b@, i as int),
        decreases b@.len() - k,
    {
        k += 1;
    }
    k
}

fn skip_body_exec(b: &[u8], i: usize, inq: bool) -> (r: usize)
    requires
        i <= b@.len(),
    ensures
        r as int == skip_body(b@, i as int, inq),
        i <= r <= b@.len(),
{
    let mut k = i;
    let mut q = inq;
    while k < b.len()
        invariant
            i <= k <= b@.len(),
            skip_body(b@, k as int, q) == skip_body(b@, i as int, inq),
        ensures
            i <= k <= b@.len(),
            skip_body(b@, k as int, q) == k,
            skip_body(b@, k as int, q) == skip_body(b@, i as int, inq),
        decreases b@.len() - k,
    {
        if b[k] == 34 {
            q = !q;
        } else if b[k] == 44 && !q {
            break;
        }
        k += 1;
    }
    k
}

fn starts_at(b: &[u8], i: usize, lit: &[u8]) -> (r: bool)
    requires
        i <= b@.len(),
    ensures
        r == starts_with(b@.subrange(i as int, b@.len() as int), lit@),
{
    crate::bytes::starts_with_exec(&b[i..b.len()], lit)
}

fn tag_open_len_exec(b: &[u8], i: usize) -> (r: usize)
    requires
        i <= b@.len(),
    ensures
        r as int == tag_open_len(b@, i as int),
        r <= 3,
{
    let wq: [u8; 3] = [87, 47, 34];
    let w: [u8; 2] = [87, 47];
    let q: [u8; 1] = [34];
    proof {
        assert(wq@ =~= seq![87u8, 47, 34]);
        assert(w@ =~= seq![87u8, 47]);
        assert(q@ =~= seq![34u8]);
    }
    if starts_at(b, i, wq.as_slice()) {
        3
    } else if starts_at(b, i, w.as_slice()) {
        2
    } else if starts_at(b, i, q.as_slice()) {
        1
    } else {
        0
    }
}

/// One header value with its markers cut out, and whether there was one.
pub fn strip_value(b: &[u8]) -> (r: (Vec<u8>, bool))
    ensures
        (r.0@, r.1) == strip_one(b@),
{
    let z: [u8; 6] = [122, 104, 108, 111, 98, 126];
    assert(z@ =~= zhlob());
    let n = b.len();
    let mut out: Vec<u8> = Vec::new();
    let mut last: usize = 0;
    let mut changed = false;
    let mut i: usize = 0;
    while i < n
        invariant
            n == b@.len(),
            i <= n,
            last <= n,
            z@ == zhlob(),
            scan(b@, i as int, last as int, out@, changed) == scan(b@, 0, 0, Seq::empty(), false),
        decreases n - i,
    {
        let i1 = skip_seps_exec(b, i);
        let pl = tag_open_len_exec(b, i1);
        assert(i1 + pl <= n);
        let i2 = i1 + pl;
        let mut cut = false;
        let mut t: usize = 0;
        if i2 < n && starts_at(b, i2, z.as_slice()) && i2 + 6 <= n {
            t = find_first_exec(b, 126, i2 + 6);
            cut = t < n;
        }
        proof {
            if i2 < n && starts_with(b@.subrange(i2 as int, n as int), zhlob()) {
                assert(i2 + 6 <= n);
            }
        }
        if cut && i2 > last {
            push_range(&mut out, b, last, i2);
        }
        let i3 = if cut {
            t + 1
        } else {
            i2
        };
        if cut {
            last = t + 1;
            changed = true;
        }
        let inq = pl > 0 && b[i3 - 1] == 34;
        let i4 = skip_body_exec(b, i3, inq);
        if i4 <= i {
            i = n;
        } else {
            i = i4;
        }
    }
    let mut r = out;
    if last < n {
        push_range(&mut r, b, last, n);
    }
    proof {
        if !(last < n) {
            assert(r@ =~= r@ + Seq::<u8>::empty());
        }
    }
    (r, changed)
}

impl HeaderMap {
    /// Puts `marker` into the ETag, right after its `W/` and its opening `"`
    /// (when it has them). Without an ETag nothing changes.
    pub fn inject_etag_marker(&mut self, marker: &[u8])
        ensures
            old(self).values(name_etag()).len() == 0 ==> forall|m: Seq<u8>| #[trigger] final(self).values(m) == old(self).values(m),
            old(self).values(name_etag()).len() > 0 ==> final(self).values(name_etag()) == seq![
                inject(old(self).values(name_etag())[0], marker@),
            ],
            forall|m: Seq<u8>| m != name_etag() ==> #[trigger] final(self).values(m) == old(self).values(m),
    {
        let etag: [u8; 4] = [101, 116, 97, 103];
        assert(etag@ =~= name_etag());
        let vals = self.get_all(etag.as_slice());
        assert(vals@.map_values(|x: Vec<u8>| x@).len() == vals@.len());
        if vals.len() == 0 {
            return;
        }
        let e = vals[0].as_slice();
        assert(e@ == old(self).values(name_etag())[0]);
        let w: [u8; 2] = [87, 47];
        assert(w@ =~= seq![87u8, 47]);
        let mut pos: usize = if crate::bytes::starts_with_exec(e, w.as_slice()) {
            2
        } else {
            0
        };
        if pos < e.len() && e[pos] == 34 {
            pos = pos + 1;
        }
        let mut v: Vec<u8> = Vec::new();
        push_range(&mut v, e, 0, pos);
        push_range(&mut v, marker, 0, marker.len());
        push_range(&mut v, e, pos, e.len());
        assert(marker@.subrange(0, marker@.len() as int) =~= marker@);
        assert(v@ =~= inject(e@, marker@));
        self.set(etag.as_slice(), v);
    }

    /// Cuts the markers out of the entity tags of `If-Match` and
    /// `If-None-Match`; a header where nothing was cut stays as it is.
    pub fn strip_etag_marker(&mut self)
        ensures
            final(self).values(name_if_match()) == stripped_values(old(self).values(name_if_match())),
            final(self).values(name_if_none_match()) == stripped_values(old(self).values(name_if_none_match())),
            forall|m: Seq<u8>| m != name_if_match() && m != name_if_none_match() ==> #[trigger] final(self).values(m)
                == old(self).values(m),
    {
        let im: [u8; 8] = [105, 102, 45, 109, 97, 116, 99, 104];
        let inm: [u8; 13] = [105, 102, 45, 110, 111, 110, 101, 45, 109, 97, 116, 99, 104];
        assert(im@ =~= name_if_match());
        assert(inm@ =~= name_if_none_match());
        self.strip_header(im.as_slice());
        self.strip_header(inm.as_slice());
    }

    fn strip_header(&mut self, name: &[u8])
        ensures
            final(self).values(name@) == stripped_values(old(self).values(name@)),
            forall|m: Seq<u8>| m != name@ ==> #[trigger] final(self).values(m) == old(self).values(m),
    {
        let vals = self.get_all(name);
        let ghost vs = vals@.map_values(|x: Vec<u8>| x@);
        let mut out: Vec<u8> = Vec::new();
        let mut changed = false;
        let mut i: usize = 0;
        while i < vals.len()
            invariant
                i <= vals@.len(),
                vs == vals@.map_values(|x: Vec<u8>| x@),
                (out@, changed) == strip_all(vs.subrange(0, i as int)),
            decreases vals@.len() - i,
        {
            proof {
                assert(vs.subrange(0, i + 1).drop_last() =~= vs.subrange(0, i as int));
            }
            let (s, c) = strip_value(vals[i].as_slice());
            push_range(&mut out, s.as_slice(), 0, s.len());
            out.push(44);
            out.push(32);
            changed = changed || c;
            proof {
                assert(s@.subrange(0, s@.len() as int) =~= s@);
                assert(out@ =~= strip_all(vs.subrange(0, i + 1)).0);
            }
            i += 1;
        }
        assert(vs.subrange(0, vs.len() as int) =~= vs);
        if changed {
            assert(out@.len() >= 2) by {
                assert(vs.len() > 0);
                assert(vs.subrange(0, vs.len() as int) =~= vs);
            }
            out.truncate(out.len() - 2);
            self.set(name, out);
        }
    }
}

/// With no marker opening a tag at or after `lo`, the rest of the scan cuts
/// nothing.
proof fn lemma_scan_no_marker(b: Seq<u8>, lo: int, i: int, last: int, out: Seq<u8>, changed: bool)
    requires
        0 <= lo <= i,
        forall|k: int| lo <= k < b.len() ==> !#[trigger] marker_at(b, k),
    ensures
        scan(b, i, last, out, changed) == (out, last, changed),
    decreases b.len() - i,
{
    if i < b.len() {
        let i1 = skip_seps(b, i);
        lemma_skip_seps_ge(b, i);
        let pl = tag_open_len(b, i1);
        let i2 = i1 + pl;
        assert(i2 >= lo);
        if i2 < b.len() {
            assert(!marker_at(b, i2));
        }
        let inq = pl > 0 && b[i2 - 1] == 34;
        let i4 = skip_body(b, i2, inq);
        if !(i4 <= i || i4 > b.len()) {
            lemma_scan_no_marker(b, lo, i4, last, out, changed);
        }
    }
}

proof fn lemma_skip_seps_ge(b: Seq<u8>, i: int)
    ensures
        skip_seps(b, i) >= i,
    decreases b.len() - i,
{
    if 0 <= i < b.len() && is_sep(b[i]) {
        lemma_skip_seps_ge(b, i + 1);
    }
}

proof fn lemma_skip_body_ge(b: Seq<u8>, i: int, inq: bool)
    requires
        0 <= i <= b.len(),
    ensures
        i <= skip_body(b, i, inq) <= b.len(),
    decreases b.len() - i,
{
    if i < b.len() {
        if b[i] == 34 {
            lemma_skip_body_ge(b, i + 1, !inq);
        } else if !(b[i] == 44 && !inq) {
            lemma_skip_body_ge(b, i + 1, inq);
        }
    }
}

/// Stripping undoes injecting: for a marker `zhlob~<body>~` whose body holds
/// no `~`, and an ETag with no `zhlob~` in it, cutting the markers out of
/// the injected ETag gives the ETag back (and reports a cut); an
/// `If-None-Match` that holds only that value ends up holding the ETag.
pub proof fn lemma_etag_marker_round_trip(e: Seq<u8>, body: Seq<u8>)
    requires
        forall|k: int| 0 <= k < body.len() ==> body[k] != 126,
        forall|k: int| !#[trigger] crate::bytes::occurs_at(e, zhlob(), k),
    ensures
        strip_one(inject(e, zhlob() + body + seq![126u8])) == (e, true),
        stripped_values(seq![inject(e, zhlob() + body + seq![126u8])]) == seq![e],
{
    let m = zhlob() + body + seq![126u8];
    let b = inject(e, m);
    let q = marker_pos(e);
    let ml = m.len() as int;
    assert(0 <= q <= e.len());
    assert(b.len() == e.len() + ml);
    assert forall|k: int| 0 <= k < q implies b[k] == e[k] by {}
    assert forall|k: int| 0 <= k < ml implies b[q + k] == m[k] by {}
    assert forall|k: int| q + ml <= k < b.len() implies b[k] == e[k - ml] by {}
    // the scan starts at the tag itself
    assert(!is_sep(b[0]));
    assert(skip_seps(b, 0) == 0);
    if q == 0 {
        assert(b[0] == 122);
        assert(b.subrange(0, b.len() as int).subrange(0, 1)[0] == 122);
        assert(!starts_with(b.subrange(0, b.len() as int), seq![87u8, 47, 34]));
        assert(!starts_with(b.subrange(0, b.len() as int), seq![87u8, 47]));
        assert(!starts_with(b.subrange(0, b.len() as int), seq![34u8]));
    } else if q == 1 {
        assert(b[0] == 34);
        assert(!starts_with(b.subrange(0, b.len() as int), seq![87u8, 47, 34]));
        assert(!starts_with(b.subrange(0, b.len() as int), seq![87u8, 47]));
        assert(b.subrange(0, b.len() as int).subrange(0, 1) =~= seq![34u8]);
    } else if q == 2 {
        assert(b[0] == 87 && b[1] == 47 && b[2] == 122);
        assert(!starts_with(b.subrange(0, b.len() as int), seq![87u8, 47, 34]));
        assert(b.subrange(0, b.len() as int).subrange(0, 2) =~= seq![87u8, 47]);
    } else {
        assert(b[0] == 87 && b[1] == 47 && b[2] == 34);
        assert(b.subrange(0, b.len() as int).subrange(0, 3) =~= seq![87u8, 47, 34]);
    }
    assert(tag_open_len(b, 0) == q);
    // the marker is found and cut up to its closing `~`
    assert(b.subrange(q, b.len() as int).subrange(0, 6) =~= zhlob());
    let t = q + ml - 1;
    lemma_find_first(b, 126, q + 6);
    let f = find_first(b, 126, q + 6);
    assert(b[t] == 126);
    if f < t {
        assert(b[f] == m[f - q]);
        assert(m[f - q] == body[f - q - 6]);
    }
    assert(f == t);
    assert(marker_at(b, q));
    assert(b[t] == 126);
    lemma_skip_body_ge(b, t + 1, false);
    let i4 = skip_body(b, t + 1, false);
    assert forall|k: int| t + 1 <= k < b.len() implies !#[trigger] marker_at(b, k) by {
        if marker_at(b, k) {
            let r = b.subrange(k, b.len() as int);
            assert(r.subrange(0, 6) == zhlob());
            assert(e.subrange(k - ml, k - ml + 6) =~= zhlob());
            assert(crate::bytes::occurs_at(e, zhlob(), k - ml));
        }
    }
    let out1 = if q > 0 {
        b.subrange(0, q)
    } else {
        Seq::<u8>::empty()
    };
    lemma_scan_no_marker(b, t + 1, i4, t + 1, out1, true);
    assert(scan(b, 0, 0, Seq::empty(), false) == (out1, t + 1, true));
    let tail = if t + 1 < b.len() {
        b.subrange(t + 1, b.len() as int)
    } else {
        Seq::<u8>::empty()
    };
    assert(out1 + tail =~= e);
    assert(strip_one(b) == (e, true));
    let (o, c) = strip_all(seq![b]);
    assert(seq![b].drop_last() =~= Seq::<Seq<u8>>::empty());
    assert(strip_all(Seq::<Seq<u8>>::empty()) == (Seq::<u8>::empty(), false));
    assert(seq![b].last() == b);
    assert(o =~= e + seq![44u8, 32]);
    assert(o.subrange(0, o.len() - 2) =~= e);
}

} // verus!
