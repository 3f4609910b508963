//! The HTML rewriter's policies for single elements and attributes. The
//! streaming parser that finds the elements drives these from outside.

use crate::bytes::{find_first, find_first_exec, push_range, starts_with, starts_with_exec, is_ws, is_ws_byte, eq_ci};
use crate::proxy::csp::{word_end, word_start};
use vstd::prelude::*;

verus! {

/// A query parameter key that only tracks: `utm_`/`utm-` campaign keys,
/// click ids, analytics cookies.
pub open spec fn tracking_key(k: Seq<u8>) -> bool {
    ||| starts_with(k, seq![117u8, 116, 109, 95])
    ||| starts_with(k, seq![117u8, 116, 109, 45])
    ||| starts_with(k, seq![102u8, 98, 99, 108, 105, 100])
    ||| starts_with(k, seq![103u8, 99, 108, 105, 100])
    ||| starts_with(k, seq![121u8, 99, 108, 105, 100])
    ||| starts_with(k, seq![121u8, 115, 99, 108, 105, 100])
    ||| starts_with(k, seq![95u8, 103, 97])
    ||| starts_with(k, seq![95u8, 103, 108])
    ||| starts_with(k, seq![95u8, 111, 112, 101, 110, 115, 116, 97, 116])
    ||| starts_with(k, seq![114u8, 98, 95, 99, 108, 105, 99, 107, 105, 100])
}

/// A `key=value` pair is kept when its key is non-empty and not tracking.
pub open spec fn keep_pair(p: Seq<u8>) -> bool {
    let k = p.subrange(0, find_first(p, 61, 0));
    k.len() > 0 && !tracking_key(k)
}

/// The kept `&`-separated pairs of a query, joined with `&`, after `acc`.
pub open spec fn filter_query(acc: Seq<u8>, q: Seq<u8>) -> Seq<u8>
    decreases q.len(),
{
    let j = find_first(q, 38, 0);
    let p = if j < 0 || j >= q.len() {
        q
    } else {
        q.subrange(0, j)
    };
    let acc2 = if p.len() > 0 && keep_pair(p) {
        if acc.len() == 0 {
            p
        } else {
            acc + seq![38u8] + p
        }
    } else {
        acc
    };
    if j < 0 || j >= q.len() {
        acc2
    } else {
        filter_query(acc2, q.subrange(j + 1, q.len() as int))
    }
}

/// A link with its tracking query parameters removed: the part before `?`,
/// then `?` and the kept pairs if any, then the fragment from `#`.
pub open spec fn cleaned_href(v: Seq<u8>) -> Option<Seq<u8>> {
    let q = find_first(v, 63, 0);
    if q >= v.len() {
        None
    } else {
        let rest = v.subrange(q + 1, v.len() as int);
        let h = find_first(rest, 35, 0);
        let query = rest.subrange(0, h);
        let anchor = rest.subrange(h, rest.len() as int);
        let f = filter_query(Seq::empty(), query);
        Some(v.subrange(0, q) + (if f.len() > 0 {
            seq![63u8] + f
        } else {
            Seq::empty()
        }) + anchor)
    }
}

fn is_tracking_key(k: &[u8]) -> (r: bool)
    ensures
        r == tracking_key(k@),
{
    let a: [u8; 4] = [117, 116, 109, 95];
    assert(a@ =~= seq![117u8, 116, 109, 95]);
    let b: [u8; 4] = [117, 116, 109, 45];
    assert(b@ =~= seq![117u8, 116, 109, 45]);
    let c: [u8; 6] = [102, 98, 99, 108, 105, 100];
    assert(c@ =~= seq![102u8, 98, 99, 108, 105, 100]);
    let d: [u8; 5] = [103, 99, 108, 105, 100];
    assert(d@ =~= seq![103u8, 99, 108, 105, 100]);
    let e: [u8; 5] = [121, 99, 108, 105, 100];
    assert(e@ =~= seq![121u8, 99, 108, 105, 100]);
    let f: [u8; 6] = [121, 115, 99, 108, 105, 100];
    assert(f@ =~= seq![121u8, 115, 99, 108, 105, 100]);
    let g: [u8; 3] = [95, 103, 97];
    assert(g@ =~= seq![95u8, 103, 97]);
    let h: [u8; 3] = [95, 103, 108];
    assert(h@ =~= seq![95u8, 103, 108]);
    let i: [u8; 9] = [95, 111, 112, 101, 110, 115, 116, 97, 116];
    assert(i@ =~= seq![95u8, 111, 112, 101, 110, 115, 116, 97, 116]);
    let j: [u8; 10] = [114, 98, 95, 99, 108, 105, 99, 107, 105, 100];
    assert(j@ =~= seq![114u8, 98, 95, 99, 108, 105, 99, 107, 105, 100]);
    starts_with_exec(k, a.as_slice()) || starts_with_exec(k, b.as_slice()) || starts_with_exec(k, c.as_slice())
        || starts_with_exec(k, d.as_slice()) || starts_with_exec(k, e.as_slice()) || starts_with_exec(k, f.as_slice())
        || starts_with_exec(k, g.as_slice()) || starts_with_exec(k, h.as_slice()) || starts_with_exec(k, i.as_slice())
        || starts_with_exec(k, j.as_slice())
}

fn filter_query_exec(query: &[u8]) -> (r: Vec<u8>)
    ensures
        r@ == filter_query(Seq::empty(), query@),
{
    let mut acc: Vec<u8> = Vec::new();
    let mut qs: &[u8] = query;
    loop
        invariant
            filter_query(acc@, qs@) == filter_query(Seq::empty(), query@),
        decreases qs@.len(),
    {
        let j = find_first_exec(qs, 38, 0);
        let p: &[u8] = if j >= qs.len() {
            qs
        } else {
            &qs[0..j]
        };
        let kend = find_first_exec(p, 61, 0);
        let keep = p.len() > 0 && kend > 0 && !is_tracking_key(&p[0..kend]);
        let ghost acc0 = acc@;
        if keep {
            if acc.len() > 0 {
                acc.push(38);
            }
            push_range(&mut acc, p, 0, p.len());
            proof {
                assert(p@.subrange(0, p@.len() as int) =~= p@);
                if acc0.len() == 0 {
                    assert(acc@ =~= p@);
                } else {
                    assert(acc@ =~= acc0 + seq![38u8] + p@);
                }
            }
        }
        if j >= qs.len() {
            return acc;
        }
        qs = &qs[j + 1..qs.len()];
    }
}

/// The `href` of an `<a>` without its tracking query parameters; `None`
/// when it has no query.
pub fn clean_href(v: &[u8]) -> (r: Option<Vec<u8>>)
    ensures
        r matches Some(x) ==> cleaned_href(v@) == Some(x@),
        r is None ==> cleaned_href(v@) is None,
{
    let q = find_first_exec(v, 63, 0);
    if q >= v.len() {
        return None;
    }
    let rest = &v[q + 1..v.len()];
    let h = find_first_exec(rest, 35, 0);
    let f = filter_query_exec(&rest[0..h]);
    let mut out: Vec<u8> = Vec::new();
    push_range(&mut out, v, 0, q);
    if f.len() > 0 {
        out.push(63);
        push_range(&mut out, f.as_slice(), 0, f.len());
    }
    push_range(&mut out, rest, h, rest.len());
    proof {
        assert(f@.subrange(0, f@.len() as int) =~= f@);
        if f@.len() > 0 {
            assert(out@ =~= v@.subrange(0, q as int) + (seq![63u8] + f@) + rest@.subrange(h as int, rest@.len() as int));
        } else {
            assert(out@ =~= v@.subrange(0, q as int) + Seq::<u8>::empty() + rest@.subrange(h as int, rest@.len() as int));
        }
    }
    Some(out)
}

/// The space-separated tokens of `c` from `i` that start with `no`, joined
/// with single spaces after `acc`.
pub open spec fn no_tokens(acc: Seq<u8>, c: Seq<u8>, i: int) -> Seq<u8>
    decreases c.len() - i,
{
    let s = word_start(c, i);
    if i < 0 || s >= c.len() || s < i {
        acc
    } else {
        let e = word_end(c, s);
        let w = c.subrange(s, e);
        let acc2 = if starts_with(w, seq![110u8, 111]) {
            if acc.len() == 0 {
                w
            } else {
                acc + seq![32u8] + w
            }
        } else {
            acc
        };
        if e <= s || e > c.len() {
            acc2
        } else {
            no_tokens(acc2, c, e)
        }
    }
}

/// The `rel` of an `<a>` with only the tokens that start with `no`
/// (`noopener`, `noreferrer`, `nofollow`); empty means the attribute goes.
pub fn filter_rel(c: &[u8]) -> (r: Vec<u8>)
    ensures
        r@ == no_tokens(Seq::empty(), c@, 0),
{
    let no: [u8; 2] = [110, 111];
    assert(no@ =~= seq![110u8, 111]);
    let n = c.len();
    let mut acc: Vec<u8> = Vec::new();
    let mut i: usize = 0;
    loop
        invariant
            i <= n == c@.len(),
            no@ == seq![110u8, 111],
            no_tokens(acc@, c@, i as int) == no_tokens(Seq::empty(), c@, 0),
        decreases n - i,
    {
        let mut s = i;
        while s < n && is_ws_byte(c[s])
            invariant
                i <= s <= n == c@.len(),
                word_start(c@, s as int) == word_start(c@, i as int),
            decreases n - s,
        {
            s += 1;
        }
        if s >= n {
            return acc;
        }
        let mut e = s;
        while e < n && !is_ws_byte(c[e])
            invariant
                s <= e <= n == c@.len(),
                word_end(c@, e as int) == word_end(c@, s as int),
            decreases n - e,
        {
            e += 1;
        }
        let w = &c[s..e];
        let ghost acc0 = acc@;
        if starts_with_exec(w, no.as_slice()) {
            if acc.len() > 0 {
                acc.push(32);
            }
            push_range(&mut acc, w, 0, w.len());
            proof {
                assert(w@.subrange(0, w@.len() as int) =~= w@);
                if acc0.len() == 0 {
                    assert(acc@ =~= w@);
                } else {
                    assert(acc@ =~= acc0 + seq![32u8] + w@);
                }
            }
        }
        if e <= s {
            return acc;
        }
        i = e;
    }
}

/// Whether a `<meta>` stays: `theme-color` with a `media` or `content`;
/// `referrer` and `viewport` with a `content`; any other with a `content`
/// and an `http-equiv` that is neither `X-UA-Compatible` nor `Content-Type`
/// (ASCII case ignored).
pub open spec fn meta_kept(name: Option<Seq<u8>>, http_equiv: Option<Seq<u8>>, has_media: bool, has_content: bool) -> bool {
    let n = match name {
        Some(n) => n,
        None => Seq::empty(),
    };
    if n == seq![116u8, 104, 101, 109, 101, 45, 99, 111, 108, 111, 114] {
        has_media || has_content
    } else if n == seq![114u8, 101, 102, 101, 114, 114, 101, 114] || n == seq![118u8, 105, 101, 119, 112, 111, 114, 116] {
        has_content
    } else {
        match http_equiv {
            Some(e) => !eq_ci(e, seq![88u8, 45, 85, 65, 45, 67, 111, 109, 112, 97, 116, 105, 98, 108, 101]) && !eq_ci(e, seq![67u8, 111, 110, 116, 101, 110, 116, 45, 84, 121, 112, 101]) && has_content,
            None => false,
        }
    }
}

pub fn meta_keep(name: Option<&[u8]>, http_equiv: Option<&[u8]>, has_media: bool, has_content: bool) -> (r: bool)
    ensures
        r == meta_kept(
            match name {
                Some(n) => Some(n@),
                None => None,
            },
            match http_equiv {
                Some(e) => Some(e@),
                None => None,
            },
            has_media,
            has_content,
        ),
{
    let tc: [u8; 11] = [116, 104, 101, 109, 101, 45, 99, 111, 108, 111, 114];
    assert(tc@ =~= seq![116u8, 104, 101, 109, 101, 45, 99, 111, 108, 111, 114]);
    let rf: [u8; 8] = [114, 101, 102, 101, 114, 114, 101, 114];
    assert(rf@ =~= seq![114u8, 101, 102, 101, 114, 114, 101, 114]);
    let vp: [u8; 8] = [118, 105, 101, 119, 112, 111, 114, 116];
    assert(vp@ =~= seq![118u8, 105, 101, 119, 112, 111, 114, 116]);
    let xua: [u8; 15] = [88, 45, 85, 65, 45, 67, 111, 109, 112, 97, 116, 105, 98, 108, 101];
    assert(xua@ =~= seq![88u8, 45, 85, 65, 45, 67, 111, 109, 112, 97, 116, 105, 98, 108, 101]);
    let ct: [u8; 12] = [67, 111, 110, 116, 101, 110, 116, 45, 84, 121, 112, 101];
    assert(ct@ =~= seq![67u8, 111, 110, 116, 101, 110, 116, 45, 84, 121, 112, 101]);
    let n: &[u8] = match name {
        Some(n) => n,
        None => &tc[0..0],
    };
    assert(name is None ==> n@ =~= Seq::<u8>::empty());
    if crate::bytes::bytes_eq(n, tc.as_slice()) {
        has_media || has_content
    } else if crate::bytes::bytes_eq(n, rf.as_slice()) || crate::bytes::bytes_eq(n, vp.as_slice()) {
        has_content
    } else {
        match http_equiv {
            Some(e) => !crate::bytes::bytes_eq_ci(e, xua.as_slice()) && !crate::bytes::bytes_eq_ci(e, ct.as_slice()) && has_content,
            None => false,
        }
    }
}

/// What happens to a `<link>`.
#[derive(Clone, Copy, Debug, PartialEq, Eq, Structural)]
pub enum LinkAction {
    /// The element goes.
    Remove,
    /// The element stays, with `fetchpriority=low`. `strip_attrs`: keep only
    /// `rel`, `href`, `media`, `integrity`, `crossorigin`, `referrerpolicy`
    /// and `disabled`. `to_preload`: turn the stylesheet into
    /// `rel=preload as=style onload="this.rel='stylesheet'"`.
    Keep { strip_attrs: bool, to_preload: bool },
}

/// The policy for a `<link>` with attribute `rel` (and `as`): alternates
/// go; manifests, stylesheets and style preloads stay; everything else goes.
/// When inline handlers may run, a stylesheet that is not disabled loads
/// asynchronously, and a style preload keeps its attributes.
pub open spec fn link_policy(rel: Seq<u8>, as_attr: Option<Seq<u8>>, inline_js: bool, disabled: bool) -> LinkAction {
    let is_style = exists|i: int| crate::bytes::occurs_at(rel, seq![115u8, 116, 121, 108, 101, 115, 104, 101, 101, 116], i);
    let like_style = rel == seq![112u8, 114, 101, 108, 111, 97, 100] && as_attr == Some(seq![115u8, 116, 121, 108, 101]);
    if exists|i: int| crate::bytes::occurs_at(rel, seq![97u8, 108, 116, 101, 114, 110, 97, 116, 101], i) {
        LinkAction::Remove
    } else if rel == seq![109u8, 97, 110, 105, 102, 101, 115, 116] || like_style || is_style {
        LinkAction::Keep { strip_attrs: !like_style || !inline_js, to_preload: inline_js && is_style && !disabled }
    } else {
        LinkAction::Remove
    }
}

pub fn link_action(rel: &[u8], as_attr: Option<&[u8]>, inline_js: bool, disabled: bool) -> (r: LinkAction)
    ensures
        r == link_policy(
            rel@,
            match as_attr {
                Some(a) => Some(a@),
                None => None,
            },
            inline_js,
            disabled,
        ),
{
    let alt: [u8; 9] = [97, 108, 116, 101, 114, 110, 97, 116, 101];
    assert(alt@ =~= seq![97u8, 108, 116, 101, 114, 110, 97, 116, 101]);
    let ss: [u8; 10] = [115, 116, 121, 108, 101, 115, 104, 101, 101, 116];
    assert(ss@ =~= seq![115u8, 116, 121, 108, 101, 115, 104, 101, 101, 116]);
    let pre: [u8; 7] = [112, 114, 101, 108, 111, 97, 100];
    assert(pre@ =~= seq![112u8, 114, 101, 108, 111, 97, 100]);
    let sty: [u8; 5] = [115, 116, 121, 108, 101];
    assert(sty@ =~= seq![115u8, 116, 121, 108, 101]);
    let man: [u8; 8] = [109, 97, 110, 105, 102, 101, 115, 116];
    assert(man@ =~= seq![109u8, 97, 110, 105, 102, 101, 115, 116]);
    if crate::bytes::find_bytes(rel, alt.as_slice()).is_some() {
        return LinkAction::Remove;
    }
    let is_style = crate::bytes::find_bytes(rel, ss.as_slice()).is_some();
    let like_style = crate::bytes::bytes_eq(rel, pre.as_slice()) && match as_attr {
        Some(a) => crate::bytes::bytes_eq(a, sty.as_slice()),
        None => false,
    };
    if crate::bytes::bytes_eq(rel, man.as_slice()) || like_style || is_style {
        LinkAction::Keep { strip_attrs: !like_style || !inline_js, to_preload: inline_js && is_style && !disabled }
    } else {
        LinkAction::Remove
    }
}

} // verus!
