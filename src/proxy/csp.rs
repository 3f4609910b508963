//! Whether a Content-Security-Policy lets inline JavaScript in attributes
//! (event handlers) run.

use crate::bytes::{bytes_eq, find_first, find_first_exec, is_ws, is_ws_byte, starts_with, starts_with_exec, trim, trim_range};
use crate::proxy::headers::{visible, HeaderMap};
use vstd::prelude::*;

verus! {

pub open spec fn name_csp() -> Seq<u8> {
    seq![99u8, 111, 110, 116, 101, 110, 116, 45, 115, 101, 99, 117, 114, 105, 116, 121, 45, 112, 111, 108, 105, 99, 121]
}

pub open spec fn dir_attr() -> Seq<u8> {
    seq![115u8, 99, 114, 105, 112, 116, 45, 115, 114, 99, 45, 97, 116, 116, 114]
}

pub open spec fn dir_script() -> Seq<u8> {
    seq![115u8, 99, 114, 105, 112, 116, 45, 115, 114, 99]
}

pub open spec fn dir_default() -> Seq<u8> {
    seq![100u8, 101, 102, 97, 117, 108, 116, 45, 115, 114, 99]
}

/// How specific a directive is (3 for `script-src-attr`, 2 for `script-src`,
/// 1 for `default-src`, 0 for any other), and the text after its name.
pub open spec fn directive(p: Seq<u8>) -> (int, Seq<u8>) {
    if starts_with(p, dir_attr()) {
        (3, p.subrange(15, p.len() as int))
    } else if starts_with(p, dir_script()) {
        (2, p.subrange(10, p.len() as int))
    } else if starts_with(p, dir_default()) {
        (1, p.subrange(11, p.len() as int))
    } else {
        (0, Seq::empty())
    }
}

/// The most specific of the `;`-separated directives of `s` (the last one
/// among equals), given the best one before `s`.
pub open spec fn best_directive(best: (int, Seq<u8>), s: Seq<u8>) -> (int, Seq<u8>)
    decreases s.len(),
{
    let j = find_first(s, 59, 0);
    let d = directive(trim(if j < 0 || j >= s.len() {
        s
    } else {
        s.subrange(0, j)
    }));
    let b2 = if d.0 > 0 && d.0 >= best.0 {
        d
    } else {
        best
    };
    if j < 0 || j >= s.len() {
        b2
    } else {
        best_directive(b2, s.subrange(j + 1, s.len() as int))
    }
}

/// A source expression that rules out inline handlers: a nonce, a hash or
/// `'strict-dynamic'`.
pub open spec fn forbidding_word(w: Seq<u8>) -> bool {
    &&& w.len() >= 7
    &&& {
        ||| w == seq![39u8, 115, 116, 114, 105, 99, 116, 45, 100, 121, 110, 97, 109, 105, 99, 39]
        ||| w.subrange(0, 7) == seq![39u8, 110, 111, 110, 99, 101, 45]
        ||| w.subrange(0, 7) == seq![39u8, 115, 104, 97, 50, 53, 54]
        ||| w.subrange(0, 7) == seq![39u8, 115, 104, 97, 51, 56, 52]
        ||| w.subrange(0, 7) == seq![39u8, 115, 104, 97, 53, 49, 50]
    }
}

pub open spec fn unsafe_inline() -> Seq<u8> {
    seq![39u8, 117, 110, 115, 97, 102, 101, 45, 105, 110, 108, 105, 110, 101, 39]
}

/// First whitespace byte at or after `i`, or the end.
pub open spec fn word_end(c: Seq<u8>, i: int) -> int
    decreases c.len() - i,
{
    if i < 0 || i >= c.len() || is_ws(c[i]) {
        i
    } else {
        word_end(c, i + 1)
    }
}

/// First non-whitespace byte at or after `i`, or the end.
pub open spec fn word_start(c: Seq<u8>, i: int) -> int
    decreases c.len() - i,
{
    if 0 <= i < c.len() && is_ws(c[i]) {
        word_start(c, i + 1)
    } else {
        i
    }
}

/// The whitespace-separated words of `c` from `i`: `None` once a forbidding
/// word appears, else whether `'unsafe-inline'` appeared (or `has` held).
pub open spec fn scan_words(c: Seq<u8>, i: int, has: bool) -> Option<bool>
    decreases c.len() - i,
{
    let s = word_start(c, i);
    if i < 0 || s >= c.len() || s < i {
        Some(has)
    } else {
        let e = word_end(c, s);
        let w = c.subrange(s, e);
        if forbidding_word(w) {
            None
        } else if e <= s || e > c.len() {
            Some(has)
        } else {
            scan_words(c, e, has || w == unsafe_inline())
        }
    }
}

/// One policy value lets inline handlers run: its most specific script
/// directive, if any, has `'unsafe-inline'` and no nonce, hash or
/// `'strict-dynamic'`.
pub open spec fn policy_allows(v: Seq<u8>) -> bool {
    let b = best_directive((0, Seq::empty()), v);
    b.0 == 0 || scan_words(b.1, 0, false) == Some(true)
}

/// Every readable policy value lets inline handlers run.
pub open spec fn policies_allow(vals: Seq<Seq<u8>>) -> bool {
    forall|i: int| 0 <= i < vals.len() ==> visible(#[trigger] vals[i]) ==> policy_allows(vals[i])
}

fn directive_exec(p: &[u8]) -> (r: (usize, usize))
    ensures
        r.1 <= p@.len(),
        r.0 as int == directive(p@).0,
        r.0 > 0 ==> p@.subrange(r.1 as int, p@.len() as int) == directive(p@).1,
{
    let a: [u8; 15] = [115, 99, 114, 105, 112, 116, 45, 115, 114, 99, 45, 97, 116, 116, 114];
    let s: [u8; 10] = [115, 99, 114, 105, 112, 116, 45, 115, 114, 99];
    let d: [u8; 11] = [100, 101, 102, 97, 117, 108, 116, 45, 115, 114, 99];
    assert(a@ =~= dir_attr());
    assert(s@ =~= dir_script());
    assert(d@ =~= dir_default());
    if starts_with_exec(p, a.as_slice()) {
        (3, 15)
    } else if starts_with_exec(p, s.as_slice()) {
        (2, 10)
    } else if starts_with_exec(p, d.as_slice()) {
        (1, 11)
    } else {
        (0, 0)
    }
}

fn is_forbidding_word(w: &[u8]) -> (r: bool)
    ensures
        r == forbidding_word(w@),
{
    if w.len() < 7 {
        return false;
    }
    let sd: [u8; 16] = [39, 115, 116, 114, 105, 99, 116, 45, 100, 121, 110, 97, 109, 105, 99, 39];
    let nonce: [u8; 7] = [39, 110, 111, 110, 99, 101, 45];
    let s256: [u8; 7] = [39, 115, 104, 97, 50, 53, 54];
    let s384: [u8; 7] = [39, 115, 104, 97, 51, 56, 52];
    let s512: [u8; 7] = [39, 115, 104, 97, 53, 49, 50];
    assert(sd@ =~= seq![39u8, 115, 116, 114, 105, 99, 116, 45, 100, 121, 110, 97, 109, 105, 99, 39]);
    assert(nonce@ =~= seq![39u8, 110, 111, 110, 99, 101, 45]);
    assert(s256@ =~= seq![39u8, 115, 104, 97, 50, 53, 54]);
    assert(s384@ =~= seq![39u8, 115, 104, 97, 51, 56, 52]);
    assert(s512@ =~= seq![39u8, 115, 104, 97, 53, 49, 50]);
    let head = &w[0..7];
    bytes_eq(w, sd.as_slice()) || bytes_eq(head, nonce.as_slice()) || bytes_eq(head, s256.as_slice())
        || bytes_eq(head, s384.as_slice()) || bytes_eq(head, s512.as_slice())
}

fn scan_words_exec(c: &[u8]) -> (r: Option<bool>)
    ensures
        r == scan_words(c@, 0, false),
{
    let ui: [u8; 15] = [39, 117, 110, 115, 97, 102, 101, 45, 105, 110, 108, 105, 110, 101, 39];
    assert(ui@ =~= unsafe_inline());
    let n = c.len();
    let mut i: usize = 0;
    let mut has = false;
    loop
        invariant
            i <= n == c@.len(),
            ui@ == unsafe_inline(),
            scan_words(c@, i as int, has) == scan_words(c@, 0, false),
        decreases n - i,
    {
        let mut s = i;
        while s < n && is_ws_byte(c[s])
            invariant
                i <= s <= n == c@.len(),
                word_start(c@, s as int) == word_start(c@, i as int),
            decreases n - s,
        {
            s += 1;
        }
        if s >= n {
            return Some(has);
        }
        let mut e = s;
        while e < n && !is_ws_byte(c[e])
            invariant
                s <= e <= n == c@.len(),
                word_end(c@, e as int) == word_end(c@, s as int),
            decreases n - e,
        {
            e += 1;
        }
        let w = &c[s..e];
        if is_forbidding_word(w) {
            return None;
        }
        if e <= s {
            return Some(has);
        }
        has = has || bytes_eq(w, ui.as_slice());
        i = e;
    }
}

/// Whether one policy value lets inline handlers run.
pub fn policy_allows_exec(v: &[u8]) -> (r: bool)
    ensures
        r == policy_allows(v@),
{
    let mut best_prio: usize = 0;
    let mut best_text: &[u8] = &v[0..0];
    assert(best_text@ =~= Seq::<u8>::empty());
    let mut rest: &[u8] = v;
    loop
        invariant
            best_directive((best_prio as int, best_text@), rest@) == best_directive((0, Seq::empty()), v@),
            best_prio <= 3,
        decreases rest@.len(),
    {
        let j = find_first_exec(rest, 59, 0);
        let piece: &[u8] = if j >= rest.len() {
            rest
        } else {
            &rest[0..j]
        };
        let (lo, hi) = trim_range(piece);
        let p = &piece[lo..hi];
        let (prio, skip) = directive_exec(p);
        if prio > 0 && prio >= best_prio {
            best_prio = prio;
            best_text = &p[skip..p.len()];
        }
        if j >= rest.len() {
            if best_prio == 0 {
                return true;
            }
            return scan_words_exec(best_text) == Some(true);
        }
        rest = &rest[j + 1..rest.len()];
    }
}

impl HeaderMap {
    /// Whether the response's Content-Security-Policy lets inline JavaScript
    /// in attributes run: every readable policy value whose most specific
    /// script directive (`script-src-attr`, then `script-src`, then
    /// `default-src`) exists has `'unsafe-inline'` there and no nonce, hash
    /// or `'strict-dynamic'`.
    pub fn csp_allow_inline_js_in_attrs(&self) -> (r: bool)
        ensures
            r == policies_allow(self.values(name_csp())),
    {
        let name: [u8; 23] = [99, 111, 110, 116, 101, 110, 116, 45, 115, 101, 99, 117, 114, 105, 116, 121, 45, 112, 111, 108, 105, 99, 121];
        assert(name@ =~= name_csp());
        let vals = self.get_all(name.as_slice());
        let ghost vs = vals@.map_values(|x: Vec<u8>| x@);
        let mut i: usize = 0;
        while i < vals.len()
            invariant
                i <= vals@.len(),
                vs == vals@.map_values(|x: Vec<u8>| x@),
                vs == self.values(name_csp()),
                forall|j: int| 0 <= j < i ==> visible(#[trigger] vs[j]) ==> policy_allows(vs[j]),
            decreases vals@.len() - i,
        {
            let v = vals[i].as_slice();
            let readable = crate::proxy::headers::is_visible_value(v);
            if readable && !policy_allows_exec(v) {
                assert(v@ == vs[i as int]);
                assert(visible(vs[i as int]) && !policy_allows(vs[i as int]));
                return false;
            }
            i += 1;
        }
        true
    }
}

} // verus!
