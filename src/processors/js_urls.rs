//! A single-pass JavaScript lexer that hands out the string literals which
//! look like absolute URLs. It tracks comments, strings, template literals
//! with nested `${...}` scopes, and whether a `/` starts a regular expression.

use crate::bytes::{find_bytes, is_alnum, is_alnum_byte, is_ws, is_ws_byte};
use vstd::prelude::*;

verus! {

pub open spec fn host_byte(b: u8) -> bool {
    is_alnum(b) || b == 45 || b == 46
}

/// Length of an optional `http:` / `https:` prefix (in any case), 0
/// without one, -1 for a malformed one.
pub open spec fn scheme_len(s: Seq<u8>) -> int {
    if s.len() >= 4 && (s[0] == 104 || s[0] == 72) && (s[1] == 116 || s[1] == 84) && (s[2] == 116
        || s[2] == 84) && (s[3] == 112 || s[3] == 80) {
        let q: int = if s.len() > 4 && (s[4] == 115 || s[4] == 83) {
            5
        } else {
            4
        };
        if q < s.len() && s[q] == 58 {
            q + 1
        } else {
            -1
        }
    } else {
        0
    }
}

/// A host: labels of letters, digits and `-`, joined by single dots, at
/// least one dot, neither starting nor ending with `.` or `-`.
pub open spec fn valid_host(h: Seq<u8>) -> bool {
    &&& h.len() > 0
    &&& forall|i: int| 0 <= i < h.len() ==> host_byte(#[trigger] h[i])
    &&& h[0] != 46 && h[0] != 45
    &&& h[h.len() - 1] != 46 && h[h.len() - 1] != 45
    &&& forall|i: int| 0 <= i < h.len() - 1 ==> !(#[trigger] h[i] == 46 && h[i + 1] == 46)
    &&& exists|i: int| 0 <= i < h.len() && #[trigger] h[i] == 46
}

/// At least 8 bytes; an optional `http:`/`https:`; then `//`, a host, and a `/`.
pub open spec fn likely_url(s: Seq<u8>) -> bool {
    let p = scheme_len(s);
    &&& s.len() >= 8
    &&& p >= 0
    &&& p + 2 <= s.len()
    &&& s[p] == 47 && s[p + 1] == 47
    &&& exists|e: int| p + 2 <= e < s.len() && s[e] == 47 && valid_host(#[trigger] s.subrange(p + 2, e))
}

/// Whether a string literal's contents look like an absolute URL.
pub fn is_likely_url(s: &[u8]) -> (r: bool)
    ensures
        r == likely_url(s@),
{
    let len = s.len();
    if len < 8 {
        return false;
    }
    let mut p: usize = 0;
    if (s[0] == 104 || s[0] == 72) && (s[1] == 116 || s[1] == 84) && (s[2] == 116 || s[2]
        == 84) && (s[3] == 112 || s[3] == 80) {
        p = 4;
        if s[4] == 115 || s[4] == 83 {
            p = 5;
        }
        if p >= len || s[p] != 58 {
            return false;
        }
        p = p + 1;
    }
    assert(p as int == scheme_len(s@));
    if p + 2 > len || s[p] != 47 || s[p + 1] != 47 {
        return false;
    }
    let h = p + 2;
    let mut i = h;
    let mut has_dot = false;
    while i < len
        invariant
            h <= i <= len == s@.len(),
            h as int == scheme_len(s@) + 2,
            scheme_len(s@) >= 0,
            s@.len() >= 8,
            s@[h - 2] == 47 && s@[h - 1] == 47,
            forall|j: int| h <= j < i ==> host_byte(#[trigger] s@[j]),
            i > h ==> s@[h as int] != 46 && s@[h as int] != 45,
            forall|j: int| h <= j < i - 1 ==> !(#[trigger] s@[j] == 46 && s@[j + 1] == 46),
            has_dot == exists|j: int| h <= j < i && #[trigger] s@[j] == 46,
        decreases len - i,
    {
        let b = s[i];
        if b == 47 {
            if i == h || !has_dot || s[i - 1] == 46 || s[i - 1] == 45 {
                proof {
                    assert forall|e: int| h <= e < s@.len() && s@[e] == 47 implies !valid_host(
                        #[trigger] s@.subrange(h as int, e),
                    ) by {
                        let hs = s@.subrange(h as int, e);
                        if e > i {
                            assert(hs[i - h] == 47);
                            assert(!host_byte(hs[i - h]));
                        } else if e < i {
                            assert(!host_byte(s@[e]));
                        } else if i > h && has_dot {
                            assert(hs[hs.len() - 1] == s@[i - 1]);
                        } else if i > h {
                            assert forall|k: int| 0 <= k < hs.len() implies hs[k] != 46 by {
                                assert(hs[k] == s@[h + k]);
                            }
                        }
                    }
                }
                return false;
            }
            proof {
                let hs = s@.subrange(h as int, i as int);
                let w = choose|j: int| h <= j < i && #[trigger] s@[j] == 46;
                assert(hs[w - h] == 46);
                assert forall|k: int| 0 <= k < hs.len() implies host_byte(#[trigger] hs[k]) by {
                    assert(hs[k] == s@[h + k]);
                }
                assert forall|k: int| 0 <= k < hs.len() - 1 implies !(#[trigger] hs[k] == 46
                    && hs[k + 1] == 46) by {
                    assert(hs[k] == s@[h + k]);
                    assert(hs[k + 1] == s@[h + k + 1]);
                }
                assert(valid_host(hs));
                assert(s@[i as int] == 47);
                assert(s@.subrange(scheme_len(s@) + 2, i as int) == hs);
            }
            return true;
        }
        if b == 46 {
            if i == h || s[i - 1] == 46 {
                proof {
                    assert forall|e: int| h <= e < s@.len() && s@[e] == 47 implies !valid_host(
                        #[trigger] s@.subrange(h as int, e),
                    ) by {
                        let hs = s@.subrange(h as int, e);
                        if e < i {
                            assert(!host_byte(s@[e]));
                        } else if e == i {
                            assert(s@[e] == 46);
                        } else if i == h {
                            assert(hs[0] == 46);
                        } else {
                            assert(hs[i - 1 - h] == 46 && hs[i - h] == 46);
                        }
                    }
                }
                return false;
            }
            has_dot = true;
        } else if !(is_alnum_byte(b) || b == 45) {
            proof {
                assert forall|e: int| h <= e < s@.len() && s@[e] == 47 implies !valid_host(
                    #[trigger] s@.subrange(h as int, e),
                ) by {
                    let hs = s@.subrange(h as int, e);
                    if e <= i {
                        if e < i {
                            assert(!host_byte(s@[e]));
                        }
                    } else {
                        assert(hs[i - h] == b);
                    }
                }
            }
            return false;
        } else if i == h && b == 45 {
            proof {
                assert forall|e: int| h <= e < s@.len() && s@[e] == 47 implies !valid_host(
                    #[trigger] s@.subrange(h as int, e),
                ) by {
                    if e > h {
                        assert(s@.subrange(h as int, e)[0] == 45);
                    }
                }
            }
            return false;
        }
        i += 1;
    }
    proof {
        assert forall|e: int| h <= e < s@.len() && s@[e] == 47 implies !valid_host(
            #[trigger] s@.subrange(h as int, e),
        ) by {
            assert(host_byte(s@[e]));
        }
    }
    false
}

} // verus!

verus! {

/// Identifier bytes and the dot: letters, digits, `$`, `_`, `.`.
pub open spec fn ident_or_dot(b: u8) -> bool {
    is_alnum(b) || b == 36 || b == 95 || b == 46
}

pub fn is_ident_or_dot(b: u8) -> (r: bool)
    ensures
        r == ident_or_dot(b),
{
    is_alnum_byte(b) || b == 36 || b == 95 || b == 46
}

pub fn is_ident_or_dot_or_whitespace(b: u8) -> (r: bool)
    ensures
        r == (ident_or_dot(b) || is_ws(b)),
{
    is_ident_or_dot(b) || is_ws_byte(b)
}

/// The keywords after which a `/` starts a regular expression.
pub open spec fn regexp_keyword(w: Seq<u8>) -> bool {
    ||| w == seq![114u8, 101, 116, 117, 114, 110]
    ||| w == seq![97u8, 119, 97, 105, 116]
    ||| w == seq![121u8, 105, 101, 108, 100]
    ||| w == seq![99u8, 97, 115, 101]
    ||| w == seq![100u8, 101, 108, 101, 116, 101]
    ||| w == seq![100u8, 111]
    ||| w == seq![101u8, 108, 115, 101]
    ||| w == seq![105u8, 110]
    ||| w == seq![105u8, 110, 115, 116, 97, 110, 99, 101, 111, 102]
    ||| w == seq![110u8, 101, 119]
    ||| w == seq![116u8, 104, 114, 111, 119]
    ||| w == seq![116u8, 121, 112, 101, 111, 102]
    ||| w == seq![118u8, 111, 105, 100]
    ||| w == seq![101u8, 120, 116, 101, 110, 100, 115]
}

fn word_is(w: &[u8], k: &[u8]) -> (r: bool)
    ensures
        r == (w@ == k@),
{
    crate::bytes::bytes_eq(w, k)
}

/// Whether a word (identifier text, dots kept) is one of the keywords after
/// which a `/` starts a regular expression.
pub fn is_regexp_keyword(w: &[u8]) -> (r: bool)
    ensures
        r == regexp_keyword(w@),
{
    let kw_return: [u8; 6] = [114, 101, 116, 117, 114, 110];
    let kw_await: [u8; 5] = [97, 119, 97, 105, 116];
    let kw_yield: [u8; 5] = [121, 105, 101, 108, 100];
    let kw_case: [u8; 4] = [99, 97, 115, 101];
    let kw_delete: [u8; 6] = [100, 101, 108, 101, 116, 101];
    let kw_do: [u8; 2] = [100, 111];
    let kw_else: [u8; 4] = [101, 108, 115, 101];
    let kw_in: [u8; 2] = [105, 110];
    let kw_instanceof: [u8; 10] = [105, 110, 115, 116, 97, 110, 99, 101, 111, 102];
    let kw_new: [u8; 3] = [110, 101, 119];
    let kw_throw: [u8; 5] = [116, 104, 114, 111, 119];
    let kw_typeof: [u8; 6] = [116, 121, 112, 101, 111, 102];
    let kw_void: [u8; 4] = [118, 111, 105, 100];
    let kw_extends: [u8; 7] = [101, 120, 116, 101, 110, 100, 115];
    proof {
        assert(kw_return@ =~= seq![114u8, 101, 116, 117, 114, 110]);
        assert(kw_await@ =~= seq![97u8, 119, 97, 105, 116]);
        assert(kw_yield@ =~= seq![121u8, 105, 101, 108, 100]);
        assert(kw_case@ =~= seq![99u8, 97, 115, 101]);
        assert(kw_delete@ =~= seq![100u8, 101, 108, 101, 116, 101]);
        assert(kw_do@ =~= seq![100u8, 111]);
        assert(kw_else@ =~= seq![101u8, 108, 115, 101]);
        assert(kw_in@ =~= seq![105u8, 110]);
        assert(kw_instanceof@ =~= seq![105u8, 110, 115, 116, 97, 110, 99, 101, 111, 102]);
        assert(kw_new@ =~= seq![110u8, 101, 119]);
        assert(kw_throw@ =~= seq![116u8, 104, 114, 111, 119]);
        assert(kw_typeof@ =~= seq![116u8, 121, 112, 101, 111, 102]);
        assert(kw_void@ =~= seq![118u8, 111, 105, 100]);
        assert(kw_extends@ =~= seq![101u8, 120, 116, 101, 110, 100, 115]);
    }
    word_is(w, kw_return.as_slice()) || word_is(w, kw_await.as_slice()) || word_is(
        w,
        kw_yield.as_slice(),
    ) || word_is(w, kw_case.as_slice()) || word_is(w, kw_delete.as_slice()) || word_is(
        w,
        kw_do.as_slice(),
    ) || word_is(w, kw_else.as_slice()) || word_is(w, kw_in.as_slice()) || word_is(
        w,
        kw_instanceof.as_slice(),
    ) || word_is(w, kw_new.as_slice()) || word_is(w, kw_throw.as_slice()) || word_is(
        w,
        kw_typeof.as_slice(),
    ) || word_is(w, kw_void.as_slice()) || word_is(w, kw_extends.as_slice())
}

/// Whether the lexer is in script code or in the text of a template literal.
#[derive(Clone, Copy, Debug, PartialEq, Eq, Structural)]
pub enum Mode {
    Script,
    Template,
}

/// One open scope: its mode, its open braces, and whether a `/` here would
/// start a regular expression.
#[derive(Clone, Copy, Debug, PartialEq, Eq, Structural)]
pub struct Context {
    pub mode: Mode,
    pub brace_depth: usize,
    pub regexp_allowed: bool,
}

pub open spec fn script_ctx() -> Context {
    Context { mode: Mode::Script, brace_depth: 0, regexp_allowed: true }
}

pub open spec fn template_ctx() -> Context {
    Context { mode: Mode::Template, brace_depth: 0, regexp_allowed: false }
}

/// The innermost scope with its regexp flag set to `a`.
pub open spec fn set_re(st: Seq<Context>, a: bool) -> Seq<Context> {
    st.update(st.len() - 1, Context { regexp_allowed: a, ..st.last() })
}

/// Reads from `pos` to just past the next `x` or `y` not escaped by a
/// backslash: the position then and the byte found (0 at the end).
pub open spec fn scan_to(src: Seq<u8>, pos: int, x: u8, y: u8) -> (int, u8)
    decreases src.len() + 2 - pos,
{
    if pos < 0 || pos >= src.len() {
        (pos, 0u8)
    } else if src[pos] == 92 {
        scan_to(src, pos + 2, x, y)
    } else if src[pos] == x || src[pos] == y {
        (pos + 1, src[pos])
    } else {
        scan_to(src, pos + 1, x, y)
    }
}

/// Just past the `/` that ends a regular expression whose body starts at
/// `pos` (a `/` inside `[...]` does not end it); none at the end of input.
pub open spec fn regex_end(src: Seq<u8>, pos: int) -> Option<int>
    decreases src.len() + 2 - pos,
{
    let (p1, f) = scan_to(src, pos, 47, 91);
    if f == 47 {
        Some(p1)
    } else if f == 91 {
        let (p2, g) = scan_to(src, p1, 93, 93);
        if g == 0 || p2 <= pos || p2 > src.len() + 2 {
            None
        } else {
            regex_end(src, p2)
        }
    } else {
        None
    }
}

/// Index of the first `*/` at or after `i`.
pub open spec fn comment_close(src: Seq<u8>, i: int) -> Option<int>
    decreases src.len() - i,
{
    if i < 0 || i + 2 > src.len() {
        None
    } else if src[i] == 42 && src[i + 1] == 47 {
        Some(i)
    } else {
        comment_close(src, i + 1)
    }
}

/// End of the identifier run (identifier bytes, dots, whitespace) from `pos`.
pub open spec fn ident_end(src: Seq<u8>, pos: int) -> int
    decreases src.len() - pos,
{
    if 0 <= pos < src.len() && (ident_or_dot(src[pos]) || is_ws(src[pos])) {
        ident_end(src, pos + 1)
    } else {
        pos
    }
}

/// `e` moved back over trailing whitespace, not before `start`.
pub open spec fn ws_back(src: Seq<u8>, start: int, e: int) -> int
    decreases e - start,
{
    if e > start && is_ws(src[e - 1]) {
        ws_back(src, start, e - 1)
    } else {
        e
    }
}

/// A byte after which a `/` starts a regular expression.
pub open spec fn opens_regexp(b: u8) -> bool {
    b == 40 || b == 91 || b == 59 || b == 44 || b == 33 || b == 61 || b == 60 || b == 62 || b == 43 || b == 45
        || b == 42 || b == 37 || b == 38 || b == 124 || b == 94 || b == 126 || b == 63 || b == 58
}

/// One step of the lexer at `pos` (before the end) with scopes `st`: the
/// next position and scopes, a URL literal found, and whether lexing stops.
pub open spec fn step(src: Seq<u8>, pos: int, st: Seq<Context>) -> (int, Seq<Context>, Option<(usize, usize)>, bool) {
    if st.len() == 0 {
        (pos, st, None, true)
    } else if st.last().mode == Mode::Template {
        let (p1, f) = scan_to(src, pos, 96, 36);
        if f == 96 {
            (p1, st.drop_last(), None, st.len() == 1)
        } else if f == 36 && p1 < src.len() && src[p1] == 123 {
            (p1 + 1, st.push(script_ctx()), None, false)
        } else {
            (p1, st, None, false)
        }
    } else {
        let b = src[pos];
        let p = pos + 1;
        let top = st.last();
        if b == 47 {
            if p >= src.len() {
                (p, st, None, true)
            } else if src[p] == 47 {
                (scan_to(src, p + 1, 10, 10).0, st, None, false)
            } else if src[p] == 42 {
                match comment_close(src, p + 1) {
                    Some(i) => (i + 2, st, None, false),
                    None => (p, st, None, true),
                }
            } else if top.regexp_allowed {
                match regex_end(src, p) {
                    Some(p2) => (p2, set_re(st, false), None, false),
                    None => (p, st, None, true),
                }
            } else {
                (p, set_re(st, true), None, false)
            }
        } else if b == 123 {
            (p, st.update(st.len() - 1, Context { regexp_allowed: true, brace_depth: (top.brace_depth + 1) as usize, ..top }), None, false)
        } else if opens_regexp(b) {
            (p, set_re(st, true), None, false)
        } else if b == 41 || b == 93 {
            (p, set_re(st, false), None, false)
        } else if b == 125 {
            if top.brace_depth > 0 {
                (p, st.update(st.len() - 1, Context { brace_depth: (top.brace_depth - 1) as usize, regexp_allowed: false, ..top }), None, false)
            } else {
                (p, st.drop_last(), None, st.len() == 1)
            }
        } else if b == 96 {
            (p, st.push(template_ctx()), None, false)
        } else if b == 39 || b == 34 {
            let (p2, f) = scan_to(src, p, b, b);
            if f == 0 {
                (p2, st, None, true)
            } else if likely_url(src.subrange(p, p2 - 1)) {
                (p2, set_re(st, false), Some((p as usize, (p2 - 1) as usize)), false)
            } else {
                (p2, set_re(st, false), None, false)
            }
        } else if ident_or_dot(b) {
            let e = ident_end(src, p);
            (e, set_re(st, regexp_keyword(src.subrange(pos, ws_back(src, pos, e)))), None, false)
        } else if !is_ws(b) {
            (p, set_re(st, false), None, false)
        } else {
            (p, st, None, false)
        }
    }
}

/// The lexer run from `pos` with scopes `st` up to the next URL literal:
/// that literal (none when the input ends or lexing stops) with the position
/// and scopes after it.
pub open spec fn lex(src: Seq<u8>, pos: int, st: Seq<Context>) -> (Option<(usize, usize)>, int, Seq<Context>)
    decreases src.len() + 1 - pos,
{
    if pos < 0 || pos >= src.len() {
        (None, pos, st)
    } else {
        let (p2, st2, out, stop) = step(src, pos, st);
        if stop || p2 <= pos || p2 > src.len() + 1 {
            (None, p2, st2)
        } else if out is Some {
            (out, p2, st2)
        } else {
            lex(src, p2, st2)
        }
    }
}

/// Every URL literal the lexer yields from `pos` with scopes `st`, in order.
pub open spec fn url_literals(src: Seq<u8>, pos: int, st: Seq<Context>) -> Seq<(usize, usize)>
    decreases src.len() + 2 - pos,
{
    let (o, p2, st2) = lex(src, pos, st);
    match o {
        None => Seq::empty(),
        Some(x) => if p2 <= pos || p2 > src.len() + 1 {
            Seq::empty()
        } else {
            seq![x] + url_literals(src, p2, st2)
        },
    }
}

/// Lexer state over one script. Each call of `next_range` resumes where the
/// previous one stopped.
pub struct JsUrlsIterator<'a> {
    src: &'a [u8],
    pos: usize,
    stack: Vec<Context>,
}

impl<'a> JsUrlsIterator<'a> {
    pub closed spec fn wf(&self) -> bool {
        &&& self.src@.len() <= isize::MAX
        &&& self.pos <= self.src@.len() + 1
        &&& forall|k: int| 0 <= k < self.stack@.len() ==> #[trigger] self.stack@[k].brace_depth <= self.pos
    }

    /// The script being lexed.
    pub closed spec fn source(&self) -> Seq<u8> {
        self.src@
    }

    /// How far the lexer has read.
    pub closed spec fn position(&self) -> int {
        self.pos as int
    }

    /// The open scopes, outermost first.
    pub closed spec fn scopes(&self) -> Seq<Context> {
        self.stack@
    }

    /// How many scopes are open.
    pub open spec fn depth(&self) -> nat {
        self.scopes().len()
    }

    pub fn new(src: &'a [u8]) -> (r: Self)
        requires
            src@.len() <= isize::MAX,
        ensures
            r.wf(),
            r.source() == src@,
            r.position() == 0,
            r.scopes() == seq![script_ctx()],
    {
        let mut stack: Vec<Context> = Vec::new();
        stack.push(Context { mode: Mode::Script, brace_depth: 0, regexp_allowed: true });
        let r = JsUrlsIterator { src, pos: 0, stack };
        assert(r.stack@ =~= seq![script_ctx()]);
        r
    }

    fn peek_byte(&self) -> (r: u8)
        ensures
            r == (if self.pos < self.src@.len() {
                self.src@[self.pos as int]
            } else {
                0u8
            }),
    {
        if self.pos < self.src.len() {
            self.src[self.pos]
        } else {
            0
        }
    }

    fn scan_to(&mut self, x: u8, y: u8) -> (r: u8)
        requires
            old(self).wf(),
            x != 0 && y != 0 && x != 92 && y != 92,
        ensures
            final(self).wf(),
            final(self).src == old(self).src,
            final(self).stack == old(self).stack,
            (final(self).pos as int, r) == scan_to(old(self).src@, old(self).pos as int, x, y),
            final(self).pos >= old(self).pos,
            r != 0 ==> (r == x || r == y) && old(self).pos < final(self).pos <= final(self).src@.len()
                && final(self).src@[final(self).pos - 1] == r,
            old(self).pos < old(self).src@.len() ==> final(self).pos > old(self).pos,
    {
        while self.pos < self.src.len()
            invariant
                self.wf(),
                self.src == old(self).src,
                self.stack == old(self).stack,
                self.pos >= old(self).pos,
                old(self).pos < old(self).src@.len() ==> self.pos > old(self).pos || self.pos == old(self).pos,
                scan_to(self.src@, self.pos as int, x, y) == scan_to(old(self).src@, old(self).pos as int, x, y),
                x != 0 && y != 0 && x != 92 && y != 92,
            decreases self.src@.len() + 1 - self.pos,
        {
            let b = self.src[self.pos];
            self.pos += 1;
            if b == 92 {
                self.pos += 1;
            } else if b == x || b == y {
                return b;
            }
        }
        0
    }

    fn top(&self) -> (r: Context)
        requires
            self.stack@.len() > 0,
        ensures
            r == self.stack@.last(),
    {
        self.stack[self.stack.len() - 1]
    }

    fn set_regexp_allowed(&mut self, allowed: bool)
        requires
            old(self).stack@.len() > 0,
            old(self).wf(),
        ensures
            final(self).src == old(self).src,
            final(self).pos == old(self).pos,
            final(self).stack@ == set_re(old(self).stack@, allowed),
            final(self).wf(),
    {
        let n = self.stack.len();
        let mut c = self.stack[n - 1];
        c.regexp_allowed = allowed;
        self.stack.set(n - 1, c);
    }

    fn skip_regex(&mut self) -> (r: bool)
        requires
            old(self).wf(),
            old(self).pos <= old(self).src@.len(),
        ensures
            final(self).wf(),
            final(self).src == old(self).src,
            final(self).stack == old(self).stack,
            final(self).pos >= old(self).pos,
            r == regex_end(old(self).src@, old(self).pos as int) is Some,
            r ==> regex_end(old(self).src@, old(self).pos as int) == Some(final(self).pos as int),
    {
        let ghost p0 = self.pos as int;
        loop
            invariant
                self.wf(),
                self.src == old(self).src,
                self.stack == old(self).stack,
                self.pos >= old(self).pos,
                regex_end(self.src@, self.pos as int) == regex_end(self.src@, p0),
                p0 == old(self).pos,
            decreases self.src@.len() + 2 - self.pos,
        {
            let here = self.pos;
            let f = self.scan_to(47, 91);
            if f == 47 {
                return true;
            } else if f == 91 {
                let g = self.scan_to(93, 93);
                if g == 0 || self.pos <= here {
                    return false;
                }
            } else {
                return false;
            }
        }
    }

    /// One step of the lexer (see `step`): the URL literal it found, and
    /// whether lexing stops.
    fn step_once(&mut self) -> (r: (Option<(usize, usize)>, bool))
        requires
            old(self).wf(),
            old(self).pos < old(self).src@.len(),
        ensures
            final(self).wf(),
            final(self).src == old(self).src,
            final(self).pos >= old(self).pos,
            r.1 ==> step(old(self).src@, old(self).pos as int, old(self).stack@).3 && r.0 is None,
            !r.1 ==> {
                let stp = step(old(self).src@, old(self).pos as int, old(self).stack@);
                &&& !stp.3
                &&& final(self).pos as int == stp.0
                &&& final(self).stack@ == stp.1
                &&& r.0 == stp.2
                &&& final(self).pos > old(self).pos
            },
            r.0 matches Some((a, e)) ==> {
                let s = final(self).src@;
                &&& old(self).pos < a <= e < s.len()
                &&& s[a - 1] == 39u8 || s[a - 1] == 34u8
                &&& s[e as int] == s[a - 1]
                &&& likely_url(s.subrange(a as int, e as int))
                &&& final(self).pos == e + 1
            },
    {
        let len = self.src.len();
        let ghost s0 = self.stack@;
        let ghost p0 = self.pos as int;
        let ghost stp = step(self.src@, p0, s0);
        if self.stack.len() == 0 {
            return (None, true);
        }
        let top = self.top();
        if top.mode == Mode::Template {
            let f = self.scan_to(96, 36);
            if f == 96 {
                self.stack.pop();
                assert(self.stack@ =~= s0.drop_last());
                if self.stack.len() == 0 {
                    return (None, true);
                }
            } else if f == 36 && self.peek_byte() == 123 {
                self.pos += 1;
                self.stack.push(Context { mode: Mode::Script, brace_depth: 0, regexp_allowed: true });
            }
            assert(self.pos as int == stp.0 && self.stack@ == stp.1);
            return (None, false);
        }
        let b = self.src[self.pos];
        self.pos += 1;
        if b == 47 {
            if self.pos >= len {
                return (None, true);
            }
            let c = self.src[self.pos];
            if c == 47 {
                self.pos += 1;
                self.scan_to(10, 10);
            } else if c == 42 {
                self.pos += 1;
                let end_mark: [u8; 2] = [42, 47];
                assert(end_mark@ =~= close_mark());
                let from = self.pos;
                match find_bytes(&self.src[from..len], end_mark.as_slice()) {
                    Some(i) => {
                        proof {
                            lemma_comment_close(self.src@, from as int, i as int);
                        }
                        self.pos = from + i + 2;
                    },
                    None => {
                        proof {
                            lemma_comment_close_none(self.src@, from as int);
                        }
                        return (None, true);
                    },
                }
            } else if top.regexp_allowed {
                if !self.skip_regex() {
                    return (None, true);
                }
                self.set_regexp_allowed(false);
            } else {
                self.set_regexp_allowed(true);
            }
        } else if b == 123 {
            let n = self.stack.len();
            let mut c = self.stack[n - 1];
            c.regexp_allowed = true;
            c.brace_depth = c.brace_depth + 1;
            self.stack.set(n - 1, c);
        } else if b == 40 || b == 91 || b == 59 || b == 44 || b == 33 || b == 61 || b == 60 || b
            == 62 || b == 43 || b == 45 || b == 42 || b == 37 || b == 38 || b == 124 || b == 94
            || b == 126 || b == 63 || b == 58 {
            self.set_regexp_allowed(true);
        } else if b == 41 || b == 93 {
            self.set_regexp_allowed(false);
        } else if b == 125 {
            let n = self.stack.len();
            let mut c = self.stack[n - 1];
            if c.brace_depth > 0 {
                c.brace_depth = c.brace_depth - 1;
                c.regexp_allowed = false;
                self.stack.set(n - 1, c);
            } else {
                self.stack.pop();
                assert(self.stack@ =~= s0.drop_last());
                if self.stack.len() == 0 {
                    return (None, true);
                }
            }
        } else if b == 96 {
            self.stack.push(Context { mode: Mode::Template, brace_depth: 0, regexp_allowed: false });
        } else if b == 39 || b == 34 {
            let start = self.pos;
            let found = self.scan_to(b, b);
            if found == 0 {
                return (None, true);
            }
            self.set_regexp_allowed(false);
            let end = self.pos - 1;
            let may_be_url = &self.src[start..end];
            if is_likely_url(may_be_url) {
                assert(stp.2 == Some((start, end)));
                return (Some((start, end)), false);
            }
        } else if is_ident_or_dot(b) {
            let start = self.pos - 1;
            while is_ident_or_dot_or_whitespace(self.peek_byte())
                invariant
                    self.wf(),
                    len == self.src@.len(),
                    self.src == old(self).src,
                    start < self.pos <= len,
                    self.stack@ == s0,
                    self.stack@.len() > 0,
                    ident_end(self.src@, self.pos as int) == ident_end(self.src@, start + 1),
                decreases len - self.pos,
            {
                self.pos += 1;
            }
            let mut e = self.pos;
            while e > start && is_ws_byte(self.src[e - 1])
                invariant
                    start <= e <= self.pos <= len,
                    len == self.src@.len(),
                    ws_back(self.src@, start as int, e as int) == ws_back(self.src@, start as int, self.pos as int),
                decreases e,
            {
                e -= 1;
            }
            let kw = is_regexp_keyword(&self.src[start..e]);
            self.set_regexp_allowed(kw);
        } else if !is_ws_byte(b) {
            self.set_regexp_allowed(false);
        }
        assert(self.pos as int == stp.0 && self.stack@ == stp.1 && stp.2 is None && !stp.3);
        (None, false)
    }

    /// The next string literal, as a range of the source, whose contents look
    /// like an absolute URL (see `lex`); `None` when the script ends or
    /// cannot be lexed further. A range handed out lies strictly inside one
    /// quoted literal and after everything read before.
    pub fn next_range(&mut self) -> (r: Option<(usize, usize)>)
        requires
            old(self).wf(),
        ensures
            final(self).wf(),
            final(self).source() == old(self).source(),
            r == lex(old(self).source(), old(self).position(), old(self).scopes()).0,
            r is Some ==> final(self).position() == lex(old(self).source(), old(self).position(), old(self).scopes()).1
                && final(self).scopes() == lex(old(self).source(), old(self).position(), old(self).scopes()).2,
            final(self).position() >= old(self).position(),
            final(self).position() <= final(self).source().len() + 1,
            r matches Some((a, e)) ==> {
                let s = final(self).source();
                &&& old(self).position() < a <= e < s.len()
                &&& s[a - 1] == 39u8 || s[a - 1] == 34u8
                &&& s[e as int] == s[a - 1]
                &&& likely_url(s.subrange(a as int, e as int))
                &&& final(self).position() == e + 1
            },
    {
        let len = self.src.len();
        let ghost target = lex(self.src@, self.pos as int, self.stack@);
        while self.pos < len
            invariant
                self.wf(),
                len == self.src@.len(),
                self.src == old(self).src,
                self.pos >= old(self).pos,
                target == lex(old(self).src@, old(self).pos as int, old(self).stack@),
                lex(self.src@, self.pos as int, self.stack@) == target,
            decreases len + 1 - self.pos,
        {
            let (out, stop) = self.step_once();
            if stop {
                return None;
            }
            if out.is_some() {
                return out;
            }
        }
        None
    }

    /// The next string literal whose contents look like an absolute URL, as a
    /// slice of the source (see `next_range`).
    pub fn next(&mut self) -> (r: Option<&'a [u8]>)
        requires
            old(self).wf(),
        ensures
            final(self).wf(),
            final(self).source() == old(self).source(),
            final(self).position() >= old(self).position(),
            r is Some == lex(old(self).source(), old(self).position(), old(self).scopes()).0 is Some,
            r matches Some(u) ==> {
                let (a, e) = lex(old(self).source(), old(self).position(), old(self).scopes()).0->Some_0;
                &&& u@ == old(self).source().subrange(a as int, e as int)
                &&& old(self).position() < a
                &&& final(self).position() == e + 1
                &&& likely_url(u@)
            },
    {
        match self.next_range() {
            Some((a, e)) => {
                let u = &self.src[a..e];
                Some(u)
            },
            None => None,
        }
    }
}

/// `*/`
pub open spec fn close_mark() -> Seq<u8> {
    seq![42u8, 47]
}

/// With no `*/` from `from`, there is no comment close.
proof fn lemma_comment_close_none(src: Seq<u8>, from: int)
    requires
        0 <= from <= src.len(),
        forall|j: int| !#[trigger] crate::bytes::occurs_at(src.subrange(from, src.len() as int), close_mark(), j),
    ensures
        comment_close(src, from) is None,
    decreases src.len() - from,
{
    let h = src.subrange(from, src.len() as int);
    if from + 2 <= src.len() {
        if src[from] == 42 && src[from + 1] == 47 {
            assert(h.subrange(0, 2) =~= close_mark());
            assert(crate::bytes::occurs_at(h, close_mark(), 0));
        }
        assert forall|j: int| !#[trigger] crate::bytes::occurs_at(src.subrange(from + 1, src.len() as int), close_mark(), j) by {
            if crate::bytes::occurs_at(src.subrange(from + 1, src.len() as int), close_mark(), j) {
                assert(src.subrange(from + 1, src.len() as int).subrange(j, j + 2) =~= h.subrange(j + 1, j + 3));
                assert(crate::bytes::occurs_at(h, close_mark(), j + 1));
            }
        }
        lemma_comment_close_none(src, from + 1);
    }
}

/// memchr's first `*/` from `from` is the spec's first comment close.
proof fn lemma_comment_close(src: Seq<u8>, from: int, i: int)
    requires
        0 <= from <= src.len(),
        crate::bytes::occurs_at(src.subrange(from, src.len() as int), close_mark(), i),
        forall|j: int| 0 <= j < i ==> !crate::bytes::occurs_at(src.subrange(from, src.len() as int), close_mark(), j),
    ensures
        comment_close(src, from) == Some(from + i),
    decreases i,
{
    let h = src.subrange(from, src.len() as int);
    assert(h.subrange(i, i + 2)[0] == src[from + i]);
    assert(h.subrange(i, i + 2)[1] == src[from + i + 1]);
    if i > 0 {
        assert(!(src[from] == 42 && src[from + 1] == 47)) by {
            if src[from] == 42 && src[from + 1] == 47 {
                assert(h.subrange(0, 2) =~= close_mark());
                assert(crate::bytes::occurs_at(h, close_mark(), 0));
            }
        }
        assert forall|j: int| 0 <= j < i - 1 implies !#[trigger] crate::bytes::occurs_at(
            src.subrange(from + 1, src.len() as int),
            close_mark(),
            j,
        ) by {
            assert(!crate::bytes::occurs_at(h, close_mark(), j + 1));
            if crate::bytes::occurs_at(src.subrange(from + 1, src.len() as int), close_mark(), j) {
                assert(src.subrange(from + 1, src.len() as int).subrange(j, j + 2) =~= h.subrange(j + 1, j + 3));
            }
        }
        assert(src.subrange(from + 1, src.len() as int).subrange(i - 1, i + 1) =~= h.subrange(i, i + 2));
        lemma_comment_close(src, from + 1, i - 1);
    }
}

} // verus!
