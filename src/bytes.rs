//! Byte-string helpers shared by the parsers: ASCII classes, case folding,
//! searching and comparing.

use vstd::prelude::*;

verus! {

pub open spec fn is_digit(b: u8) -> bool {
    48 <= b <= 57
}

pub open spec fn is_alpha(b: u8) -> bool {
    (65 <= b <= 90) || (97 <= b <= 122)
}

pub open spec fn is_alnum(b: u8) -> bool {
    is_digit(b) || is_alpha(b)
}

/// ASCII whitespace as `u8::is_ascii_whitespace` has it.
pub open spec fn is_ws(b: u8) -> bool {
    b == 32 || b == 9 || b == 10 || b == 12 || b == 13
}

pub open spec fn lower(b: u8) -> u8 {
    if 65 <= b <= 90 {
        (b + 32) as u8
    } else {
        b
    }
}

pub open spec fn lower_seq(s: Seq<u8>) -> Seq<u8> {
    Seq::new(s.len(), |i: int| lower(s[i]))
}

/// `n` occurs in `h` at index `i`.
pub open spec fn occurs_at(h: Seq<u8>, n: Seq<u8>, i: int) -> bool {
    0 <= i && i + n.len() <= h.len() && h.subrange(i, i + n.len()) == n
}

/// `n` occurs in `h` at index `i`, ignoring ASCII case.
pub open spec fn occurs_at_ci(h: Seq<u8>, n: Seq<u8>, i: int) -> bool {
    0 <= i && i + n.len() <= h.len() && lower_seq(h.subrange(i, i + n.len())) == lower_seq(n)
}

pub open spec fn contains_ci(h: Seq<u8>, n: Seq<u8>) -> bool {
    exists|i: int| occurs_at_ci(h, n, i)
}

pub open spec fn starts_with(h: Seq<u8>, n: Seq<u8>) -> bool {
    n.len() <= h.len() && h.subrange(0, n.len() as int) == n
}

pub open spec fn starts_with_ci(h: Seq<u8>, n: Seq<u8>) -> bool {
    occurs_at_ci(h, n, 0)
}

pub open spec fn eq_ci(a: Seq<u8>, b: Seq<u8>) -> bool {
    lower_seq(a) == lower_seq(b)
}

/// Relies on memchr::memmem::find: the index of the first occurrence of
/// `needle` in `hay`, or `None` when there is none.
#[verifier::external_body]
pub(crate) fn find_bytes(hay: &[u8], needle: &[u8]) -> (r: Option<usize>)
    ensures
        r matches Some(i) ==> occurs_at(hay@, needle@, i as int) && forall|j: int|
            0 <= j < i ==> !occurs_at(hay@, needle@, j),
        r is None ==> forall|j: int| !occurs_at(hay@, needle@, j),
{
    memchr::memmem::find(hay, needle)
}

pub fn lower_byte(b: u8) -> (r: u8)
    ensures
        r == lower(b),
{
    if 65 <= b && b <= 90 {
        b + 32
    } else {
        b
    }
}

pub fn is_ws_byte(b: u8) -> (r: bool)
    ensures
        r == is_ws(b),
{
    b == 32 || b == 9 || b == 10 || b == 12 || b == 13
}

pub fn is_alnum_byte(b: u8) -> (r: bool)
    ensures
        r == is_alnum(b),
{
    (48 <= b && b <= 57) || (65 <= b && b <= 90) || (97 <= b && b <= 122)
}

/// Byte-wise equality of two slices.
pub fn bytes_eq(a: &[u8], b: &[u8]) -> (r: bool)
    ensures
        r == (a@ == b@),
{
    if a.len() != b.len() {
        return false;
    }
    let mut i: usize = 0;
    while i < a.len()
        invariant
            a@.len() == b@.len(),
            i <= a@.len(),
            forall|j: int| 0 <= j < i ==> a@[j] == b@[j],
        decreases a@.len() - i,
    {
        if a[i] != b[i] {
            return false;
        }
        i += 1;
    }
    assert(a@ =~= b@);
    true
}

/// Whether `h` begins with `n`.
pub fn starts_with_exec(h: &[u8], n: &[u8]) -> (r: bool)
    ensures
        r == starts_with(h@, n@),
{
    if n.len() > h.len() {
        return false;
    }
    let mut i: usize = 0;
    while i < n.len()
        invariant
            n@.len() <= h@.len(),
            i <= n@.len(),
            forall|j: int| 0 <= j < i ==> h@[j] == n@[j],
        decreases n@.len() - i,
    {
        if h[i] != n[i] {
            assert(h@.subrange(0, n@.len() as int)[i as int] != n@[i as int]);
            return false;
        }
        i += 1;
    }
    assert(h@.subrange(0, n@.len() as int) =~= n@);
    true
}

/// Index of the first `x` in `s` at or after `i`, or `s.len()` when there is none.
pub open spec fn find_first(s: Seq<u8>, x: u8, i: int) -> int
    decreases s.len() - i,
{
    if i >= s.len() || i < 0 {
        s.len() as int
    } else if s[i] == x {
        i
    } else {
        find_first(s, x, i + 1)
    }
}

/// Index of the last `x` in `s[lo..hi]`, or `lo - 1` when there is none.
pub open spec fn find_last(s: Seq<u8>, x: u8, lo: int, hi: int) -> int
    decreases hi - lo,
{
    if hi <= lo {
        lo - 1
    } else if s[hi - 1] == x {
        hi - 1
    } else {
        find_last(s, x, lo, hi - 1)
    }
}

/// End of `s[lo..hi]` once every trailing `x` is removed.
pub open spec fn trim_end_of(s: Seq<u8>, x: u8, lo: int, hi: int) -> int
    decreases hi - lo,
{
    if hi > lo && s[hi - 1] == x {
        trim_end_of(s, x, lo, hi - 1)
    } else {
        hi
    }
}

pub fn find_first_exec(s: &[u8], x: u8, from: usize) -> (r: usize)
    requires
        from <= s@.len(),
    ensures
        r as int == find_first(s@, x, from as int),
        from <= r <= s@.len(),
{
    let mut i = from;
    while i < s.len() && s[i] != x
        invariant
            from <= i <= s@.len(),
            find_first(s@, x, i as int) == find_first(s@, x, from as int),
        decreases s@.len() - i,
    {
        i += 1;
    }
    i
}

pub fn find_last_exec(s: &[u8], x: u8, lo: usize, hi: usize) -> (r: Option<usize>)
    requires
        lo <= hi <= s@.len(),
    ensures
        r matches Some(i) ==> i as int == find_last(s@, x, lo as int, hi as int) && lo <= i < hi,
        r is None ==> find_last(s@, x, lo as int, hi as int) == lo - 1,
{
    let mut h = hi;
    while h > lo && s[h - 1] != x
        invariant
            lo <= h <= hi,
            hi <= s@.len(),
            find_last(s@, x, lo as int, h as int) == find_last(s@, x, lo as int, hi as int),
        decreases h,
    {
        h -= 1;
    }
    if h > lo {
        Some(h - 1)
    } else {
        None
    }
}

pub fn trim_end_exec(s: &[u8], x: u8, lo: usize, hi: usize) -> (r: usize)
    requires
        lo <= hi <= s@.len(),
    ensures
        r as int == trim_end_of(s@, x, lo as int, hi as int),
        lo <= r <= hi,
{
    let mut h = hi;
    while h > lo && s[h - 1] == x
        invariant
            lo <= h <= hi,
            hi <= s@.len(),
            trim_end_of(s@, x, lo as int, h as int) == trim_end_of(s@, x, lo as int, hi as int),
        decreases h,
    {
        h -= 1;
    }
    h
}

/// Equality of two slices ignoring ASCII case.
pub fn bytes_eq_ci(a: &[u8], b: &[u8]) -> (r: bool)
    ensures
        r == eq_ci(a@, b@),
{
    if a.len() != b.len() {
        assert(lower_seq(a@).len() != lower_seq(b@).len());
        return false;
    }
    let mut i: usize = 0;
    while i < a.len()
        invariant
            a@.len() == b@.len(),
            i <= a@.len(),
            forall|j: int| 0 <= j < i ==> lower(a@[j]) == lower(b@[j]),
        decreases a@.len() - i,
    {
        if lower_byte(a[i]) != lower_byte(b[i]) {
            assert(lower_seq(a@)[i as int] != lower_seq(b@)[i as int]);
            return false;
        }
        i += 1;
    }
    assert(lower_seq(a@) =~= lower_seq(b@));
    true
}

/// Whether `n` occurs in `h` at `i`, ignoring ASCII case.
pub fn occurs_at_ci_exec(h: &[u8], n: &[u8], i: usize) -> (r: bool)
    ensures
        r == occurs_at_ci(h@, n@, i as int),
{
    if i > h.len() || n.len() > h.len() - i {
        return false;
    }
    let mut k: usize = 0;
    while k < n.len()
        invariant
            i + n@.len() <= h@.len(),
            h@.len() <= usize::MAX,
            k <= n@.len(),
            forall|j: int| 0 <= j < k ==> lower(h@[i + j]) == lower(n@[j]),
        decreases n@.len() - k,
    {
        if lower_byte(h[i + k]) != lower_byte(n[k]) {
            assert(lower_seq(h@.subrange(i as int, i + n@.len()))[k as int] != lower_seq(n@)[k as int]);
            return false;
        }
        k += 1;
    }
    assert(lower_seq(h@.subrange(i as int, i + n@.len())) =~= lower_seq(n@));
    true
}

/// Whether `n` occurs anywhere in `h`, ignoring ASCII case.
pub fn contains_ci_exec(h: &[u8], n: &[u8]) -> (r: bool)
    ensures
        r == contains_ci(h@, n@),
{
    let mut i: usize = 0;
    while i < h.len()
        invariant
            i <= h@.len(),
            forall|j: int| 0 <= j < i ==> !occurs_at_ci(h@, n@, j),
        decreases h@.len() - i,
    {
        if occurs_at_ci_exec(h, n, i) {
            return true;
        }
        i += 1;
    }
    occurs_at_ci_exec(h, n, i)
}

} // verus!

verus! {

/// What `find_first` returns: the first `x` at or after `from`, with none before it.
pub proof fn lemma_find_first(s: Seq<u8>, x: u8, from: int)
    requires
        0 <= from <= s.len(),
    ensures
        from <= find_first(s, x, from) <= s.len(),
        find_first(s, x, from) < s.len() ==> s[find_first(s, x, from)] == x,
        forall|j: int| from <= j < find_first(s, x, from) ==> s[j] != x,
    decreases s.len() - from,
{
    if from < s.len() && s[from] != x {
        lemma_find_first(s, x, from + 1);
    }
}

/// The decimal value of a string of digits.
pub open spec fn decimal(s: Seq<u8>) -> int
    decreases s.len(),
{
    if s.len() == 0 {
        0
    } else {
        decimal(s.drop_last()) * 10 + (s.last() - 48)
    }
}

} // verus!

verus! {

/// A copy of `s[a..b]`.
pub fn copy_range(s: &[u8], a: usize, b: usize) -> (r: Vec<u8>)
    requires
        a <= b <= s@.len(),
    ensures
        r@ == s@.subrange(a as int, b as int),
{
    let mut v: Vec<u8> = Vec::with_capacity(b - a);
    let mut i = a;
    while i < b
        invariant
            a <= i <= b <= s@.len(),
            v@ == s@.subrange(a as int, i as int),
        decreases b - i,
    {
        v.push(s[i]);
        i += 1;
        assert(v@ =~= s@.subrange(a as int, i as int));
    }
    v
}

/// Appends `s[a..b]` to `v`.
pub fn push_range(v: &mut Vec<u8>, s: &[u8], a: usize, b: usize)
    requires
        a <= b <= s@.len(),
    ensures
        final(v)@ == old(v)@ + s@.subrange(a as int, b as int),
{
    let mut i = a;
    while i < b
        invariant
            a <= i <= b <= s@.len(),
            v@ == old(v)@ + s@.subrange(a as int, i as int),
        decreases b - i,
    {
        v.push(s[i]);
        i += 1;
        assert(v@ =~= old(v)@ + s@.subrange(a as int, i as int));
    }
}

} // verus!

verus! {

/// Start of `s[lo..hi]` once leading ASCII whitespace is skipped.
pub open spec fn trim_lo(s: Seq<u8>, lo: int, hi: int) -> int
    decreases hi - lo,
{
    if lo < hi && is_ws(s[lo]) {
        trim_lo(s, lo + 1, hi)
    } else {
        lo
    }
}

/// End of `s[lo..hi]` once trailing ASCII whitespace is dropped.
pub open spec fn trim_hi(s: Seq<u8>, lo: int, hi: int) -> int
    decreases hi - lo,
{
    if hi > lo && is_ws(s[hi - 1]) {
        trim_hi(s, lo, hi - 1)
    } else {
        hi
    }
}

/// `s` without leading and trailing ASCII whitespace.
pub open spec fn trim(s: Seq<u8>) -> Seq<u8> {
    let lo = trim_lo(s, 0, s.len() as int);
    s.subrange(lo, trim_hi(s, lo, s.len() as int))
}

/// The range of `s` that `trim` keeps.
pub fn trim_range(s: &[u8]) -> (r: (usize, usize))
    ensures
        r.0 <= r.1 <= s@.len(),
        r.0 as int == trim_lo(s@, 0, s@.len() as int),
        r.1 as int == trim_hi(s@, r.0 as int, s@.len() as int),
        s@.subrange(r.0 as int, r.1 as int) == trim(s@),
{
    let n = s.len();
    let mut lo: usize = 0;
    while lo < n && is_ws_byte(s[lo])
        invariant
            lo <= n == s@.len(),
            trim_lo(s@, lo as int, n as int) == trim_lo(s@, 0, n as int),
        decreases n - lo,
    {
        lo += 1;
    }
    let mut hi: usize = n;
    while hi > lo && is_ws_byte(s[hi - 1])
        invariant
            lo <= hi <= n == s@.len(),
            trim_hi(s@, lo as int, hi as int) == trim_hi(s@, lo as int, n as int),
        decreases hi,
    {
        hi -= 1;
    }
    (lo, hi)
}

/// A lower-cased copy of `s`.
pub fn lower_copy(s: &[u8]) -> (r: Vec<u8>)
    ensures
        r@ == lower_seq(s@),
{
    let mut v: Vec<u8> = Vec::with_capacity(s.len());
    let mut i: usize = 0;
    while i < s.len()
        invariant
            i <= s@.len(),
            v@ == lower_seq(s@.subrange(0, i as int)),
        decreases s@.len() - i,
    {
        v.push(lower_byte(s[i]));
        i += 1;
        assert(v@ =~= lower_seq(s@.subrange(0, i as int)));
    }
    assert(s@.subrange(0, s@.len() as int) =~= s@);
    v
}

} // verus!
