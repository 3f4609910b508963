//! A header map as the proxy's rules see it: an ordered list of (name,
//! value) pairs, names in lower case as HTTP libraries keep them.

use crate::bytes::{
    contains_ci, contains_ci_exec, copy_range, eq_ci, find_first, find_first_exec, lower_copy,
    lower_seq, occurs_at_ci, occurs_at_ci_exec, push_range, starts_with_ci, trim, trim_range,
};
use vstd::prelude::*;

verus! {

/// The values of header `n`, in order.
pub open spec fn values_of(hs: Seq<(Seq<u8>, Seq<u8>)>, n: Seq<u8>) -> Seq<Seq<u8>>
    decreases hs.len(),
{
    if hs.len() == 0 {
        Seq::empty()
    } else {
        values_of(hs.drop_last(), n) + if hs.last().0 == n {
            seq![hs.last().1]
        } else {
            Seq::empty()
        }
    }
}

/// The pairs whose name is not `n`.
pub open spec fn without(hs: Seq<(Seq<u8>, Seq<u8>)>, n: Seq<u8>) -> Seq<(Seq<u8>, Seq<u8>)>
    decreases hs.len(),
{
    if hs.len() == 0 {
        Seq::empty()
    } else {
        without(hs.drop_last(), n) + if hs.last().0 == n {
            Seq::empty()
        } else {
            seq![hs.last()]
        }
    }
}

proof fn lemma_values_without(hs: Seq<(Seq<u8>, Seq<u8>)>, n: Seq<u8>, m: Seq<u8>)
    ensures
        values_of(without(hs, n), m) == (if m == n {
            Seq::<Seq<u8>>::empty()
        } else {
            values_of(hs, m)
        }),
    decreases hs.len(),
{
    if hs.len() > 0 {
        lemma_values_without(hs.drop_last(), n, m);
        let w = without(hs.drop_last(), n);
        if hs.last().0 != n {
            assert((w + seq![hs.last()]).drop_last() =~= w);
        } else {
            assert(w + Seq::<(Seq<u8>, Seq<u8>)>::empty() =~= w);
        }
        assert(values_of(hs.drop_last(), m) + Seq::<Seq<u8>>::empty() =~= values_of(hs.drop_last(), m));
    }
}

proof fn lemma_values_push(hs: Seq<(Seq<u8>, Seq<u8>)>, e: (Seq<u8>, Seq<u8>), m: Seq<u8>)
    ensures
        values_of(hs.push(e), m) == values_of(hs, m) + if e.0 == m {
            seq![e.1]
        } else {
            Seq::empty()
        },
{
    assert(hs.push(e).drop_last() =~= hs);
}

/// The view of a pair list.
pub open spec fn pairs_view(v: Seq<(Vec<u8>, Vec<u8>)>) -> Seq<(Seq<u8>, Seq<u8>)> {
    v.map_values(|e: (Vec<u8>, Vec<u8>)| (e.0@, e.1@))
}

/// HTTP headers: (name, value) pairs in order, a name possibly repeated.
pub struct HeaderMap {
    entries: Vec<(Vec<u8>, Vec<u8>)>,
}

impl HeaderMap {
    pub closed spec fn pairs(&self) -> Seq<(Seq<u8>, Seq<u8>)> {
        pairs_view(self.entries@)
    }

    /// The values of header `n` (a lower-case name), in order.
    pub open spec fn values(&self, n: Seq<u8>) -> Seq<Seq<u8>> {
        values_of(self.pairs(), n)
    }

    pub fn new() -> (r: HeaderMap)
        ensures
            r.pairs() == Seq::<(Seq<u8>, Seq<u8>)>::empty(),
            forall|n: Seq<u8>| #[trigger] r.values(n) == Seq::<Seq<u8>>::empty(),
    {
        let r = HeaderMap { entries: Vec::new() };
        assert(r.pairs() =~= Seq::<(Seq<u8>, Seq<u8>)>::empty());
        r
    }

    /// All pairs, in order.
    pub fn to_pairs(&self) -> (r: Vec<(Vec<u8>, Vec<u8>)>)
        ensures
            pairs_view(r@) == self.pairs(),
    {
        let mut r: Vec<(Vec<u8>, Vec<u8>)> = Vec::new();
        let mut i: usize = 0;
        while i < self.entries.len()
            invariant
                i <= self.entries@.len(),
                pairs_view(r@) == pairs_view(self.entries@.subrange(0, i as int)),
            decreases self.entries@.len() - i,
        {
            let n = copy_range(self.entries[i].0.as_slice(), 0, self.entries[i].0.len());
            let v = copy_range(self.entries[i].1.as_slice(), 0, self.entries[i].1.len());
            proof {
                assert(self.entries@[i as int].0@.subrange(0, self.entries@[i as int].0@.len() as int) =~= self.entries@[i as int].0@);
                assert(self.entries@[i as int].1@.subrange(0, self.entries@[i as int].1@.len() as int) =~= self.entries@[i as int].1@);
            }
            let ghost old_r = r@;
            let ghost e = (self.entries@[i as int].0@, self.entries@[i as int].1@);
            r.push((n, v));
            proof {
                assert(pairs_view(r@) =~= pairs_view(old_r).push(e));
                assert(pairs_view(self.entries@.subrange(0, i + 1)) =~= pairs_view(
                    self.entries@.subrange(0, i as int),
                ).push(e));
            }
            i += 1;
        }
        assert(self.entries@.subrange(0, self.entries@.len() as int) =~= self.entries@);
        r
    }

    /// Adds a value after the existing ones.
    pub fn append(&mut self, name: Vec<u8>, value: Vec<u8>)
        ensures
            final(self).pairs() == old(self).pairs().push((name@, value@)),
            forall|m: Seq<u8>| #[trigger] final(self).values(m) == old(self).values(m) + if name@ == m {
                seq![value@]
            } else {
                Seq::empty()
            },
    {
        let ghost n = name@;
        let ghost v = value@;
        self.entries.push((name, value));
        assert(self.pairs() =~= old(self).pairs().push((n, v)));
        assert forall|m: Seq<u8>| #[trigger] self.values(m) == old(self).values(m) + if n == m {
            seq![v]
        } else {
            Seq::empty()
        } by {
            lemma_values_push(old(self).pairs(), (n, v), m);
        }
    }

    /// Removes every value of header `n`.
    pub fn remove(&mut self, n: &[u8])
        ensures
            final(self).pairs() == without(old(self).pairs(), n@),
            forall|m: Seq<u8>| #[trigger] final(self).values(m) == (if m == n@ {
                Seq::<Seq<u8>>::empty()
            } else {
                old(self).values(m)
            }),
    {
        let mut kept: Vec<(Vec<u8>, Vec<u8>)> = Vec::new();
        let mut i: usize = 0;
        let ghost all = old(self).pairs();
        while i < self.entries.len()
            invariant
                i <= self.entries@.len(),
                self.entries@ == old(self).entries@,
                all == pairs_view(self.entries@),
                pairs_view(kept@) == without(all.subrange(0, i as int), n@),
            decreases self.entries@.len() - i,
        {
            let same = crate::bytes::bytes_eq(self.entries[i].0.as_slice(), n);
            proof {
                assert(all.subrange(0, i + 1).drop_last() =~= all.subrange(0, i as int));
            }
            if !same {
                let a = copy_range(self.entries[i].0.as_slice(), 0, self.entries[i].0.len());
                let b = copy_range(self.entries[i].1.as_slice(), 0, self.entries[i].1.len());
                proof {
                    assert(self.entries@[i as int].0@.subrange(0, self.entries@[i as int].0@.len() as int) =~= self.entries@[i as int].0@);
                    assert(self.entries@[i as int].1@.subrange(0, self.entries@[i as int].1@.len() as int) =~= self.entries@[i as int].1@);
                }
                kept.push((a, b));
                assert(pairs_view(kept@) =~= without(all.subrange(0, i + 1), n@));
            } else {
                assert(pairs_view(kept@) =~= without(all.subrange(0, i + 1), n@));
            }
            i += 1;
        }
        assert(all.subrange(0, all.len() as int) =~= all);
        self.entries = kept;
        assert forall|m: Seq<u8>| #[trigger] self.values(m) == (if m == n@ {
            Seq::<Seq<u8>>::empty()
        } else {
            old(self).values(m)
        }) by {
            lemma_values_without(all, n@, m);
        }
    }

    /// Sets header `n` to the single value `v`.
    pub fn set(&mut self, n: &[u8], v: Vec<u8>)
        ensures
            forall|m: Seq<u8>| #[trigger] final(self).values(m) == (if m == n@ {
                seq![v@]
            } else {
                old(self).values(m)
            }),
    {
        self.remove(n);
        let name = copy_range(n, 0, n.len());
        assert(n@.subrange(0, n@.len() as int) =~= n@);
        self.append(name, v);
        assert forall|m: Seq<u8>| #[trigger] self.values(m) == (if m == n@ {
            seq![v@]
        } else {
            old(self).values(m)
        }) by {
            if m == n@ {
                assert(Seq::<Seq<u8>>::empty() + seq![v@] =~= seq![v@]);
            } else {
                assert(old(self).values(m) + Seq::<Seq<u8>>::empty() =~= old(self).values(m));
            }
        }
    }

    /// The values of header `n`, in order.
    pub fn get_all(&self, n: &[u8]) -> (r: Vec<Vec<u8>>)
        ensures
            r@.map_values(|x: Vec<u8>| x@) == self.values(n@),
    {
        let mut r: Vec<Vec<u8>> = Vec::new();
        let mut i: usize = 0;
        let ghost all = self.pairs();
        while i < self.entries.len()
            invariant
                i <= self.entries@.len(),
                all == pairs_view(self.entries@),
                r@.map_values(|x: Vec<u8>| x@) == values_of(all.subrange(0, i as int), n@),
            decreases self.entries@.len() - i,
        {
            proof {
                assert(all.subrange(0, i + 1).drop_last() =~= all.subrange(0, i as int));
            }
            if crate::bytes::bytes_eq(self.entries[i].0.as_slice(), n) {
                let b = copy_range(self.entries[i].1.as_slice(), 0, self.entries[i].1.len());
                proof {
                    assert(self.entries@[i as int].1@.subrange(0, self.entries@[i as int].1@.len() as int) =~= self.entries@[i as int].1@);
                }
                r.push(b);
            }
            assert(r@.map_values(|x: Vec<u8>| x@) =~= values_of(all.subrange(0, i + 1), n@));
            i += 1;
        }
        assert(all.subrange(0, all.len() as int) =~= all);
        r
    }

    /// Whether header `n` has a value.
    pub fn contains_key(&self, n: &[u8]) -> (r: bool)
        ensures
            r == (self.values(n@).len() > 0),
    {
        let v = self.get_all(n);
        assert(v@.map_values(|x: Vec<u8>| x@).len() == v@.len());
        v.len() > 0
    }
}

/// Some value of `vals`, trimmed, contains `needle` (ASCII case ignored).
pub open spec fn some_contains(vals: Seq<Seq<u8>>, needle: Seq<u8>) -> bool {
    exists|i: int| 0 <= i < vals.len() && contains_ci(trim(#[trigger] vals[i]), needle)
}

/// Some value of `vals`, trimmed, starts with `prefix` (ASCII case ignored).
pub open spec fn some_starts(vals: Seq<Seq<u8>>, prefix: Seq<u8>) -> bool {
    exists|i: int| 0 <= i < vals.len() && starts_with_ci(trim(#[trigger] vals[i]), prefix)
}

/// Some value of `vals`, trimmed, equals `s` (ASCII case ignored).
pub open spec fn some_equals(vals: Seq<Seq<u8>>, s: Seq<u8>) -> bool {
    exists|i: int| 0 <= i < vals.len() && eq_ci(trim(#[trigger] vals[i]), s)
}

/// Bytes that a header value may hold to be read as text.
pub open spec fn visible(v: Seq<u8>) -> bool {
    forall|i: int| 0 <= i < v.len() ==> (#[trigger] v[i] == 9 || (32 <= v[i] && v[i] <= 126))
}

/// The non-empty trimmed pieces of `s` between commas, in order.
pub open spec fn csv_tokens(s: Seq<u8>) -> Seq<Seq<u8>>
    decreases s.len(),
{
    let j = find_first(s, 44, 0);
    let t = trim(if j < 0 || j >= s.len() {
        s
    } else {
        s.subrange(0, j)
    });
    let head = if t.len() > 0 {
        seq![t]
    } else {
        Seq::empty()
    };
    if j < 0 || j >= s.len() {
        head
    } else {
        head + csv_tokens(s.subrange(j + 1, s.len() as int))
    }
}

/// The comma-separated pieces of every readable value, in order.
pub open spec fn all_tokens(vals: Seq<Seq<u8>>) -> Seq<Seq<u8>>
    decreases vals.len(),
{
    if vals.len() == 0 {
        Seq::empty()
    } else {
        all_tokens(vals.drop_last()) + if visible(vals.last()) {
            csv_tokens(vals.last())
        } else {
            Seq::empty()
        }
    }
}

/// The pieces joined with `", "`.
pub open spec fn join_tokens(ts: Seq<Seq<u8>>) -> Seq<u8>
    decreases ts.len(),
{
    if ts.len() == 0 {
        Seq::empty()
    } else if ts.len() == 1 {
        ts[0]
    } else {
        join_tokens(ts.drop_last()) + seq![44u8, 32] + ts.last()
    }
}

/// A header's readable values as one lower-case list: `a, b, c`.
pub open spec fn safe_text(vals: Seq<Seq<u8>>) -> Seq<u8> {
    lower_seq(join_tokens(all_tokens(vals)))
}

pub fn is_visible_value(v: &[u8]) -> (r: bool)
    ensures
        r == visible(v@),
{
    let mut i: usize = 0;
    while i < v.len()
        invariant
            i <= v@.len(),
            forall|j: int| 0 <= j < i ==> (#[trigger] v@[j] == 9 || (32 <= v@[j] && v@[j] <= 126)),
        decreases v@.len() - i,
    {
        if !(v[i] == 9 || (32 <= v[i] && v[i] <= 126)) {
            return false;
        }
        i += 1;
    }
    true
}

/// Appends the comma-separated pieces of `s`.
pub fn push_csv_tokens(acc: &mut Vec<Vec<u8>>, s: &[u8])
    ensures
        final(acc)@.map_values(|x: Vec<u8>| x@) == old(acc)@.map_values(|x: Vec<u8>| x@) + csv_tokens(s@),
{
    let mut rest: &[u8] = s;
    loop
        invariant
            acc@.map_values(|x: Vec<u8>| x@) + csv_tokens(rest@) == old(acc)@.map_values(|x: Vec<u8>| x@)
                + csv_tokens(s@),
        decreases rest@.len(),
    {
        let j = find_first_exec(rest, 44, 0);
        let piece: &[u8] = if j >= rest.len() {
            rest
        } else {
            &rest[0..j]
        };
        let (lo, hi) = trim_range(piece);
        let ghost before = acc@.map_values(|x: Vec<u8>| x@);
        let ghost head = if hi > lo {
            seq![piece@.subrange(lo as int, hi as int)]
        } else {
            Seq::<Seq<u8>>::empty()
        };
        if hi > lo {
            acc.push(copy_range(piece, lo, hi));
        }
        assert(acc@.map_values(|x: Vec<u8>| x@) =~= before + head);
        if j >= rest.len() {
            assert(csv_tokens(rest@) == head);
            assert(csv_tokens(Seq::<u8>::empty()) =~= Seq::<Seq<u8>>::empty()) by {
                assert(find_first(Seq::<u8>::empty(), 44, 0) == 0);
            }
            assert(before + csv_tokens(rest@) =~= acc@.map_values(|x: Vec<u8>| x@));
            return;
        }
        let ghost next = rest@.subrange(j + 1, rest@.len() as int);
        assert(csv_tokens(rest@) == head + csv_tokens(next));
        assert(before + csv_tokens(rest@) =~= acc@.map_values(|x: Vec<u8>| x@) + csv_tokens(next));
        rest = &rest[j + 1..rest.len()];
    }
}

impl HeaderMap {
    /// Whether some value of header `n`, trimmed, contains `needle`, ASCII
    /// case ignored.
    pub fn value_contains(&self, n: &[u8], needle: &[u8]) -> (r: bool)
        ensures
            r == some_contains(self.values(n@), needle@),
    {
        let vals = self.get_all(n);
        let ghost vs = vals@.map_values(|x: Vec<u8>| x@);
        let mut i: usize = 0;
        while i < vals.len()
            invariant
                i <= vals@.len(),
                vs == vals@.map_values(|x: Vec<u8>| x@),
                vs == self.values(n@),
                forall|j: int| 0 <= j < i ==> !contains_ci(trim(#[trigger] vs[j]), needle@),
            decreases vals@.len() - i,
        {
            let v = vals[i].as_slice();
            let (lo, hi) = trim_range(v);
            if contains_ci_exec(&v[lo..hi], needle) {
                assert(contains_ci(trim(vs[i as int]), needle@));
                return true;
            }
            i += 1;
        }
        false
    }

    /// Whether some value of header `n`, trimmed, starts with `prefix`,
    /// ASCII case ignored.
    pub fn value_starts(&self, n: &[u8], prefix: &[u8]) -> (r: bool)
        ensures
            r == some_starts(self.values(n@), prefix@),
    {
        let vals = self.get_all(n);
        let ghost vs = vals@.map_values(|x: Vec<u8>| x@);
        let mut i: usize = 0;
        while i < vals.len()
            invariant
                i <= vals@.len(),
                vs == vals@.map_values(|x: Vec<u8>| x@),
                vs == self.values(n@),
                forall|j: int| 0 <= j < i ==> !starts_with_ci(trim(#[trigger] vs[j]), prefix@),
            decreases vals@.len() - i,
        {
            let v = vals[i].as_slice();
            let (lo, hi) = trim_range(v);
            if occurs_at_ci_exec(&v[lo..hi], prefix, 0) {
                assert(starts_with_ci(trim(vs[i as int]), prefix@));
                return true;
            }
            i += 1;
        }
        false
    }

    /// Whether some value of header `n`, trimmed, equals `s`, ASCII case ignored.
    pub fn value_equals(&self, n: &[u8], s: &[u8]) -> (r: bool)
        ensures
            r == some_equals(self.values(n@), s@),
    {
        let vals = self.get_all(n);
        let ghost vs = vals@.map_values(|x: Vec<u8>| x@);
        let mut i: usize = 0;
        while i < vals.len()
            invariant
                i <= vals@.len(),
                vs == vals@.map_values(|x: Vec<u8>| x@),
                vs == self.values(n@),
                forall|j: int| 0 <= j < i ==> !eq_ci(trim(#[trigger] vs[j]), s@),
            decreases vals@.len() - i,
        {
            let v = vals[i].as_slice();
            let (lo, hi) = trim_range(v);
            if crate::bytes::bytes_eq_ci(&v[lo..hi], s) {
                assert(eq_ci(trim(vs[i as int]), s@));
                return true;
            }
            i += 1;
        }
        false
    }

    /// The readable values of header `n`, split at commas, trimmed, empty
    /// pieces dropped, joined with `", "` and lower-cased.
    pub fn get_safe(&self, n: &[u8]) -> (r: Vec<u8>)
        ensures
            r@ == safe_text(self.values(n@)),
    {
        let vals = self.get_all(n);
        let ghost vs = vals@.map_values(|x: Vec<u8>| x@);
        let mut toks: Vec<Vec<u8>> = Vec::new();
        let mut i: usize = 0;
        while i < vals.len()
            invariant
                i <= vals@.len(),
                vs == vals@.map_values(|x: Vec<u8>| x@),
                toks@.map_values(|x: Vec<u8>| x@) == all_tokens(vs.subrange(0, i as int)),
            decreases vals@.len() - i,
        {
            let v = vals[i].as_slice();
            proof {
                assert(vs.subrange(0, i + 1).drop_last() =~= vs.subrange(0, i as int));
            }
            if is_visible_value(v) {
                push_csv_tokens(&mut toks, v);
            } else {
                assert(all_tokens(vs.subrange(0, i as int)) + Seq::<Seq<u8>>::empty() =~= all_tokens(
                    vs.subrange(0, i as int),
                ));
            }
            i += 1;
        }
        assert(vs.subrange(0, vs.len() as int) =~= vs);
        let ghost ts = toks@.map_values(|x: Vec<u8>| x@);
        let mut joined: Vec<u8> = Vec::new();
        let mut k: usize = 0;
        while k < toks.len()
            invariant
                k <= toks@.len(),
                ts == toks@.map_values(|x: Vec<u8>| x@),
                joined@ == join_tokens(ts.subrange(0, k as int)),
            decreases toks@.len() - k,
        {
            proof {
                assert(ts.subrange(0, k + 1).drop_last() =~= ts.subrange(0, k as int));
            }
            if k > 0 {
                joined.push(44);
                joined.push(32);
            }
            let t = toks[k].as_slice();
            push_range(&mut joined, t, 0, t.len());
            proof {
                assert(t@.subrange(0, t@.len() as int) =~= t@);
                if k == 0 {
                    assert(joined@ =~= join_tokens(ts.subrange(0, 1)));
                } else {
                    assert(joined@ =~= join_tokens(ts.subrange(0, k + 1)));
                }
            }
            k += 1;
        }
        assert(ts.subrange(0, ts.len() as int) =~= ts);
        lower_copy(joined.as_slice())
    }
}

} // verus!
