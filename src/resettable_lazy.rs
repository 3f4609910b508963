//! A cached value that is computed on first use and can be dropped so that
//! the next use computes it again.

use vstd::prelude::*;

verus! {

/// A cache of one value.
pub struct ResettableLazy<T> {
    value: Option<T>,
}

impl<T: Clone> ResettableLazy<T> {
    /// What the cache holds.
    pub closed spec fn cached(&self) -> Option<T> {
        self.value
    }

    /// An empty cache.
    pub fn new() -> (r: Self)
        ensures
            r.cached() is None,
    {
        ResettableLazy { value: None }
    }

    /// The cached value, computed with `init` when the cache is empty; the
    /// value computed is kept.
    pub fn get<F: Fn() -> T>(&mut self, init: F) -> (r: T)
        requires
            call_requires(init, ()),
        ensures
            old(self).cached() is Some ==> final(self).cached() == old(self).cached(),
            old(self).cached() is None ==> final(self).cached() is Some && call_ensures(
                init,
                (),
                final(self).cached()->Some_0,
            ),
    {
        match &self.value {
            Some(v) => v.clone(),
            None => {
                let v = init();
                let r = v.clone();
                self.value = Some(v);
                r
            },
        }
    }

    /// Empties the cache: the next `get` computes the value again.
    pub fn reset(&mut self)
        ensures
            final(self).cached() is None,
    {
        self.value = None;
    }
}

} // verus!
