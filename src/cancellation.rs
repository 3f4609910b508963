//! A one-shot cancellation flag shared between a worker and the scope that
//! started it: the scope holds the guard and raises the flag when it ends.

use std::sync::atomic::{AtomicBool, Ordering};
use std::sync::Arc;
use vstd::prelude::*;

verus! {

/// The worker's side: a flag it polls between stages.
#[derive(Clone)]
pub struct CancellationToken {
    cancelled: Arc<AtomicBool>,
}

impl CancellationToken {
    pub fn new() -> (r: CancellationToken) {
        CancellationToken { cancelled: Arc::new(AtomicBool::new(false)) }
    }

    /// Raises the flag; raising it again changes nothing.
    pub fn cancel(&self) {
        self.cancelled.store(true, Ordering::Release);
    }

    /// Whether the flag was raised. Another thread may raise it at any time,
    /// so the answer says nothing about later calls.
    pub fn is_cancelled(&self) -> (r: bool) {
        self.cancelled.load(Ordering::Acquire)
    }
}

/// The scope's side.
pub struct CancellationGuard {
    token: CancellationToken,
}

impl CancellationGuard {
    /// A fresh flag, with the token for the worker and the guard for the scope.
    pub fn new() -> (r: (CancellationToken, CancellationGuard)) {
        let token = CancellationToken::new();
        let guard = CancellationGuard { token: token.clone() };
        (token, guard)
    }

    /// Raises the flag. The scope calls this when it ends (its owner does so
    /// on drop).
    pub fn cancel_now(&self) {
        self.token.cancel();
    }
}

} // verus!
