//! Buffering a response body up to the transform limit. Past the limit the
//! body is passed through: what was buffered goes out first, unchanged.

use crate::bytes::push_range;
use vstd::prelude::*;

verus! {

/// The bytes of a body read so far, while they fit the limit.
pub struct BodyBuffer {
    data: Vec<u8>,
    limit: usize,
}

impl BodyBuffer {
    pub closed spec fn contents(&self) -> Seq<u8> {
        self.data@
    }

    pub closed spec fn cap(&self) -> nat {
        self.limit as nat
    }

    pub closed spec fn wf(&self) -> bool {
        self.data@.len() <= self.limit
    }

    pub fn new(limit: usize) -> (r: BodyBuffer)
        ensures
            r.wf(),
            r.contents() == Seq::<u8>::empty(),
            r.cap() == limit,
    {
        BodyBuffer { data: Vec::new(), limit }
    }

    /// Adds the next piece of the body. While the total fits the limit the
    /// piece is kept and `None` comes back. Once it would not, the buffer is
    /// given up: the result holds everything read so far, this piece
    /// included, in order, to be sent before the rest of the body as it
    /// comes.
    pub fn push(&mut self, chunk: &[u8]) -> (r: Option<Vec<u8>>)
        requires
            old(self).wf(),
        ensures
            final(self).wf(),
            final(self).cap() == old(self).cap(),
            old(self).contents().len() + chunk@.len() <= old(self).cap() ==> r is None && final(self).contents()
                == old(self).contents() + chunk@,
            old(self).contents().len() + chunk@.len() > old(self).cap() ==> (r matches Some(out) && out@
                == old(self).contents() + chunk@) && final(self).contents() == Seq::<u8>::empty(),
    {
        if chunk.len() > self.limit - self.data.len() {
            let mut out: Vec<u8> = Vec::new();
            std::mem::swap(&mut out, &mut self.data);
            push_range(&mut out, chunk, 0, chunk.len());
            assert(chunk@.subrange(0, chunk@.len() as int) =~= chunk@);
            return Some(out);
        }
        push_range(&mut self.data, chunk, 0, chunk.len());
        assert(chunk@.subrange(0, chunk@.len() as int) =~= chunk@);
        None
    }

    /// The whole body, once it ended within the limit.
    pub fn into_bytes(self) -> (r: Vec<u8>)
        ensures
            r@ == self.contents(),
    {
        self.data
    }
}

} // verus!
