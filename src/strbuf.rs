//! A fixed-capacity byte buffer, used to hold strings copied in from user
//! memory.  It never allocates.
use vstd::prelude::*;

verus! {

/// Capacity of the buffer, in bytes.
pub const STRBUF_CAPACITY: usize = 256;

/// A byte buffer of at most `STRBUF_CAPACITY` bytes.
pub struct Vec<T> {
    len: usize,
    buf: [u8; 256],
    _marker: core::marker::PhantomData<T>,
}

impl Vec<u8> {
    /// The bytes held, in order.
    pub closed spec fn view(&self) -> Seq<u8> {
        self.buf@.take(self.len as int)
    }

    /// The stored length never exceeds the capacity.
    pub closed spec fn wf(&self) -> bool {
        self.len <= STRBUF_CAPACITY
    }

    /// An empty buffer.
    pub fn new() -> (r: Self)
        ensures
            r.wf(),
            r.view() == Seq::<u8>::empty(),
    {
        let r = Vec { len: 0, buf: [0u8; 256], _marker: core::marker::PhantomData };
        assert(r.view() =~= Seq::<u8>::empty());
        r
    }

    /// Appends `b`; fails, leaving the buffer unchanged, when it is full.
    pub fn push(&mut self, b: u8) -> (r: Result<(), ()>)
        requires
            old(self).wf(),
        ensures
            final(self).wf(),
            r is Ok <==> old(self).view().len() < STRBUF_CAPACITY,
            r is Ok ==> final(self).view() == old(self).view().push(b),
            r is Err ==> final(self).view() == old(self).view(),
    {
        if self.len >= 256 {
            return Err(());
        }
        let ghost before = self.view();
        self.buf[self.len] = b;
        self.len = self.len + 1;
        assert(self.view() =~= before.push(b));
        Ok(())
    }

    /// The bytes held.
    pub fn as_slice(&self) -> (r: &[u8])
        requires
            self.wf(),
        ensures
            r@ == self.view(),
    {
        let s = self.buf.as_slice();
        slice_prefix(s, self.len)
    }
}

/// The first `n` elements of `s`.
fn slice_prefix(s: &[u8], n: usize) -> (r: &[u8])
    requires
        n <= s@.len(),
    ensures
        r@ == s@.take(n as int),
{
    let (a, _b) = s.split_at(n);
    a
}

} // verus!
