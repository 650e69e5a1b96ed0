//! A pool of registered source buffers, so that a connection that serves many
//! zero-copy responses registers memory only a few times.
//!
//! The pool grows lazily up to its capacity. A request that does not fit a pooled
//! buffer, or that finds all of them lent out, gets a buffer of its own.

use vstd::prelude::*;

verus! {

/// Reusable buffers of one size.
#[derive(Debug)]
pub struct SourcePool<B> {
    buf_size: usize,
    capacity: usize,
    free: Vec<B>,
    registered: usize,
    fallbacks: u64,
}

/// The state of a pool.
#[verifier::ext_equal]
#[verifier::reject_recursive_types(B)]
pub struct PoolState<B> {
    /// Size of a pooled buffer.
    pub buf_size: usize,
    /// The most buffers the pool may hold.
    pub capacity: usize,
    /// Buffers that can be lent.
    pub free: Seq<B>,
    /// Buffers that exist, lent or not.
    pub registered: usize,
    /// Buffers that were registered for one use only.
    pub fallbacks: u64,
}

/// Where a buffer for a request comes from.
#[derive(Debug, PartialEq, Eq)]
pub enum Acquire<B> {
    /// This pooled buffer.
    Reuse(B),
    /// A buffer of `size` bytes that is registered now and joins the pool; see
    /// [`SourcePool::grown`].
    Grow {
        /// Bytes to register.
        size: usize,
    },
    /// A buffer of `size` bytes that is registered now for this use only; see
    /// [`SourcePool::fell_back`].
    OneOff {
        /// Bytes to register.
        size: usize,
    },
}

/// A buffer in use.
#[derive(Debug)]
pub struct SourceLease<B> {
    buf: B,
    pooled: bool,
}

impl<B> SourceLease<B> {
    /// The buffer.
    pub closed spec fn held(&self) -> B {
        self.buf
    }

    /// Whether the buffer goes back to the pool.
    pub closed spec fn pooled(&self) -> bool {
        self.pooled
    }

    /// The buffer.
    pub fn buffer(&self) -> (r: &B)
        ensures
            *r == self.held(),
    {
        &self.buf
    }
}

impl<B> View for SourcePool<B> {
    type V = PoolState<B>;

    closed spec fn view(&self) -> PoolState<B> {
        PoolState {
            buf_size: self.buf_size,
            capacity: self.capacity,
            free: self.free@,
            registered: self.registered,
            fallbacks: self.fallbacks,
        }
    }
}

impl<B> PoolState<B> {
    /// The invariant: buffers are never empty, every free buffer exists, and no
    /// more exist than the pool may hold.
    pub open spec fn inv(self) -> bool {
        &&& self.buf_size >= 1
        &&& self.free.len() <= self.registered
        &&& self.registered <= self.capacity
    }

    /// Pooled buffers that are lent out.
    pub open spec fn lent(self) -> int {
        self.registered - self.free.len()
    }

    /// Where a buffer of `len` bytes comes from.
    pub open spec fn source_for(self, len: usize) -> Acquire<B> {
        if len <= self.buf_size && self.free.len() > 0 {
            Acquire::Reuse(self.free.last())
        } else if len <= self.buf_size && self.registered < self.capacity {
            Acquire::Grow { size: self.buf_size }
        } else {
            Acquire::OneOff {
                size: if len == 0 {
                    1
                } else {
                    len
                },
            }
        }
    }

    /// The state once that buffer has been chosen.
    pub open spec fn after_acquire(self, len: usize) -> PoolState<B> {
        if self.source_for(len) is Reuse {
            PoolState { free: self.free.drop_last(), ..self }
        } else {
            self
        }
    }

    /// The state once a buffer was registered for the pool and lent.
    pub open spec fn after_growth(self) -> PoolState<B> {
        PoolState { registered: (self.registered + 1) as usize, ..self }
    }

    /// The state once a buffer was registered for one use only.
    pub open spec fn after_fallback(self) -> PoolState<B> {
        PoolState { fallbacks: (self.fallbacks + 1) as u64, ..self }
    }

    /// The state once the lease of `buf` ended.
    pub open spec fn after_release(self, buf: B, pooled: bool) -> PoolState<B> {
        if pooled {
            PoolState { free: self.free.push(buf), ..self }
        } else {
            self
        }
    }
}

impl<B> SourcePool<B> {
    /// A pool of up to `capacity` buffers of `buf_size` bytes, of which none is
    /// registered yet. An empty buffer is never registered.
    pub fn new(capacity: usize, buf_size: usize) -> (r: SourcePool<B>)
        ensures
            r@ == (PoolState::<B> {
                buf_size: if buf_size < 1 {
                    1
                } else {
                    buf_size
                },
                capacity,
                free: seq![],
                registered: 0,
                fallbacks: 0,
            }),
            r@.inv(),
    {
        let size: usize = if buf_size < 1 {
            1
        } else {
            buf_size
        };
        let pool = SourcePool { buf_size: size, capacity, free: Vec::new(), registered: 0, fallbacks: 0 };
        assert(pool@.free =~= seq![]);
        pool
    }

    /// Size of a pooled buffer.
    pub fn buf_size(&self) -> (r: usize)
        ensures
            r == self@.buf_size,
    {
        self.buf_size
    }

    /// Buffers that can be lent without registering one.
    pub fn available(&self) -> (r: usize)
        ensures
            r == self@.free.len(),
    {
        self.free.len()
    }

    /// Buffers that exist, lent or not.
    pub fn registered(&self) -> (r: usize)
        ensures
            r == self@.registered,
    {
        self.registered
    }

    /// Buffers that were registered for one use only.
    pub fn fallbacks(&self) -> (r: u64)
        ensures
            r == self@.fallbacks,
    {
        self.fallbacks
    }

    /// Chooses where a buffer of at least `len` bytes comes from: a free pooled one
    /// if it fits, else a new pooled one if the pool may still grow, else one for
    /// this use only. A free buffer leaves the pool until its lease is released.
    pub fn acquire(&mut self, len: usize) -> (r: Acquire<B>)
        ensures
            r == old(self)@.source_for(len),
            final(self)@ == old(self)@.after_acquire(len),
            old(self)@.inv() ==> final(self)@.inv(),
    {
        let fits = len <= self.buf_size;
        if fits {
            match self.free.pop() {
                Some(buf) => {
                    assert(self.free@ =~= old(self)@.free.drop_last());
                    return Acquire::Reuse(buf);
                },
                None => {
                    assert(self.free@ =~= old(self)@.free);
                },
            }
            if self.registered < self.capacity {
                return Acquire::Grow { size: self.buf_size };
            }
        }
        Acquire::OneOff {
            size: if len == 0 {
                1
            } else {
                len
            },
        }
    }

    /// The lease of a pooled buffer that was free.
    pub fn reused(&self, buf: B) -> (r: SourceLease<B>)
        ensures
            r.held() == buf,
            r.pooled(),
    {
        SourceLease { buf, pooled: true }
    }

    /// Takes note that a buffer was registered for the pool, and leases it.
    pub fn grown(&mut self, buf: B) -> (r: SourceLease<B>)
        requires
            old(self)@.registered < old(self)@.capacity,
        ensures
            r.held() == buf,
            r.pooled(),
            final(self)@ == old(self)@.after_growth(),
            old(self)@.inv() ==> final(self)@.inv(),
    {
        self.registered = self.registered + 1;
        SourceLease { buf, pooled: true }
    }

    /// Takes note that a buffer was registered for one use only, and leases it.
    pub fn fell_back(&mut self, buf: B) -> (r: SourceLease<B>)
        requires
            old(self)@.fallbacks < u64::MAX,
        ensures
            r.held() == buf,
            !r.pooled(),
            final(self)@ == old(self)@.after_fallback(),
            old(self)@.inv() ==> final(self)@.inv(),
    {
        self.fallbacks = self.fallbacks + 1;
        SourceLease { buf, pooled: false }
    }

    /// Ends a lease: a pooled buffer becomes free again; one that was registered
    /// for this use only is handed back to be deregistered.
    pub fn release(&mut self, lease: SourceLease<B>) -> (r: Option<B>)
        requires
            lease.pooled() ==> old(self)@.lent() > 0,
        ensures
            final(self)@ == old(self)@.after_release(lease.held(), lease.pooled()),
            lease.pooled() ==> r is None,
            !lease.pooled() ==> r == Some(lease.held()),
            old(self)@.inv() ==> final(self)@.inv(),
    {
        if lease.pooled {
            self.free.push(lease.buf);
            None
        } else {
            Some(lease.buf)
        }
    }
}

/// A chosen buffer is never too small: a reused or new pooled one has the pool's
/// size, which the request fits, and one of its own has the size asked for, or one
/// byte for an empty request.
pub proof fn law_source_fits<B>(s: PoolState<B>, len: usize)
    requires
        s.inv(),
    ensures
        match s.source_for(len) {
            Acquire::Reuse(_) => len <= s.buf_size && s.free.len() > 0,
            Acquire::Grow { size } => size == s.buf_size && len <= size && s.registered < s.capacity,
            Acquire::OneOff { size } => size >= 1 && size >= len && (len > s.buf_size || (
            s.registered >= s.capacity && s.free.len() == 0)),
        },
{
}

/// Responses that fit and are served one after the other share one registration:
/// once a buffer is free, each takes it and gives it back, and nothing more is
/// registered.
pub proof fn law_sequential_responses_reuse<B>(s: PoolState<B>, len: usize)
    requires
        s.inv(),
        s.free.len() > 0,
        len <= s.buf_size,
    ensures
        s.source_for(len) == Acquire::Reuse(s.free.last()),
        s.after_acquire(len).lent() == s.lent() + 1,
        (PoolState { free: s.after_acquire(len).free.push(s.free.last()), ..s.after_acquire(len) })
            == s,
{
    assert(s.free.drop_last().push(s.free.last()) =~= s.free);
}

/// Only lending a free buffer changes the pool when a source is chosen, and only by
/// that buffer. A free buffer that fits is always used; a new one joins the pool only
/// if none is free; and one of its own has exactly the size that is asked for.
pub proof fn law_choosing_lends_at_most_one<B>(s: PoolState<B>, len: usize)
    requires
        s.inv(),
    ensures
        ({
            let chosen = s.source_for(len);
            let after = s.after_acquire(len);
            let fits = len <= s.buf_size;
            &&& after.inv()
            &&& after.buf_size == s.buf_size && after.capacity == s.capacity
            &&& after.registered == s.registered && after.fallbacks == s.fallbacks
            &&& chosen is Reuse <==> fits && s.free.len() > 0
            &&& chosen matches Acquire::Reuse(buf) ==> after.free.push(buf) == s.free
            &&& chosen !is Reuse ==> after.free == s.free
            &&& chosen is Grow <==> fits && s.free.len() == 0 && s.registered < s.capacity
            &&& chosen matches Acquire::OneOff { size } ==> size == (if len == 0 {
                1
            } else {
                len as int
            })
        }),
{
    if s.free.len() > 0 {
        assert(s.free.drop_last().push(s.free.last()) =~= s.free);
    }
}

/// A lease that is over leaves the pool as it was, but for what it registered: a new
/// pooled buffer is free from then on and counts among those that exist, and one of
/// its own is only counted as such.
pub proof fn law_lease_cycle<B>(s: PoolState<B>, len: usize, buf: B)
    requires
        s.inv(),
        s.fallbacks < u64::MAX,
    ensures
        match s.source_for(len) {
            Acquire::Reuse(lent) => s.after_acquire(len).after_release(lent, true) == s,
            Acquire::Grow { .. } => {
                let t = s.after_acquire(len).after_growth();
                let u = t.after_release(buf, true);
                &&& t.lent() == s.lent() + 1 && t.free == s.free
                &&& t.registered == s.registered + 1 && t.inv()
                &&& u.lent() == s.lent() && u.free == s.free.push(buf)
                &&& u.registered == s.registered + 1 && u.fallbacks == s.fallbacks && u.inv()
            },
            Acquire::OneOff { .. } => {
                let u = s.after_acquire(len).after_fallback().after_release(buf, false);
                &&& u.free == s.free && u.registered == s.registered
                &&& u.fallbacks == s.fallbacks + 1 && u.inv()
            },
        },
{
    if s.free.len() > 0 {
        assert(s.free.drop_last().push(s.free.last()) =~= s.free);
    }
}

} // verus!
