//! Staging buffers. The memory itself is the caller's: the library carries it through and decides
//! where it comes from.
use vstd::prelude::*;

verus! {

/// Injection point for staging memory, such as pinned pages.
pub struct BufAlloc<F> {
    pub alloc: F,
}

/// A buffer of `cap` bytes in memory `B`.
pub struct Aligned<B> {
    mem: B,
    cap: usize,
    custom: bool,
}

impl<B> Aligned<B> {
    /// The memory of the buffer.
    pub closed spec fn mem(self) -> B {
        self.mem
    }

    /// Bytes of the buffer.
    pub closed spec fn size(self) -> usize {
        self.cap
    }

    /// Whether the memory came from an injected allocator.
    pub closed spec fn injected(self) -> bool {
        self.custom
    }

    pub fn ptr(&self) -> (r: &B)
        ensures
            *r == self.mem(),
    {
        &self.mem
    }

    pub fn cap(&self) -> (r: usize)
        ensures
            r == self.size(),
    {
        self.cap
    }

    /// Whether the memory goes back to the injected allocator.
    pub fn is_custom(&self) -> (r: bool)
        ensures
            r == self.injected(),
    {
        self.custom
    }

    /// Takes the memory out, to give it back to where it came from.
    pub fn into_mem(self) -> (r: B)
        ensures
            r == self.mem(),
    {
        self.mem
    }

    /// A buffer from the default allocator.
    pub fn new<G: FnOnce(usize) -> Option<B>>(cap: usize, own: G) -> (r: Option<Self>)
        requires
            call_requires(own, (cap,)),
        ensures
            match r {
                Some(b) => b.size() == cap && !b.injected() && call_ensures(
                    own,
                    (cap,),
                    Some(b.mem()),
                ),
                None => call_ensures(own, (cap,), None),
            },
    {
        match own(cap) {
            Some(mem) => Some(Aligned { mem, cap, custom: false }),
            None => None,
        }
    }

    /// A buffer from the injected allocator, or from the default one where nothing is injected or
    /// the injected one has none to give.
    pub fn new_with<F: FnOnce(usize) -> Option<B>, G: FnOnce(usize) -> Option<B>>(
        cap: usize,
        a: Option<BufAlloc<F>>,
        own: G,
    ) -> (r: Option<Self>)
        requires
            a matches Some(a) ==> call_requires(a.alloc, (cap,)),
            call_requires(own, (cap,)),
        ensures
            match r {
                Some(b) => b.size() == cap && if b.injected() {
                    a matches Some(a) && call_ensures(a.alloc, (cap,), Some(b.mem()))
                } else {
                    call_ensures(own, (cap,), Some(b.mem())) && (a matches Some(a) ==> call_ensures(
                        a.alloc,
                        (cap,),
                        None,
                    ))
                },
                None => call_ensures(own, (cap,), None) && (a matches Some(a) ==> call_ensures(
                    a.alloc,
                    (cap,),
                    None,
                )),
            },
    {
        if let Some(a) = a {
            let f = a.alloc;
            if let Some(mem) = f(cap) {
                return Some(Aligned { mem, cap, custom: true });
            }
        }
        Self::new(cap, own)
    }
}

/// One fetched aligned bracket with a payload window into it.
pub struct Slab<B> {
    pub buf: Aligned<B>,
    pub payload_off: usize,
    pub payload_len: usize,
}

impl<B> Slab<B> {
    /// The payload window lies within the buffer.
    pub open spec fn wf(self) -> bool {
        self.payload_off + self.payload_len <= self.buf.size()
    }

    pub fn bytes(&self) -> (r: usize)
        ensures
            r == self.buf.size(),
    {
        self.buf.cap()
    }
}

} // verus!
