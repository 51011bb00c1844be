//! Bounded copy into call-scoped buffers.
//!
//! The host hands the worker spans of memory it owns: the incoming request
//! payload, the response span the host reads after the call, and the attached
//! and detached values bound to the key. Each span has a fixed extent, and
//! every write into one goes through a single bounds-checked copy that
//! rejects, rather than truncates, a source that does not fit.

use vstd::prelude::*;

verus! {

/// Failure classes of the buffer and pool contract.
#[derive(Clone, Copy, Debug, PartialEq, Eq, Structural)]
pub enum AdoError {
    /// A copy would overrun the destination span; the destination is left
    /// unchanged rather than silently truncated.
    BufferTooSmall,
    /// The pool cannot satisfy an allocation request.
    PoolExhausted,
    /// A release named a handle that is not currently live under this pool:
    /// never allocated, or already freed.
    InvalidHandle,
}

/// The contents of a span of `dst.len()` bytes after `src` is copied over
/// its front; the tail beyond `src` keeps its previous bytes.
pub open spec fn copy_into(dst: Seq<u8>, src: Seq<u8>) -> Seq<u8>
    recommends
        src.len() <= dst.len(),
{
    src + dst.skip(src.len() as int)
}

/// A copy of the same bytes settles in one step: the copied bytes sit
/// verbatim at the front of the destination, the length of the span is
/// unchanged, and repeating the copy changes nothing further.
pub proof fn lemma_copy_into_idempotent(dst: Seq<u8>, src: Seq<u8>)
    requires
        src.len() <= dst.len(),
    ensures
        copy_into(dst, src).len() == dst.len(),
        copy_into(dst, src).subrange(0, src.len() as int) == src,
        copy_into(copy_into(dst, src), src) == copy_into(dst, src),
{
    assert(copy_into(dst, src).subrange(0, src.len() as int) =~= src);
    assert(copy_into(copy_into(dst, src), src) =~= copy_into(dst, src));
}

/// Copies `src` over the front of `dst` when it fits; rejects the copy with
/// `BufferTooSmall`, leaving `dst` untouched, when it would overrun. The
/// extent of `dst` never changes.
pub fn bounded_copy(dst: &mut Vec<u8>, src: &Vec<u8>) -> (r: Result<(), AdoError>)
    ensures
        final(dst)@.len() == old(dst)@.len(),
        src@.len() <= old(dst)@.len() ==> r == Ok::<(), AdoError>(())
            && final(dst)@ == copy_into(old(dst)@, src@),
        src@.len() > old(dst)@.len() ==> r == Err::<(), AdoError>(AdoError::BufferTooSmall)
            && final(dst)@ == old(dst)@,
{
    if src.len() > dst.len() {
        return Err(AdoError::BufferTooSmall);
    }
    let mut i: usize = 0;
    while i < src.len()
        invariant
            i <= src@.len() <= dst@.len(),
            dst@.len() == old(dst)@.len(),
            forall|j: int| 0 <= j < i ==> dst@[j] == src@[j],
            forall|j: int| i <= j < dst@.len() ==> dst@[j] == old(dst)@[j],
        decreases src@.len() - i,
    {
        let b = src[i];
        dst.set(i, b);
        i = i + 1;
    }
    proof {
        assert(dst@ =~= copy_into(old(dst)@, src@));
    }
    Ok(())
}

/// A fresh zero-filled span of `n` bytes.
pub(crate) fn zeroed(n: usize) -> (r: Vec<u8>)
    ensures
        r@ == Seq::new(n as nat, |i: int| 0u8),
{
    let mut v: Vec<u8> = Vec::new();
    let mut i: usize = 0;
    while i < n
        invariant
            i <= n,
            v@.len() == i,
            forall|j: int| 0 <= j < i ==> v@[j] == 0u8,
        decreases n - i,
    {
        v.push(0u8);
        i = i + 1;
    }
    proof {
        assert(v@ =~= Seq::new(n as nat, |i: int| 0u8));
    }
    v
}

/// A value bound to the key of one dispatch call: a span of host memory the
/// worker may overwrite through the bounded copy. The attached role carries
/// the key's input data; the detached role is the output span the worker may
/// populate. The handle never owns the memory it names; here the span's
/// bytes stand in for the host-owned region, valid for the one call.
pub struct Value {
    data: Vec<u8>,
}

impl View for Value {
    type V = Seq<u8>;

    closed spec fn view(&self) -> Seq<u8> {
        self.data@
    }
}

impl Value {
    /// A value span of `size` bytes, zero-filled, as the host presents a
    /// fresh region.
    pub fn with_size(size: usize) -> (v: Value)
        ensures
            v@ == Seq::new(size as nat, |i: int| 0u8),
            v@.len() == size,
    {
        Value { data: zeroed(size) }
    }

    /// A value span already holding `data`, as the host presents a key's
    /// attached input.
    pub fn from_bytes(data: Vec<u8>) -> (v: Value)
        ensures
            v@ == data@,
    {
        Value { data }
    }

    /// The extent of the span in bytes.
    pub fn size(&self) -> (n: usize)
        ensures
            n == self@.len(),
    {
        self.data.len()
    }

    /// The bytes currently in the span.
    pub fn bytes(&self) -> (b: &Vec<u8>)
        ensures
            b@ == self@,
    {
        &self.data
    }

    /// Bounded write of worker-produced content into the span: the copy is
    /// rejected with `BufferTooSmall`, and the span left unchanged, when
    /// `src` does not fit.
    pub fn copy_to(&mut self, src: &Vec<u8>) -> (r: Result<(), AdoError>)
        ensures
            final(self)@.len() == old(self)@.len(),
            src@.len() <= old(self)@.len() ==> r == Ok::<(), AdoError>(())
                && final(self)@ == copy_into(old(self)@, src@),
            src@.len() > old(self)@.len() ==> r == Err::<(), AdoError>(AdoError::BufferTooSmall)
                && final(self)@ == old(self)@,
    {
        bounded_copy(&mut self.data, src)
    }
}

/// The incoming work payload of one dispatch call; read-only for the worker.
pub struct Request {
    data: Vec<u8>,
}

impl View for Request {
    type V = Seq<u8>;

    closed spec fn view(&self) -> Seq<u8> {
        self.data@
    }
}

impl Request {
    /// A request carrying `data`, as the host sends it in.
    pub fn from_bytes(data: Vec<u8>) -> (q: Request)
        ensures
            q@ == data@,
    {
        Request { data }
    }

    /// The extent of the payload in bytes.
    pub fn size(&self) -> (n: usize)
        ensures
            n == self@.len(),
    {
        self.data.len()
    }

    /// The payload bytes.
    pub fn bytes(&self) -> (b: &Vec<u8>)
        ensures
            b@ == self@,
    {
        &self.data
    }
}

/// The outgoing result span of one dispatch call: the worker fills it, and
/// the host reads it only after the dispatcher returns.
pub struct Response {
    data: Vec<u8>,
}

impl View for Response {
    type V = Seq<u8>;

    closed spec fn view(&self) -> Seq<u8> {
        self.data@
    }
}

impl Response {
    /// A response span of `size` bytes, zero-filled, as the host presents it
    /// before the call.
    pub fn with_size(size: usize) -> (p: Response)
        ensures
            p@ == Seq::new(size as nat, |i: int| 0u8),
            p@.len() == size,
    {
        Response { data: zeroed(size) }
    }

    /// The extent of the span in bytes.
    pub fn size(&self) -> (n: usize)
        ensures
            n == self@.len(),
    {
        self.data.len()
    }

    /// The bytes currently in the span; meaningful to the host once the
    /// dispatch call has returned.
    pub fn bytes(&self) -> (b: &Vec<u8>)
        ensures
            b@ == self@,
    {
        &self.data
    }

    /// Bounded write of the result into the span: the copy is rejected with
    /// `BufferTooSmall`, and the span left unchanged, when `src` does not
    /// fit. Reject-not-truncate is this worker's documented policy for a
    /// result larger than the response span.
    pub fn copy_to(&mut self, src: &Vec<u8>) -> (r: Result<(), AdoError>)
        ensures
            final(self)@.len() == old(self)@.len(),
            src@.len() <= old(self)@.len() ==> r == Ok::<(), AdoError>(())
                && final(self)@ == copy_into(old(self)@, src@),
            src@.len() > old(self)@.len() ==> r == Err::<(), AdoError>(AdoError::BufferTooSmall)
                && final(self)@ == old(self)@,
    {
        bounded_copy(&mut self.data, src)
    }
}

} // verus!
