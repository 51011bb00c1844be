//! The pool-allocator client and its model.
//!
//! The host owns a memory pool and grants the worker spans of it on request.
//! A span is named by a `BufferHandle`; the pool tracks which handles are
//! live, and the contract is strict pairing: every handle obtained from
//! `allocate` is released through `free` exactly once, and a release of a
//! handle that is not live — never granted, or granted and already released —
//! is rejected as `InvalidHandle`, never ignored.
//!
//! The model of the pool is `PoolView`: a capacity in bytes, the next unused
//! base token, and the sequence of live regions, each a base paired with its
//! bytes. Available capacity is what the live regions leave over.

use vstd::prelude::*;

use crate::buffer::AdoError;
use crate::buffer::bounded_copy;
use crate::buffer::copy_into;
use crate::buffer::zeroed;

verus! {

/// A non-owning descriptor of a span of pool memory: a base token naming
/// where the span starts, and its exact extent in bytes. The handle never
/// owns the memory; it is valid from the `allocate` that produced it until
/// the `free` that releases it.
#[derive(Clone, Copy, Debug, PartialEq, Eq, Structural)]
pub struct BufferHandle {
    /// Base token of the span; unique among the pool's live handles.
    pub base: usize,
    /// Exact number of addressable bytes of the span.
    pub size: usize,
}

/// Model of one live pool region: its base token and its bytes.
#[verifier::ext_equal]
pub struct RegionView {
    pub base: nat,
    pub data: Seq<u8>,
}

/// Model of the pool as the worker sees it through the allocator client.
#[verifier::ext_equal]
pub struct PoolView {
    /// Total bytes the pool can serve at once.
    pub capacity: nat,
    /// Next unused base token; every live base is below it.
    pub next: nat,
    /// The live regions, in order of allocation.
    pub regions: Seq<RegionView>,
}

/// Total bytes held by the given regions.
pub open spec fn sum_sizes(rs: Seq<RegionView>) -> nat
    decreases rs.len(),
{
    if rs.len() == 0 {
        0
    } else {
        sum_sizes(rs.drop_last()) + rs.last().data.len()
    }
}

proof fn lemma_sum_push(rs: Seq<RegionView>, r: RegionView)
    ensures
        sum_sizes(rs.push(r)) == sum_sizes(rs) + r.data.len(),
{
    assert(rs.push(r).drop_last() =~= rs);
    assert(rs.push(r).last() == r);
}

proof fn lemma_sum_remove(rs: Seq<RegionView>, i: int)
    requires
        0 <= i < rs.len(),
    ensures
        sum_sizes(rs) == sum_sizes(rs.remove(i)) + rs[i].data.len(),
    decreases rs.len(),
{
    if i == rs.len() - 1 {
        assert(rs.remove(i) =~= rs.drop_last());
    } else {
        lemma_sum_remove(rs.drop_last(), i);
        assert(rs.remove(i).drop_last() =~= rs.drop_last().remove(i));
        assert(rs.remove(i).last() == rs.last());
    }
}

proof fn lemma_sum_update(rs: Seq<RegionView>, i: int, r: RegionView)
    requires
        0 <= i < rs.len(),
        r.data.len() == rs[i].data.len(),
    ensures
        sum_sizes(rs.update(i, r)) == sum_sizes(rs),
    decreases rs.len(),
{
    if i == rs.len() - 1 {
        assert(rs.update(i, r).drop_last() =~= rs.drop_last());
        assert(rs.update(i, r).last() == r);
    } else {
        lemma_sum_update(rs.drop_last(), i, r);
        assert(rs.update(i, r).drop_last() =~= rs.drop_last().update(i, r));
        assert(rs.update(i, r).last() == rs.last());
    }
}

impl PoolView {
    /// Bytes currently granted to live handles.
    pub open spec fn in_use(self) -> nat {
        sum_sizes(self.regions)
    }

    /// Bytes the pool can still grant.
    pub open spec fn available(self) -> int {
        self.capacity - self.in_use()
    }

    /// Well-formedness: the live regions fit the capacity, every base token
    /// was minted below `next`, and no two live regions share a base.
    pub open spec fn wf(self) -> bool {
        &&& self.in_use() <= self.capacity
        &&& self.capacity <= usize::MAX
        &&& self.next <= usize::MAX
        &&& forall|i: int| 0 <= i < self.regions.len() ==> (#[trigger] self.regions[i]).base < self.next
        &&& forall|i: int, j: int|
            0 <= i < self.regions.len() && 0 <= j < self.regions.len() && i != j
                ==> (#[trigger] self.regions[i]).base != (#[trigger] self.regions[j]).base
    }

    /// Whether `h` names a live region: one granted and not yet released,
    /// with exactly the extent the handle claims.
    pub open spec fn is_live(self, h: BufferHandle) -> bool {
        exists|i: int|
            0 <= i < self.regions.len() && (#[trigger] self.regions[i]).base == h.base
                && self.regions[i].data.len() == h.size
    }

    /// Index of the live region `h` names.
    pub open spec fn index_of(self, h: BufferHandle) -> int {
        choose|i: int|
            0 <= i < self.regions.len() && (#[trigger] self.regions[i]).base == h.base
                && self.regions[i].data.len() == h.size
    }

    /// The bytes of the live region `h` names.
    pub open spec fn region_data(self, h: BufferHandle) -> Seq<u8> {
        self.regions[self.index_of(h)].data
    }

    /// Whether an allocation of `size` bytes can be granted: it fits the
    /// available capacity and a fresh base token remains.
    pub open spec fn can_alloc(self, size: nat) -> bool {
        &&& size <= self.available()
        &&& self.next < usize::MAX
    }

    /// The handle a granted allocation of `size` bytes carries.
    pub open spec fn alloc_handle(self, size: nat) -> BufferHandle {
        BufferHandle { base: self.next as usize, size: size as usize }
    }

    /// The pool after an allocation of `size` bytes is granted: a fresh
    /// zero-filled region at the next base token.
    pub open spec fn after_alloc(self, size: nat) -> PoolView {
        PoolView {
            capacity: self.capacity,
            next: (self.next + 1) as nat,
            regions: self.regions.push(
                RegionView { base: self.next, data: Seq::new(size, |i: int| 0u8) },
            ),
        }
    }

    /// The pool after the live region `h` names is released.
    pub open spec fn after_free(self, h: BufferHandle) -> PoolView {
        PoolView {
            capacity: self.capacity,
            next: self.next,
            regions: self.regions.remove(self.index_of(h)),
        }
    }

    /// The pool after `src` is copied over the front of the live region `h`
    /// names.
    pub open spec fn after_write(self, h: BufferHandle, src: Seq<u8>) -> PoolView {
        PoolView {
            capacity: self.capacity,
            next: self.next,
            regions: self.regions.update(
                self.index_of(h),
                RegionView { base: h.base as nat, data: copy_into(self.region_data(h), src) },
            ),
        }
    }
}

/// In a well-formed pool a handle matches at most one live region, so the
/// region at a matching index is the one `index_of` names.
proof fn lemma_index_of_unique(p: PoolView, h: BufferHandle, i: int)
    requires
        p.wf(),
        0 <= i < p.regions.len(),
        p.regions[i].base == h.base,
        p.regions[i].data.len() == h.size,
    ensures
        p.is_live(h),
        p.index_of(h) == i,
{
    assert(p.is_live(h));
    let j = p.index_of(h);
    if j != i {
        assert(p.regions[i].base != p.regions[j].base);
    }
}

/// What granting an allocation does to a well-formed pool: the fresh region
/// is live under the returned handle, zero-filled, and the available
/// capacity drops by exactly the granted size.
pub proof fn lemma_after_alloc(p: PoolView, size: nat)
    requires
        p.wf(),
        p.can_alloc(size),
    ensures
        ({
            let h = p.alloc_handle(size);
            let p1 = p.after_alloc(size);
            &&& p1.wf()
            &&& h.base == p.next
            &&& h.size == size
            &&& p1.is_live(h)
            &&& p1.index_of(h) == p.regions.len()
            &&& p1.region_data(h) == Seq::new(size, |i: int| 0u8)
            &&& p1.available() == p.available() - size
            &&& p1.in_use() == p.in_use() + size
        }),
{
    let h = p.alloc_handle(size);
    let p1 = p.after_alloc(size);
    let fresh = RegionView { base: p.next, data: Seq::new(size, |i: int| 0u8) };
    lemma_sum_push(p.regions, fresh);
    assert forall|i: int| 0 <= i < p1.regions.len() implies (#[trigger] p1.regions[i]).base
        < p1.next by {
        if i < p.regions.len() {
            assert(p1.regions[i] == p.regions[i]);
        }
    }
    assert forall|i: int, j: int|
        0 <= i < p1.regions.len() && 0 <= j < p1.regions.len() && i != j
        implies (#[trigger] p1.regions[i]).base != (#[trigger] p1.regions[j]).base by {
        if i < p.regions.len() && j < p.regions.len() {
            assert(p.regions[i].base != p.regions[j].base);
        }
    }
    lemma_index_of_unique(p1, h, p.regions.len() as int);
}

/// What releasing a live handle does to a well-formed pool: the handle is no
/// longer live afterwards — which is why a second release of the same handle
/// is rejected — every other live handle stays live, and the available
/// capacity grows back by exactly the handle's size.
pub proof fn lemma_after_free(p: PoolView, h: BufferHandle)
    requires
        p.wf(),
        p.is_live(h),
    ensures
        ({
            let p2 = p.after_free(h);
            &&& p2.wf()
            &&& !p2.is_live(h)
            &&& p2.available() == p.available() + h.size
            &&& p2.in_use() + h.size == p.in_use()
            &&& p2.regions.len() + 1 == p.regions.len()
        }),
{
    let i = p.index_of(h);
    assert(0 <= i < p.regions.len() && p.regions[i].base == h.base && p.regions[i].data.len()
        == h.size);
    let p2 = p.after_free(h);
    lemma_sum_remove(p.regions, i);
    assert forall|k: int| 0 <= k < p2.regions.len() implies (#[trigger] p2.regions[k]).base
        < p2.next by {
        if k < i {
            assert(p2.regions[k] == p.regions[k]);
        } else {
            assert(p2.regions[k] == p.regions[k + 1]);
        }
    }
    assert forall|k: int, l: int|
        0 <= k < p2.regions.len() && 0 <= l < p2.regions.len() && k != l
        implies (#[trigger] p2.regions[k]).base != (#[trigger] p2.regions[l]).base by {
        let k0: int = if k < i { k } else { k + 1 };
        let l0: int = if l < i { l } else { l + 1 };
        assert(p2.regions[k] == p.regions[k0]);
        assert(p2.regions[l] == p.regions[l0]);
    }
    assert(!p2.is_live(h)) by {
        if p2.is_live(h) {
            let k = p2.index_of(h);
            assert(0 <= k < p2.regions.len() && p2.regions[k].base == h.base);
            let k0: int = if k < i { k } else { k + 1 };
            assert(p2.regions[k] == p.regions[k0]);
            assert(k0 != i);
            assert(p.regions[k0].base != p.regions[i].base);
        }
    }
}

/// What a bounded write into a live region does to a well-formed pool: the
/// region's bytes take the copy, its extent and base are unchanged, every
/// handle stays exactly as live as it was, and no capacity moves.
pub proof fn lemma_after_write(p: PoolView, h: BufferHandle, src: Seq<u8>)
    requires
        p.wf(),
        p.is_live(h),
        src.len() <= h.size,
    ensures
        ({
            let p3 = p.after_write(h, src);
            &&& p3.wf()
            &&& p3.available() == p.available()
            &&& p3.regions.len() == p.regions.len()
            &&& forall|g: BufferHandle| p3.is_live(g) == p.is_live(g)
            &&& p3.is_live(h)
            &&& p3.index_of(h) == p.index_of(h)
            &&& p3.region_data(h) == copy_into(p.region_data(h), src)
        }),
{
    let i = p.index_of(h);
    assert(0 <= i < p.regions.len() && p.regions[i].base == h.base && p.regions[i].data.len()
        == h.size);
    let updated = RegionView { base: h.base as nat, data: copy_into(p.region_data(h), src) };
    let p3 = p.after_write(h, src);
    assert(updated.data.len() == p.regions[i].data.len()) by {
        assert(copy_into(p.region_data(h), src).len() == p.region_data(h).len());
    }
    lemma_sum_update(p.regions, i, updated);
    assert forall|k: int| 0 <= k < p3.regions.len() implies (#[trigger] p3.regions[k]).base
        == p.regions[k].base && p3.regions[k].data.len() == p.regions[k].data.len() by {
        if k != i {
            assert(p3.regions[k] == p.regions[k]);
        }
    }
    assert forall|g: BufferHandle| p3.is_live(g) == p.is_live(g) by {
        if p.is_live(g) {
            let k = p.index_of(g);
            assert(p3.regions[k].base == g.base && p3.regions[k].data.len() == g.size);
            assert(p3.is_live(g));
        }
        if p3.is_live(g) {
            let k = p3.index_of(g);
            assert(p.regions[k].base == g.base && p.regions[k].data.len() == g.size);
            assert(p.is_live(g));
        }
    }
    lemma_index_of_unique(p3, h, i);
}

/// Round-trip law: an allocation that the pool can grant, followed
/// immediately by the release of the granted handle, leaves the pool's
/// available capacity — and its live regions — exactly as they were.
pub proof fn lemma_allocate_free_roundtrip(p: PoolView, size: nat)
    requires
        p.wf(),
        p.can_alloc(size),
    ensures
        ({
            let h = p.alloc_handle(size);
            let p1 = p.after_alloc(size);
            &&& p1.is_live(h)
            &&& p1.after_free(h).available() == p.available()
            &&& p1.after_free(h).regions == p.regions
            &&& p1.after_free(h).capacity == p.capacity
        }),
{
    lemma_after_alloc(p, size);
    let h = p.alloc_handle(size);
    let p1 = p.after_alloc(size);
    lemma_after_free(p1, h);
    assert(p1.after_free(h).regions =~= p.regions);
}

/// Double release is detected: once a live handle is released, it is no
/// longer live, so a second `free` of the same handle must be rejected with
/// `InvalidHandle` rather than silently succeed.
pub proof fn lemma_double_free_rejected(p: PoolView, h: BufferHandle)
    requires
        p.wf(),
        p.is_live(h),
    ensures
        p.after_free(h).wf(),
        !p.after_free(h).is_live(h),
{
    lemma_after_free(p, h);
}

/// One live region as the pool tracks it.
struct Region {
    base: usize,
    data: Vec<u8>,
}

impl View for Region {
    type V = RegionView;

    closed spec fn view(&self) -> RegionView {
        RegionView { base: self.base as nat, data: self.data@ }
    }
}

/// The pool-allocator client: the worker-side account of the host-owned
/// pool one callback context routes to. It tracks the live regions so that
/// release is checked — a handle that is not live is rejected — and keeps
/// the bytes of each granted span for bounded reads and writes.
pub struct Pool {
    capacity: usize,
    in_use: usize,
    next: usize,
    regions: Vec<Region>,
}

impl View for Pool {
    type V = PoolView;

    closed spec fn view(&self) -> PoolView {
        PoolView {
            capacity: self.capacity as nat,
            next: self.next as nat,
            regions: Seq::new(self.regions@.len(), |i: int| self.regions@[i]@),
        }
    }
}

impl Pool {
    /// Well-formedness: the model is well-formed and the cached byte count
    /// agrees with the live regions.
    pub closed spec fn wf(self) -> bool {
        &&& self@.wf()
        &&& self.in_use == self@.in_use()
    }

    /// A well-formed pool has a well-formed model.
    pub proof fn lemma_wf_view(self)
        requires
            self.wf(),
        ensures
            self@.wf(),
    {
    }

    /// A fresh pool of `capacity` bytes with no live regions.
    pub fn new(capacity: usize) -> (p: Pool)
        ensures
            p.wf(),
            p@.capacity == capacity,
            p@.next == 0,
            p@.regions == Seq::<RegionView>::empty(),
            p@.available() == capacity,
    {
        let p = Pool { capacity, in_use: 0, next: 0, regions: Vec::new() };
        proof {
            assert(p@.regions =~= Seq::<RegionView>::empty());
        }
        p
    }

    /// Total bytes the pool can serve at once.
    pub fn capacity(&self) -> (n: usize)
        ensures
            n == self@.capacity,
    {
        self.capacity
    }

    /// Bytes the pool can still grant.
    pub fn available(&self) -> (n: usize)
        requires
            self.wf(),
        ensures
            n == self@.available(),
    {
        self.capacity - self.in_use
    }

    /// Requests `size` bytes from the pool. When the request fits the
    /// available capacity (and a fresh base token remains), the result is a
    /// handle to a fresh zero-filled live region of exactly `size` bytes and
    /// the available capacity drops by `size`; otherwise the request is
    /// rejected with `PoolExhausted` and the pool is unchanged.
    pub fn allocate(&mut self, size: usize) -> (r: Result<BufferHandle, AdoError>)
        requires
            old(self).wf(),
        ensures
            final(self).wf(),
            final(self)@.capacity == old(self)@.capacity,
            old(self)@.can_alloc(size as nat) ==> {
                &&& r == Ok::<BufferHandle, AdoError>(old(self)@.alloc_handle(size as nat))
                &&& final(self)@ == old(self)@.after_alloc(size as nat)
                &&& (r matches Ok(h) ==> {
                    &&& h.size == size
                    &&& final(self)@.is_live(h)
                    &&& final(self)@.region_data(h) == Seq::new(size as nat, |i: int| 0u8)
                })
                &&& final(self)@.available() == old(self)@.available() - size
            },
            !old(self)@.can_alloc(size as nat) ==> r == Err::<BufferHandle, AdoError>(
                AdoError::PoolExhausted,
            ) && final(self)@ == old(self)@,
    {
        if self.next == usize::MAX || size > self.capacity - self.in_use {
            proof {
                assert(self@ =~= old(self)@);
            }
            return Err(AdoError::PoolExhausted);
        }
        proof {
            lemma_after_alloc(old(self)@, size as nat);
        }
        let h = BufferHandle { base: self.next, size };
        let data = zeroed(size);
        self.regions.push(Region { base: h.base, data });
        self.next = self.next + 1;
        self.in_use = self.in_use + size;
        proof {
            assert(self@.regions =~= old(self)@.after_alloc(size as nat).regions);
            assert(self@ =~= old(self)@.after_alloc(size as nat));
        }
        Ok(h)
    }

    /// Releases a handle back to the pool. A live handle is removed — its
    /// bytes become unreachable and the available capacity grows back by its
    /// size — and releasing it again, or releasing any handle the pool never
    /// granted, is rejected with `InvalidHandle` with the pool unchanged.
    pub fn free(&mut self, h: BufferHandle) -> (r: Result<(), AdoError>)
        requires
            old(self).wf(),
        ensures
            final(self).wf(),
            final(self)@.capacity == old(self)@.capacity,
            old(self)@.is_live(h) ==> {
                &&& r == Ok::<(), AdoError>(())
                &&& final(self)@ == old(self)@.after_free(h)
                &&& !final(self)@.is_live(h)
                &&& final(self)@.available() == old(self)@.available() + h.size
            },
            !old(self)@.is_live(h) ==> r == Err::<(), AdoError>(AdoError::InvalidHandle)
                && final(self)@ == old(self)@,
    {
        let n = self.regions.len();
        let mut i: usize = 0;
        while i < n
            invariant
                self.wf(),
                *self == *old(self),
                n == self.regions@.len(),
                i <= n,
                forall|j: int|
                    0 <= j < i ==> !((#[trigger] self@.regions[j]).base == h.base
                        && self@.regions[j].data.len() == h.size),
            decreases n - i,
        {
            if self.regions[i].base == h.base && self.regions[i].data.len() == h.size {
                proof {
                    lemma_index_of_unique(self@, h, i as int);
                    lemma_after_free(self@, h);
                    lemma_sum_remove(self@.regions, i as int);
                }
                let reg = self.regions.remove(i);
                self.in_use = self.in_use - reg.data.len();
                proof {
                    assert(self@.regions =~= old(self)@.after_free(h).regions);
                    assert(self@ =~= old(self)@.after_free(h));
                }
                return Ok(());
            }
            i = i + 1;
        }
        proof {
            assert(!self@.is_live(h)) by {
                if self@.is_live(h) {
                    let k = self@.index_of(h);
                    assert(0 <= k < self@.regions.len() && self@.regions[k].base == h.base
                        && self@.regions[k].data.len() == h.size);
                }
            }
            assert(self@ =~= old(self)@);
        }
        Err(AdoError::InvalidHandle)
    }

    /// Bounded write of `src` into the live region `h` names. A handle that
    /// is not live is rejected with `InvalidHandle`; a source larger than
    /// the span is rejected with `BufferTooSmall`; in both cases the pool is
    /// unchanged. Otherwise `src` lands over the front of the region's
    /// bytes, and no other region, extent, or capacity moves.
    pub fn write(&mut self, h: BufferHandle, src: &Vec<u8>) -> (r: Result<(), AdoError>)
        requires
            old(self).wf(),
        ensures
            final(self).wf(),
            final(self)@.capacity == old(self)@.capacity,
            !old(self)@.is_live(h) ==> r == Err::<(), AdoError>(AdoError::InvalidHandle)
                && final(self)@ == old(self)@,
            old(self)@.is_live(h) && src@.len() > h.size ==> r == Err::<(), AdoError>(
                AdoError::BufferTooSmall,
            ) && final(self)@ == old(self)@,
            old(self)@.is_live(h) && src@.len() <= h.size ==> {
                &&& r == Ok::<(), AdoError>(())
                &&& final(self)@ == old(self)@.after_write(h, src@)
                &&& final(self)@.region_data(h) == copy_into(old(self)@.region_data(h), src@)
                &&& final(self)@.available() == old(self)@.available()
                &&& forall|g: BufferHandle| final(self)@.is_live(g) == old(self)@.is_live(g)
            },
    {
        let n = self.regions.len();
        let mut i: usize = 0;
        while i < n
            invariant
                self.wf(),
                *self == *old(self),
                n == self.regions@.len(),
                i <= n,
                forall|j: int|
                    0 <= j < i ==> !((#[trigger] self@.regions[j]).base == h.base
                        && self@.regions[j].data.len() == h.size),
            decreases n - i,
        {
            if self.regions[i].base == h.base && self.regions[i].data.len() == h.size {
                proof {
                    lemma_index_of_unique(self@, h, i as int);
                }
                if src.len() > self.regions[i].data.len() {
                    return Err(AdoError::BufferTooSmall);
                }
                proof {
                    lemma_after_write(self@, h, src@);
                }
                let mut reg = self.regions.remove(i);
                match bounded_copy(&mut reg.data, src) {
                    Ok(()) => {},
                    Err(_) => {},
                }
                self.regions.insert(i, reg);
                proof {
                    assert(self@.regions =~= old(self)@.after_write(h, src@).regions);
                    assert(self@ =~= old(self)@.after_write(h, src@));
                }
                return Ok(());
            }
            i = i + 1;
        }
        proof {
            assert(!self@.is_live(h)) by {
                if self@.is_live(h) {
                    let k = self@.index_of(h);
                    assert(0 <= k < self@.regions.len() && self@.regions[k].base == h.base
                        && self@.regions[k].data.len() == h.size);
                }
            }
            assert(self@ =~= old(self)@);
        }
        Err(AdoError::InvalidHandle)
    }

    /// Reads the bytes of the live region `h` names; a handle that is not
    /// live is rejected with `InvalidHandle`.
    pub fn read(&self, h: BufferHandle) -> (r: Result<Vec<u8>, AdoError>)
        requires
            self.wf(),
        ensures
            self@.is_live(h) ==> (r matches Ok(b) && b@ == self@.region_data(h)),
            !self@.is_live(h) ==> r == Err::<Vec<u8>, AdoError>(AdoError::InvalidHandle),
    {
        let n = self.regions.len();
        let mut i: usize = 0;
        while i < n
            invariant
                self.wf(),
                n == self.regions@.len(),
                i <= n,
                forall|j: int|
                    0 <= j < i ==> !((#[trigger] self@.regions[j]).base == h.base
                        && self@.regions[j].data.len() == h.size),
            decreases n - i,
        {
            if self.regions[i].base == h.base && self.regions[i].data.len() == h.size {
                proof {
                    lemma_index_of_unique(self@, h, i as int);
                }
                let reg = &self.regions[i];
                let m = reg.data.len();
                let mut out: Vec<u8> = Vec::new();
                let mut j: usize = 0;
                while j < m
                    invariant
                        m == reg.data@.len(),
                        j <= m,
                        out@.len() == j,
                        forall|k: int| 0 <= k < j ==> out@[k] == reg.data@[k],
                    decreases m - j,
                {
                    let b = reg.data[j];
                    out.push(b);
                    j = j + 1;
                }
                proof {
                    assert(out@ =~= self@.region_data(h));
                }
                return Ok(out);
            }
            i = i + 1;
        }
        proof {
            assert(!self@.is_live(h)) by {
                if self@.is_live(h) {
                    let k = self@.index_of(h);
                    assert(0 <= k < self@.regions.len() && self@.regions[k].base == h.base
                        && self@.regions[k].data.len() == h.size);
                }
            }
        }
        Err(AdoError::InvalidHandle)
    }
}

} // verus!
