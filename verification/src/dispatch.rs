//! The work dispatcher: the single entry point the host calls once per unit
//! of work.
//!
//! Each call runs the same sequence to completion: a work tag is written
//! into the detached value through the bounded copy, a scratch span is
//! requested from the pool and released again before the call returns, and
//! the request payload is copied into the response span — rejected, not
//! truncated, when it does not fit. Every failure surfaces as the returned
//! status; nothing is retried and no state survives the call. The whole
//! outcome is the mathematical function `dispatch_outcome` of the call's
//! inputs alone.

use vstd::prelude::*;

use crate::buffer::AdoError;
use crate::buffer::Request;
use crate::buffer::Response;
use crate::buffer::Value;
use crate::buffer::copy_into;
use crate::pool::Pool;
use crate::pool::PoolView;

verus! {

/// Result code of a dispatch call: `STATUS_OK` signals success, any nonzero
/// value a failure class. Which nonzero code stands for which class is part
/// of the configuration contract between host and worker and is fixed by
/// the constants below.
pub type Status = i32;

/// The call succeeded.
pub const STATUS_OK: i32 = 0;

/// A copy would have overrun its destination span; nothing was truncated.
pub const STATUS_BUFFER_TOO_SMALL: i32 = 1;

/// The pool could not grant the requested scratch span.
pub const STATUS_POOL_EXHAUSTED: i32 = 2;

/// A release named a handle that was not live: a contract violation that is
/// surfaced, never swallowed.
pub const STATUS_INVALID_HANDLE: i32 = 3;

/// Any other worker-internal failure.
pub const STATUS_INTERNAL: i32 = 4;

/// The status code each failure class surfaces as.
pub open spec fn status_of(e: AdoError) -> i32 {
    match e {
        AdoError::BufferTooSmall => STATUS_BUFFER_TOO_SMALL,
        AdoError::PoolExhausted => STATUS_POOL_EXHAUSTED,
        AdoError::InvalidHandle => STATUS_INVALID_HANDLE,
    }
}

/// Maps a failure class to the status code it surfaces as.
pub fn status_code(e: AdoError) -> (r: Status)
    ensures
        r == status_of(e),
        r != STATUS_OK,
{
    match e {
        AdoError::BufferTooSmall => STATUS_BUFFER_TOO_SMALL,
        AdoError::PoolExhausted => STATUS_POOL_EXHAUSTED,
        AdoError::InvalidHandle => STATUS_INVALID_HANDLE,
    }
}

/// Bytes of scratch memory one dispatch call requests from the pool.
pub const SCRATCH_BYTES: usize = 128;

/// The eight tag bytes a dispatch call writes into the detached value: the
/// work identifier, least significant byte first.
pub open spec fn work_tag(work_id: u64) -> Seq<u8> {
    seq![
        (work_id & 0xff) as u8,
        ((work_id >> 8) & 0xff) as u8,
        ((work_id >> 16) & 0xff) as u8,
        ((work_id >> 24) & 0xff) as u8,
        ((work_id >> 32) & 0xff) as u8,
        ((work_id >> 40) & 0xff) as u8,
        ((work_id >> 48) & 0xff) as u8,
        ((work_id >> 56) & 0xff) as u8,
    ]
}

/// Builds the tag bytes for `work_id`.
pub fn work_tag_bytes(work_id: u64) -> (r: Vec<u8>)
    ensures
        r@ == work_tag(work_id),
        r@.len() == 8,
{
    let mut v: Vec<u8> = Vec::new();
    v.push((work_id & 0xff) as u8);
    v.push(((work_id >> 8) & 0xff) as u8);
    v.push(((work_id >> 16) & 0xff) as u8);
    v.push(((work_id >> 24) & 0xff) as u8);
    v.push(((work_id >> 32) & 0xff) as u8);
    v.push(((work_id >> 40) & 0xff) as u8);
    v.push(((work_id >> 48) & 0xff) as u8);
    v.push(((work_id >> 56) & 0xff) as u8);
    proof {
        assert(v@ =~= work_tag(work_id));
    }
    v
}

/// Everything one dispatch call leaves behind: the status it returns, the
/// pool, and the contents of the detached value and the response span.
#[verifier::ext_equal]
pub struct DispatchOutcome {
    pub status: i32,
    pub pool: PoolView,
    pub detached: Seq<u8>,
    pub response: Seq<u8>,
}

/// The outcome of a dispatch call as a function of its inputs: the pool,
/// the work identifier, and the contents of the detached value, the request
/// and the response span. The call walks its stages in order — tag the
/// detached value, acquire scratch, release it, respond — and stops at the
/// first stage that fails, leaving the later spans untouched.
pub open spec fn dispatch_outcome(
    pool: PoolView,
    work_id: u64,
    detached: Seq<u8>,
    request: Seq<u8>,
    response: Seq<u8>,
) -> DispatchOutcome {
    if work_tag(work_id).len() > detached.len() {
        DispatchOutcome { status: STATUS_BUFFER_TOO_SMALL, pool, detached, response }
    } else {
        let tagged = copy_into(detached, work_tag(work_id));
        if !pool.can_alloc(SCRATCH_BYTES as nat) {
            DispatchOutcome { status: STATUS_POOL_EXHAUSTED, pool, detached: tagged, response }
        } else {
            let drained = pool.after_alloc(SCRATCH_BYTES as nat).after_free(
                pool.alloc_handle(SCRATCH_BYTES as nat),
            );
            if request.len() > response.len() {
                DispatchOutcome {
                    status: STATUS_BUFFER_TOO_SMALL,
                    pool: drained,
                    detached: tagged,
                    response,
                }
            } else {
                DispatchOutcome {
                    status: STATUS_OK,
                    pool: drained,
                    detached: tagged,
                    response: copy_into(response, request),
                }
            }
        }
    }
}

/// Performs one unit of work. The host supplies the callback context that
/// routes pool requests (here the pool-allocator client itself), the work
/// identifier, the key with its attached and detached values, the request
/// payload, the new-root flag, and the response span.
///
/// The call returns `STATUS_OK` exactly when the detached value holds the
/// eight tag bytes, the pool granted and took back the scratch span, and
/// the request payload fit the response span; otherwise it returns the
/// status of the first stage that failed. In every case the outcome —
/// status, pool, detached value, response — is `dispatch_outcome` of the
/// inputs, the pool keeps the live regions it started with, and its
/// available capacity is unchanged: scratch memory never leaks past the
/// call.
pub fn do_work(
    callback_ctx: &mut Pool,
    work_id: u64,
    _key: String,
    _attached_value: &Value,
    detached_value: &mut Value,
    work_request: &Request,
    _new_root: bool,
    response: &mut Response,
) -> (r: Status)
    requires
        old(callback_ctx).wf(),
    ensures
        final(callback_ctx).wf(),
        ({
            let o = dispatch_outcome(
                old(callback_ctx)@,
                work_id,
                old(detached_value)@,
                work_request@,
                old(response)@,
            );
            &&& r == o.status
            &&& final(callback_ctx)@ == o.pool
            &&& final(detached_value)@ == o.detached
            &&& final(response)@ == o.response
        }),
        final(callback_ctx)@.regions == old(callback_ctx)@.regions,
        final(callback_ctx)@.capacity == old(callback_ctx)@.capacity,
        final(callback_ctx)@.available() == old(callback_ctx)@.available(),
{
    let tag = work_tag_bytes(work_id);
    match detached_value.copy_to(&tag) {
        Ok(()) => {},
        Err(e) => {
            return status_code(e);
        },
    }
    let scratch = match callback_ctx.allocate(SCRATCH_BYTES) {
        Ok(h) => h,
        Err(e) => {
            return status_code(e);
        },
    };
    proof {
        old(callback_ctx).lemma_wf_view();
        crate::pool::lemma_allocate_free_roundtrip(old(callback_ctx)@, SCRATCH_BYTES as nat);
    }
    match callback_ctx.free(scratch) {
        Ok(()) => {},
        Err(e) => {
            return status_code(e);
        },
    }
    match response.copy_to(work_request.bytes()) {
        Ok(()) => {},
        Err(e) => {
            return status_code(e);
        },
    }
    STATUS_OK
}

/// Acknowledges the host's notice that the pool region starting at
/// `shard_base` is now mapped at the local address `local_base` for `size`
/// bytes. This worker retains no translated addresses across calls, so
/// there is nothing to correct and the notice always succeeds.
pub fn register_mapped_memory(_shard_base: u64, _local_base: u64, _size: usize) -> (r: Status)
    ensures
        r == STATUS_OK,
{
    STATUS_OK
}

/// Sequential dispatch calls are independent: the pool a call leaves behind
/// does not depend on the call's work identifier, so the outcome of the
/// next call is the same whatever work identifier the previous call
/// carried — there is no state through which one call could leak into the
/// next.
pub proof fn lemma_dispatch_independent(
    pool: PoolView,
    first_id: u64,
    other_id: u64,
    second_id: u64,
    detached1: Seq<u8>,
    request1: Seq<u8>,
    response1: Seq<u8>,
    detached2: Seq<u8>,
    request2: Seq<u8>,
    response2: Seq<u8>,
)
    ensures
        ({
            let a = dispatch_outcome(pool, first_id, detached1, request1, response1);
            let b = dispatch_outcome(pool, other_id, detached1, request1, response1);
            &&& a.pool == b.pool
            &&& a.status == b.status
            &&& dispatch_outcome(a.pool, second_id, detached2, request2, response2)
                == dispatch_outcome(b.pool, second_id, detached2, request2, response2)
        }),
{
    assert(work_tag(first_id).len() == 8);
    assert(work_tag(other_id).len() == 8);
}

} // verus!
