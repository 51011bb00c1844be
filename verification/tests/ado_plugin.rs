use ado_plugin::AdoError;
use ado_plugin::BufferHandle;
use ado_plugin::Pool;
use ado_plugin::Request;
use ado_plugin::Response;
use ado_plugin::Value;
use ado_plugin::SCRATCH_BYTES;
use ado_plugin::STATUS_BUFFER_TOO_SMALL;
use ado_plugin::STATUS_OK;
use ado_plugin::STATUS_POOL_EXHAUSTED;
use ado_plugin::do_work;
use ado_plugin::register_mapped_memory;

#[test]
fn allocate_free_round_trip_keeps_capacity() {
    let mut pool = Pool::new(256);
    assert_eq!(pool.available(), 256);
    let handle = pool.allocate(128).expect("allocation fits");
    assert_eq!(pool.available(), 128);
    assert_eq!(pool.free(handle), Ok(()));
    assert_eq!(pool.available(), 256);
}

#[test]
fn copy_lands_at_front_and_is_idempotent() {
    let mut value = Value::with_size(8);
    let payload = vec![1u8, 2, 3];
    assert_eq!(value.copy_to(&payload), Ok(()));
    assert_eq!(value.bytes(), &vec![1u8, 2, 3, 0, 0, 0, 0, 0]);
    assert_eq!(value.copy_to(&payload), Ok(()));
    assert_eq!(value.bytes(), &vec![1u8, 2, 3, 0, 0, 0, 0, 0]);
}

#[test]
fn oversized_copy_is_rejected_and_leaves_destination() {
    let mut value = Value::with_size(4);
    let fits = vec![9u8, 9, 9, 9];
    assert_eq!(value.copy_to(&fits), Ok(()));
    let too_big = vec![1u8, 2, 3, 4, 5];
    assert_eq!(value.copy_to(&too_big), Err(AdoError::BufferTooSmall));
    assert_eq!(value.bytes(), &vec![9u8, 9, 9, 9]);
    assert_eq!(value.size(), 4);
}

#[test]
fn double_free_is_rejected() {
    let mut pool = Pool::new(64);
    let handle = pool.allocate(32).expect("allocation fits");
    assert_eq!(pool.free(handle), Ok(()));
    assert_eq!(pool.free(handle), Err(AdoError::InvalidHandle));
    assert_eq!(pool.available(), 64);
}

#[test]
fn foreign_handle_is_rejected() {
    let mut pool = Pool::new(64);
    let never_granted = BufferHandle { base: 7, size: 8 };
    assert_eq!(pool.free(never_granted), Err(AdoError::InvalidHandle));
    assert_eq!(pool.write(never_granted, &vec![1u8]), Err(AdoError::InvalidHandle));
    assert_eq!(pool.read(never_granted), Err(AdoError::InvalidHandle));
}

#[test]
fn exhausted_pool_rejects_allocation() {
    let mut pool = Pool::new(100);
    assert_eq!(pool.allocate(101), Err(AdoError::PoolExhausted));
    assert_eq!(pool.available(), 100);
    let handle = pool.allocate(100).expect("whole pool fits");
    assert_eq!(pool.allocate(1), Err(AdoError::PoolExhausted));
    assert_eq!(pool.free(handle), Ok(()));
}

#[test]
fn allocate_write_read_back_free_once() {
    let mut pool = Pool::new(256);
    let handle = pool.allocate(128).expect("allocation fits");
    assert_eq!(handle.size, 128);

    let sixteen: Vec<u8> = (1u8..=16).collect();
    assert_eq!(pool.write(handle, &sixteen), Ok(()));
    let back = pool.read(handle).expect("handle is live");
    assert_eq!(back.len(), 128);
    assert_eq!(&back[..16], &sixteen[..]);
    assert!(back[16..].iter().all(|b| *b == 0));

    assert_eq!(pool.free(handle), Ok(()));
    assert_eq!(pool.free(handle), Err(AdoError::InvalidHandle));
}

#[test]
fn pool_write_respects_span_bounds() {
    let mut pool = Pool::new(64);
    let handle = pool.allocate(8).expect("allocation fits");
    let too_big: Vec<u8> = vec![1u8; 9];
    assert_eq!(pool.write(handle, &too_big), Err(AdoError::BufferTooSmall));
    assert_eq!(pool.read(handle), Ok(vec![0u8; 8]));
    assert_eq!(pool.free(handle), Ok(()));
}

#[test]
fn dispatch_copies_request_into_response() {
    let mut pool = Pool::new(512);
    let attached = Value::from_bytes(vec![1u8, 2, 3, 4]);
    let mut detached = Value::with_size(8);
    let request = Request::from_bytes(vec![7u8, 8, 9]);
    let mut response = Response::with_size(4);

    let status = do_work(
        &mut pool,
        0x2Au64,
        String::from("key-a"),
        &attached,
        &mut detached,
        &request,
        true,
        &mut response,
    );
    assert_eq!(status, STATUS_OK);
    assert_eq!(response.bytes(), &vec![7u8, 8, 9, 0]);
    assert_eq!(pool.available(), 512);
}

#[test]
fn dispatch_tags_detached_value_with_work_id() {
    let mut pool = Pool::new(512);
    let attached = Value::with_size(1);
    let mut detached = Value::with_size(10);
    let request = Request::from_bytes(vec![1u8]);
    let mut response = Response::with_size(1);

    let status = do_work(
        &mut pool,
        0x0102030405060708u64,
        String::from("key-b"),
        &attached,
        &mut detached,
        &request,
        false,
        &mut response,
    );
    assert_eq!(status, STATUS_OK);
    assert_eq!(detached.bytes(), &vec![8u8, 7, 6, 5, 4, 3, 2, 1, 0, 0]);
}

#[test]
fn dispatch_rejects_response_overrun() {
    let mut pool = Pool::new(512);
    let attached = Value::with_size(1);
    let mut detached = Value::with_size(8);
    let request = Request::from_bytes(vec![5u8; 10]);
    let mut response = Response::with_size(4);

    let status = do_work(
        &mut pool,
        1u64,
        String::from("key-c"),
        &attached,
        &mut detached,
        &request,
        false,
        &mut response,
    );
    assert_eq!(status, STATUS_BUFFER_TOO_SMALL);
    assert_eq!(response.bytes(), &vec![0u8; 4]);
    assert_eq!(pool.available(), 512);
}

#[test]
fn dispatch_rejects_undersized_detached_value() {
    let mut pool = Pool::new(512);
    let attached = Value::with_size(1);
    let mut detached = Value::with_size(7);
    let request = Request::from_bytes(vec![1u8]);
    let mut response = Response::with_size(4);

    let status = do_work(
        &mut pool,
        1u64,
        String::from("key-d"),
        &attached,
        &mut detached,
        &request,
        false,
        &mut response,
    );
    assert_eq!(status, STATUS_BUFFER_TOO_SMALL);
    assert_eq!(detached.bytes(), &vec![0u8; 7]);
    assert_eq!(response.bytes(), &vec![0u8; 4]);
}

#[test]
fn dispatch_surfaces_pool_exhaustion() {
    let mut pool = Pool::new(SCRATCH_BYTES - 1);
    let attached = Value::with_size(1);
    let mut detached = Value::with_size(8);
    let request = Request::from_bytes(vec![1u8]);
    let mut response = Response::with_size(4);

    let status = do_work(
        &mut pool,
        1u64,
        String::from("key-e"),
        &attached,
        &mut detached,
        &request,
        false,
        &mut response,
    );
    assert_eq!(status, STATUS_POOL_EXHAUSTED);
    assert_eq!(response.bytes(), &vec![0u8; 4]);
    assert_eq!(pool.available(), SCRATCH_BYTES - 1);
}

#[test]
fn sequential_dispatches_are_independent() {
    let mut pool = Pool::new(512);
    let attached = Value::with_size(1);

    let mut detached_a = Value::with_size(8);
    let request_a = Request::from_bytes(vec![10u8, 11]);
    let mut response_a = Response::with_size(2);
    let status_a = do_work(
        &mut pool,
        100u64,
        String::from("key-f"),
        &attached,
        &mut detached_a,
        &request_a,
        true,
        &mut response_a,
    );

    let mut detached_b = Value::with_size(8);
    let request_b = Request::from_bytes(vec![20u8, 21]);
    let mut response_b = Response::with_size(2);
    let status_b = do_work(
        &mut pool,
        200u64,
        String::from("key-g"),
        &attached,
        &mut detached_b,
        &request_b,
        false,
        &mut response_b,
    );

    assert_eq!(status_a, STATUS_OK);
    assert_eq!(status_b, STATUS_OK);
    assert_eq!(response_a.bytes(), &vec![10u8, 11]);
    assert_eq!(response_b.bytes(), &vec![20u8, 21]);
    assert_eq!(detached_a.bytes(), &vec![100u8, 0, 0, 0, 0, 0, 0, 0]);
    assert_eq!(detached_b.bytes(), &vec![200u8, 0, 0, 0, 0, 0, 0, 0]);
    assert_eq!(pool.available(), 512);

    // The same second call against a pool that served a different first
    // work id gives the same result: nothing carries over but the pool
    // state, which the first call left unchanged.
    let mut pool2 = Pool::new(512);
    let mut detached_c = Value::with_size(8);
    let mut response_c = Response::with_size(2);
    let _ = do_work(
        &mut pool2,
        999u64,
        String::from("key-f"),
        &attached,
        &mut Value::with_size(8),
        &request_a,
        true,
        &mut Response::with_size(2),
    );
    let status_c = do_work(
        &mut pool2,
        200u64,
        String::from("key-g"),
        &attached,
        &mut detached_c,
        &request_b,
        false,
        &mut response_c,
    );
    assert_eq!(status_c, status_b);
    assert_eq!(response_c.bytes(), response_b.bytes());
    assert_eq!(detached_c.bytes(), detached_b.bytes());
}

#[test]
fn remap_notice_is_acknowledged() {
    assert_eq!(register_mapped_memory(0x1000, 0x7f00_0000, 4096), STATUS_OK);
}
