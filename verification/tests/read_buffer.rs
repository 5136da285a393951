use ragfs_cache_memstore::read_buffer::ReadBufferPool;

#[test]
fn oversized_buffers_are_not_retained() {
    let mut pool = ReadBufferPool::new(2, 1_024, 64);

    let lease = pool.take(128);
    pool.recycle(lease.into_buffer());

    assert_eq!(pool.cached_buffer_count(), 0);
}

#[test]
fn reused_buffers_keep_initialized_bytes_without_rezeroing() {
    let mut pool = ReadBufferPool::new(1, 1_024, 1_024);
    let mut lease = pool.take(128);
    lease.as_mut_slice().fill(0x5a);
    pool.recycle(lease.into_buffer());

    let reused = pool.take(64);

    assert!(reused.as_slice().iter().all(|byte| *byte == 0x5a));
}

#[test]
fn a_recycled_allocation_is_handed_out_again() {
    let mut pool = ReadBufferPool::new(2, 1_024, 1_024);
    let lease = pool.take(128);
    let allocation = lease.as_slice().as_ptr() as usize;
    assert_eq!(pool.cached_buffer_count(), 0);

    pool.recycle(lease.into_buffer());
    assert_eq!(pool.cached_buffer_count(), 1);

    let reused = pool.take(128);
    assert_eq!(reused.as_slice().as_ptr() as usize, allocation);
    assert_eq!(pool.cached_buffer_count(), 0);
}

#[test]
fn new_buffers_are_zero_and_have_the_wanted_length() {
    let mut pool = ReadBufferPool::new(1, 1_024, 1_024);
    let lease = pool.take(17);
    assert_eq!(lease.as_slice(), [0u8; 17].as_slice());
    assert_eq!(pool.take(0).as_slice().len(), 0);
}

#[test]
fn the_smallest_buffer_that_is_large_enough_is_handed_out() {
    let mut pool = ReadBufferPool::new(4, 10_000, 10_000);
    pool.recycle_measured(vec![1; 300], 300);
    pool.recycle_measured(vec![2; 100], 100);
    pool.recycle_measured(vec![3; 200], 200);

    let lease = pool.take(150);
    assert_eq!(lease.as_slice(), [3u8; 150].as_slice());
    let lease = pool.take(150);
    assert_eq!(lease.as_slice(), [1u8; 150].as_slice());
    let lease = pool.take(150);
    assert_eq!(lease.as_slice(), [0u8; 150].as_slice());
    assert_eq!(pool.cached_buffer_count(), 1);
}

#[test]
fn a_shorter_buffer_is_filled_up_with_zeros() {
    let mut pool = ReadBufferPool::new(1, 1_000, 1_000);
    pool.recycle_measured(vec![7; 2], 10);
    let lease = pool.take(4);
    assert_eq!(lease.as_slice(), [7u8, 7, 0, 0].as_slice());
}

#[test]
fn limits_on_number_and_total_are_kept() {
    let mut pool = ReadBufferPool::new(2, 250, 200);
    pool.recycle_measured(vec![0; 100], 100);
    pool.recycle_measured(vec![0; 100], 100);
    pool.recycle_measured(vec![0; 10], 10);
    assert_eq!(pool.cached_buffer_count(), 2);

    let mut pool = ReadBufferPool::new(5, 250, 200);
    pool.recycle_measured(vec![0; 150], 150);
    pool.recycle_measured(vec![0; 150], 150);
    pool.recycle_measured(vec![0; 100], 100);
    assert_eq!(pool.cached_buffer_count(), 2);

    let mut pool = ReadBufferPool::new(0, 250, 200);
    pool.recycle_measured(vec![0; 1], 1);
    assert_eq!(pool.cached_buffer_count(), 0);
}

#[test]
fn recycling_measures_the_allocation() {
    let mut pool = ReadBufferPool::new(1, 10_000, 100);
    pool.recycle(Vec::with_capacity(5_000));
    assert_eq!(pool.cached_buffer_count(), 0);
    pool.recycle(Vec::with_capacity(50));
    assert_eq!(pool.cached_buffer_count(), 1);
}

#[test]
fn a_store_pool_keeps_two_buffers_for_each_call() {
    let mut pool = ReadBufferPool::for_concurrency(2);
    for _ in 0..6 {
        pool.recycle_measured(vec![0; 8], 8);
    }
    assert_eq!(pool.cached_buffer_count(), 4);
    pool.recycle_measured(vec![0; 8], 8_388_609);
    let mut pool = ReadBufferPool::for_concurrency(0);
    pool.recycle_measured(vec![0; 8], 8_388_609);
    assert_eq!(pool.cached_buffer_count(), 0);
    pool.recycle_measured(vec![0; 8], 8_388_608);
    pool.recycle_measured(vec![0; 8], 8);
    assert_eq!(pool.cached_buffer_count(), 1);
}
