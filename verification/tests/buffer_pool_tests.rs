use bulk_hasher::buffer_pool::ReuseBuffers;

#[test]
fn new_pool_hands_out_zeroed_buffers_of_the_configured_size() {
    let mut pool = ReuseBuffers::new(3, 8);
    for _ in 0..3 {
        let buffer = pool.get();
        assert_eq!(buffer, vec![0u8; 8]);
    }
}

#[test]
fn pool_hands_out_the_buffer_returned_last() {
    let mut pool = ReuseBuffers::new(2, 4);
    let mut first = pool.get();
    let mut second = pool.get();
    first.copy_from_slice(&[1, 1, 1, 1]);
    second.copy_from_slice(&[2, 2, 2, 2]);
    pool.put(first);
    pool.put(second);
    assert_eq!(pool.get(), vec![2u8, 2, 2, 2]);
    assert_eq!(pool.get(), vec![1u8, 1, 1, 1]);
}

#[test]
fn pool_survives_many_rounds() {
    let mut pool = ReuseBuffers::new(4, 16);
    for round in 0..100u8 {
        let mut a = pool.get();
        let b = pool.get();
        a[0] = round;
        pool.put(b);
        pool.put(a);
        let again = pool.get();
        assert_eq!(again[0], round);
        pool.put(again);
    }
    let mut seen = 0;
    for _ in 0..4 {
        let buffer = pool.get();
        assert_eq!(buffer.len(), 16);
        seen += 1;
    }
    assert_eq!(seen, 4);
}

#[test]
fn pool_of_empty_buffers() {
    let mut pool = ReuseBuffers::new(1, 0);
    let buffer = pool.get();
    assert!(buffer.is_empty());
    pool.put(buffer);
    assert!(pool.get().is_empty());
}

#[test]
fn available_counts_the_free_buffers() {
    let mut pool = ReuseBuffers::new(3, 2);
    assert_eq!(pool.available(), 3);
    let first = pool.get();
    assert_eq!(pool.available(), 2);
    let second = pool.get();
    let third = pool.get();
    assert_eq!(pool.available(), 0);
    pool.put(second);
    assert_eq!(pool.available(), 1);
    pool.put(first);
    pool.put(third);
    assert_eq!(pool.available(), 3);
    assert_eq!(ReuseBuffers::new(0, 8).available(), 0);
}
