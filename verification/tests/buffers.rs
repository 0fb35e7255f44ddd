use lingo_morph::buf::RingBuf;

#[test]
fn ringbuf_keeps_everything_below_capacity() {
    let mut buf: RingBuf<u32> = RingBuf::new(3);
    assert_eq!(buf.len(), 0);
    assert_eq!(buf.push(1), None);
    assert_eq!(buf.push(2), None);
    assert_eq!(buf.len(), 2);
    assert_eq!(buf.get(0), Some(&1));
    assert_eq!(buf.get(1), Some(&2));
    assert_eq!(buf.get(2), None);
}

#[test]
fn ringbuf_evicts_oldest_past_capacity() {
    // Pushing capacity + k items retains exactly the last capacity pushed
    // items, in insertion order.
    let mut buf: RingBuf<u32> = RingBuf::new(4);
    let mut evicted = Vec::new();
    for i in 0..10u32 {
        if let Some(old) = buf.push(i) {
            evicted.push(old);
        }
    }
    assert_eq!(buf.len(), 4);
    assert_eq!(buf.get(0), Some(&6));
    assert_eq!(buf.get(1), Some(&7));
    assert_eq!(buf.get(2), Some(&8));
    assert_eq!(buf.get(3), Some(&9));
    assert_eq!(evicted, vec![0, 1, 2, 3, 4, 5]);
}

#[test]
fn ringbuf_get_mut_updates_in_place() {
    let mut buf: RingBuf<u32> = RingBuf::new(2);
    buf.push(10);
    buf.push(20);
    *buf.get_mut(1) = 25;
    assert_eq!(buf.get(0), Some(&10));
    assert_eq!(buf.get(1), Some(&25));
}

#[test]
fn ringbuf_with_zero_capacity_retains_nothing() {
    let mut buf: RingBuf<u32> = RingBuf::new(0);
    assert_eq!(buf.push(7), Some(7));
    assert_eq!(buf.len(), 0);
    assert_eq!(buf.get(0), None);
}
