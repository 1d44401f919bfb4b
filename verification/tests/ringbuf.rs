use bellow::ringbuf::RingBuf;

#[test]
fn basic_push_pop() {
    let mut rb = RingBuf::<u32>::new(8);
    assert!(rb.push(42));
    assert_eq!(rb.pop(), Some(42));
    assert_eq!(rb.pop(), None);
}

#[test]
fn fill_and_drain() {
    let mut rb = RingBuf::<u32>::new(4);
    assert!(rb.push(1));
    assert!(rb.push(2));
    assert!(rb.push(3));
    assert!(!rb.push(4)); // full (capacity 4, one slot wasted)
    assert_eq!(rb.pop(), Some(1));
    assert_eq!(rb.pop(), Some(2));
    assert_eq!(rb.pop(), Some(3));
    assert_eq!(rb.pop(), None);
}

#[test]
fn new_ring_is_empty_with_its_capacity() {
    let rb = RingBuf::<u8>::new(5);
    assert_eq!(rb.capacity(), 5);
    assert_eq!(rb.len(), 0);
    assert!(rb.is_empty());
}

#[test]
fn capacity_one_refuses_every_push() {
    let mut rb = RingBuf::<u32>::new(1);
    assert!(!rb.push(7));
    assert!(rb.is_empty());
    assert_eq!(rb.pop(), None);
}

#[test]
fn zero_capacity_pop_is_none() {
    let mut rb = RingBuf::<u32>::new(0);
    assert_eq!(rb.capacity(), 0);
    assert_eq!(rb.len(), 0);
    assert_eq!(rb.pop(), None);
}

#[test]
fn fifo_across_wraparound() {
    let mut rb = RingBuf::<u32>::new(3);
    let mut out = Vec::new();
    for round in 0..10u32 {
        assert!(rb.push(round * 2));
        assert!(rb.push(round * 2 + 1));
        assert!(!rb.push(999));
        assert_eq!(rb.len(), 2);
        out.push(rb.pop().unwrap());
        out.push(rb.pop().unwrap());
        assert!(rb.is_empty());
    }
    let expected: Vec<u32> = (0..20).collect();
    assert_eq!(out, expected);
}

#[test]
fn len_counts_across_wrap() {
    let mut rb = RingBuf::<u32>::new(4);
    for i in 0..3 {
        assert!(rb.push(i));
    }
    assert_eq!(rb.pop(), Some(0));
    assert_eq!(rb.pop(), Some(1));
    assert!(rb.push(10));
    assert!(rb.push(11));
    // write index has wrapped below the read index
    assert_eq!(rb.len(), 3);
    assert!(!rb.is_empty());
    assert_eq!(rb.pop(), Some(2));
    assert_eq!(rb.pop(), Some(10));
    assert_eq!(rb.pop(), Some(11));
    assert_eq!(rb.len(), 0);
}
