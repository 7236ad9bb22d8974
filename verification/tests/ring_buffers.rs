use datagraph::dsp::ring_buffer::RingBuffer;
use datagraph::ring_buffer::RingBuffer as FixedRingBuffer;

#[test]
fn push_then_pop_is_first_in_first_out() {
    let mut rb: RingBuffer<u32> = RingBuffer::new(4);
    assert_eq!(rb.capacity(), 4);
    assert_eq!(rb.push(1), Ok(()));
    assert_eq!(rb.push(2), Ok(()));
    assert_eq!(rb.pop(), Some(1));
    assert_eq!(rb.push(3), Ok(()));
    assert_eq!(rb.pop(), Some(2));
    assert_eq!(rb.pop(), Some(3));
    assert_eq!(rb.pop(), None);
}

#[test]
fn full_buffer_refuses_a_push() {
    let mut rb: RingBuffer<u32> = RingBuffer::new(3);
    assert_eq!(rb.push(1), Ok(()));
    assert_eq!(rb.push(2), Ok(()));
    assert_eq!(rb.push(3), Err(()));
    assert_eq!(rb.drain(), vec![1, 2]);
}

#[test]
fn flooded_fills_all_but_one_slot() {
    let mut rb: RingBuffer<u8> = RingBuffer::new(5).flooded(9);
    assert_eq!(rb.push(1), Err(()));
    assert_eq!(rb.drain(), vec![9, 9, 9, 9]);
    assert_eq!(rb.pop(), None);
}

#[test]
fn flooded_keeps_what_was_there() {
    let mut rb: RingBuffer<u8> = RingBuffer::new(4);
    assert_eq!(rb.push(1), Ok(()));
    let mut rb = rb.flooded(0);
    assert_eq!(rb.drain(), vec![1, 0, 0]);
}

#[test]
fn moving_the_read_index_back_rereads_old_values() {
    let mut rb: RingBuffer<u8> = RingBuffer::new(4);
    assert_eq!(rb.push(1), Ok(()));
    assert_eq!(rb.push(2), Ok(()));
    assert_eq!(rb.drain(), vec![1, 2]);
    rb.move_read_index(-2);
    assert_eq!(rb.drain(), vec![1, 2]);
    rb.move_read_index(-6);
    assert_eq!(rb.drain(), vec![1, 2]);
    rb.move_read_index(5);
    assert_eq!(rb.pop(), None);
}

#[test]
fn moving_onto_unwritten_slots_reads_nothing() {
    let mut rb: RingBuffer<u8> = RingBuffer::new(4);
    assert_eq!(rb.push(1), Ok(()));
    rb.move_read_index(-1);
    // The slot before the first one was never written.
    assert_eq!(rb.pop(), None);
    assert!(rb.drain().is_empty());
}

#[test]
fn fixed_queue_holds_one_less_than_its_capacity() {
    let mut q: FixedRingBuffer<u16, 3> = FixedRingBuffer::new();
    assert!(q.push(5));
    assert!(q.push(6));
    assert!(!q.push(7));
    assert_eq!(q.pop(), Some(5));
    assert!(q.push(7));
    assert_eq!(q.pop(), Some(6));
    assert_eq!(q.pop(), Some(7));
    assert_eq!(q.pop(), None);
}

#[test]
fn drain_after_pushes_gives_back_everything() {
    let mut rb: RingBuffer<u16> = RingBuffer::new(6);
    let xs = [4u16, 8, 15, 16, 23];
    for &x in &xs {
        assert_eq!(rb.push(x), Ok(()));
    }
    assert_eq!(rb.drain(), xs.to_vec());
    assert_eq!(rb.pop(), None);
    assert!(rb.drain().is_empty());
    for &x in &xs {
        assert_eq!(rb.push(x), Ok(()));
    }
}
