use sequencer::fifoqueue::FifoQueue;
use sequencer::midimessage::MidiMessage;

fn message(n: u8) -> MidiMessage {
    MidiMessage { first: 0x90, second: n, third: 127 }
}

#[test]
fn new_queue_is_empty() {
    let mut queue: FifoQueue<u32> = FifoQueue::new(4);
    assert_eq!(queue.nb_elements, 4);
    assert_eq!(queue.queue_size, 5);
    assert_eq!(queue.write_index, 0);
    assert_eq!(queue.read_index, 0);
    assert_eq!(queue.fifo_queue_elements, vec![None; 5]);
    assert_eq!(queue.read(), None);
}

#[test]
fn reads_come_in_write_order() {
    let mut queue: FifoQueue<u32> = FifoQueue::new(8);
    for m in [11u32, 22, 33, 44, 55] {
        assert!(queue.write(m));
    }
    for m in [11u32, 22, 33, 44, 55] {
        assert_eq!(queue.read(), Some(&m));
    }
    assert_eq!(queue.read(), None);
}

#[test]
fn ring_overflow() {
    let mut queue: FifoQueue<MidiMessage> = FifoQueue::new(64);
    for n in 0..64u8 {
        assert!(queue.write(message(n)), "write {} must succeed", n);
    }
    assert!(!queue.write(message(64)));
    for n in 0..64u8 {
        assert_eq!(queue.read(), Some(&message(n)));
    }
    assert_eq!(queue.read(), None);
}

#[test]
fn full_exactly_when_n_items_wait() {
    let n = 3usize;
    let mut queue: FifoQueue<u8> = FifoQueue::new(n);
    // Move the indices around the ring so that the write index wraps.
    for round in 0..10u8 {
        let waiting = (queue.write_index + queue.queue_size - queue.read_index) % queue.queue_size;
        assert_eq!(waiting, 0);
        for k in 0..n {
            let before = (queue.write_index + queue.queue_size - queue.read_index)
                % queue.queue_size;
            assert_eq!(before, k);
            assert!(queue.write(round));
        }
        let full = (queue.write_index + queue.queue_size - queue.read_index) % queue.queue_size;
        assert_eq!(full, n);
        assert!(!queue.write(99));
        assert_eq!(queue.read(), Some(&round));
        assert!(queue.write(round));
        assert!(!queue.write(99));
        for _ in 0..n {
            assert_eq!(queue.read(), Some(&round));
        }
        assert_eq!(queue.read(), None);
    }
}

#[test]
fn failed_write_changes_nothing() {
    let mut queue: FifoQueue<u8> = FifoQueue::new(1);
    assert!(queue.write(7));
    let (w, r) = (queue.write_index, queue.read_index);
    assert!(!queue.write(8));
    assert_eq!((queue.write_index, queue.read_index), (w, r));
    assert_eq!(queue.read(), Some(&7));
}

#[test]
fn queue_of_no_capacity_takes_nothing() {
    let mut queue: FifoQueue<u8> = FifoQueue::new(0);
    assert!(!queue.write(1));
    assert_eq!(queue.read(), None);
}

#[test]
fn interleaved_writes_and_reads_keep_order() {
    let mut queue: FifoQueue<u32> = FifoQueue::new(2);
    let mut next_in = 0u32;
    let mut next_out = 0u32;
    for step in 0..50 {
        if step % 3 != 2 {
            if queue.write(next_in) {
                next_in += 1;
            }
        } else {
            while let Some(&x) = queue.read() {
                assert_eq!(x, next_out);
                next_out += 1;
            }
        }
    }
    assert!(next_out > 10);
}
