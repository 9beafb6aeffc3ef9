use yutani::ring_buffer::RingBuffer;

fn items(buffer: &RingBuffer<u8>) -> Vec<u8> {
    let mut out = Vec::new();
    let mut iter = buffer.iter();
    while let Some(i) = iter.next() {
        out.push(*i);
    }
    out
}

#[test]
fn test_empty() {
    let buffer: RingBuffer<u8> = RingBuffer::new(5);
    assert_eq!(buffer.len(), 0);
}

#[test]
fn test_push1() {
    let mut buffer: RingBuffer<u8> = RingBuffer::new(5);
    buffer.push_back(99);
    assert_eq!(buffer.buffer, [99]);
}

#[test]
fn test_overflow() {
    let mut buffer: RingBuffer<u8> = RingBuffer::new(3);
    buffer.push_back(1);
    buffer.push_back(2);
    buffer.push_back(3);
    buffer.push_back(4);
    assert_eq!(buffer.buffer, [4, 2, 3]);
}

#[test]
fn test_iter() {
    let mut buffer: RingBuffer<u8> = RingBuffer::new(3);
    buffer.push_back(1);
    buffer.push_back(2);
    buffer.push_back(3);
    assert_eq!(items(&buffer), vec![1, 2, 3]);
}

#[test]
fn test_iter_underflow() {
    let mut buffer: RingBuffer<u8> = RingBuffer::new(10);
    buffer.push_back(1);
    buffer.push_back(2);
    buffer.push_back(3);
    assert_eq!(items(&buffer), vec![1, 2, 3]);
}

#[test]
fn test_iter_overflow() {
    let mut buffer: RingBuffer<u8> = RingBuffer::new(3);
    buffer.push_back(1);
    buffer.push_back(2);
    buffer.push_back(3);
    buffer.push_back(4);
    buffer.push_back(5);
    assert_eq!(items(&buffer), vec![3, 4, 5]);
}

#[test]
fn test_index() {
    let mut buffer: RingBuffer<u8> = RingBuffer::new(3);
    buffer.push_back(1);
    buffer.push_back(2);
    buffer.push_back(3);
    assert_eq!(*buffer.index(0), 1);
    assert_eq!(*buffer.index(1), 2);
    assert_eq!(*buffer.index(2), 3);
}

#[test]
fn index_counts_from_the_oldest_item() {
    let mut buffer: RingBuffer<u8> = RingBuffer::new(3);
    for i in 1..=7u8 {
        buffer.push_back(i);
    }
    assert_eq!(*buffer.index(0), 5);
    assert_eq!(*buffer.index(1), 6);
    assert_eq!(*buffer.index(2), 7);
    assert_eq!(items(&buffer), vec![5, 6, 7]);
    assert_eq!(buffer.len(), 3);
}

#[test]
fn wrapping_exactly_once_starts_over() {
    let mut buffer: RingBuffer<u8> = RingBuffer::new(2);
    for i in 1..=4u8 {
        buffer.push_back(i);
    }
    assert_eq!(buffer.buffer, [3, 4]);
    assert_eq!(items(&buffer), vec![3, 4]);
}
