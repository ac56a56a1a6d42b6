use reconstructor::buffer::Ringbuffer;
use reconstructor::fixed::SCALE;

#[test]
fn test_ringbuffer() {
    let mut buffer = Ringbuffer::new(4);
    buffer.write(SCALE);
    buffer.write(2 * SCALE);
    let mut reader = buffer.get_reader();
    assert_eq!(reader.next().unwrap(), 0);
    assert_eq!(reader.next().unwrap(), 0);
    assert_eq!(reader.next().unwrap(), SCALE);
    assert_eq!(reader.next().unwrap(), 2 * SCALE);
    assert!(reader.next().is_none());
}

#[test]
fn test_ringbuffer_wraparound() {
    // Writing more samples than the capacity: the reader yields the
    // last four, oldest to newest.
    let mut buffer = Ringbuffer::new(4);
    for k in 1..=7i64 {
        buffer.write(k * SCALE);
    }
    let mut reader = buffer.get_reader();
    assert_eq!(reader.next().unwrap(), 4 * SCALE);
    assert_eq!(reader.next().unwrap(), 5 * SCALE);
    assert_eq!(reader.next().unwrap(), 6 * SCALE);
    assert_eq!(reader.next().unwrap(), 7 * SCALE);
    assert!(reader.next().is_none());
}
