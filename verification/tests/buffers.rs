use autosample::ringbuf::{CaptureBuffer, RingBuffer};

#[test]
fn ring_keeps_the_most_recent_samples() {
    let mut ring: RingBuffer<f32> = RingBuffer::new(4);
    ring.push_samples(&[1.0, 2.0, 3.0]);
    assert_eq!(ring.len(), 3);
    ring.push_samples(&[4.0, 5.0, 6.0]);
    assert_eq!(ring.len(), 4);
    assert_eq!(ring.get_last_samples(4), vec![3.0, 4.0, 5.0, 6.0]);
    assert_eq!(ring.get_last_samples(2), vec![5.0, 6.0]);
    assert_eq!(ring.get_last_samples(10), vec![3.0, 4.0, 5.0, 6.0]);
}

#[test]
fn ring_clear_empties_it() {
    let mut ring: RingBuffer<i32> = RingBuffer::new(8);
    ring.push_samples(&[1, 2, 3]);
    ring.clear();
    assert_eq!(ring.len(), 0);
    assert!(ring.get_last_samples(3).is_empty());
    ring.push_samples(&[9]);
    assert_eq!(ring.get_last_samples(3), vec![9]);
}

#[test]
fn a_zero_limit_ring_holds_the_last_sample() {
    let mut ring: RingBuffer<u8> = RingBuffer::new(0);
    ring.push_samples(&[1, 2, 3]);
    assert_eq!(ring.len(), 1);
    assert_eq!(ring.get_last_samples(5), vec![3]);
}

#[test]
fn capture_buffer_gathers_in_order() {
    let mut buf: CaptureBuffer<f32> = CaptureBuffer::new(2, 48000, 100);
    assert_eq!(buf.channels(), 2);
    assert_eq!(buf.sample_rate(), 48000);
    buf.append(&[0.1, 0.2]);
    buf.append(&[0.3, 0.4, 0.5]);
    assert_eq!(buf.data(), &[0.1, 0.2, 0.3, 0.4, 0.5][..]);
    assert_eq!(buf.frame_count(), 2);
    assert_eq!(buf.into_data(), vec![0.1, 0.2, 0.3, 0.4, 0.5]);
}
