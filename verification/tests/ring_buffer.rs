use smart_speaker::ring_buffer::{AudioCaptureInner, RING_BUFFER_CAPACITY};

#[test]
fn latest_samples_after_writes() {
    let mut buf: AudioCaptureInner<f32> = AudioCaptureInner::new();
    assert!(buf.read_latest(10).is_empty());
    buf.write_samples(&[1.0, 2.0, 3.0]);
    assert_eq!(buf.read_latest(2), vec![2.0, 3.0]);
    assert_eq!(buf.read_latest(10), vec![1.0, 2.0, 3.0]);
    buf.write_samples(&[4.0]);
    assert_eq!(buf.read_latest(4), vec![1.0, 2.0, 3.0, 4.0]);
}

#[test]
fn latest_samples_wrap_around() {
    let mut buf: AudioCaptureInner<f32> = AudioCaptureInner::new();
    let first: Vec<f32> = (0..RING_BUFFER_CAPACITY).map(|i| i as f32).collect();
    buf.write_samples(&first);
    buf.write_samples(&[-1.0, -2.0]);
    let latest = buf.read_latest(RING_BUFFER_CAPACITY + 5);
    assert_eq!(latest.len(), RING_BUFFER_CAPACITY);
    assert_eq!(latest[0], 2.0);
    assert_eq!(latest[RING_BUFFER_CAPACITY - 2], -1.0);
    assert_eq!(latest[RING_BUFFER_CAPACITY - 1], -2.0);
    assert_eq!(buf.read_latest(3), vec![(RING_BUFFER_CAPACITY - 1) as f32, -1.0, -2.0]);
}

#[test]
fn stream_reads_are_contiguous() {
    let mut buf: AudioCaptureInner<i16> = AudioCaptureInner::new();
    buf.write_samples(&[1, 2, 3, 4, 5]);
    assert_eq!(buf.unread_samples(), 5);
    assert_eq!(buf.read_stream(2), vec![1, 2]);
    assert_eq!(buf.read_stream(2), vec![3, 4]);
    assert_eq!(buf.unread_samples(), 1);
    assert_eq!(buf.read_stream(10), vec![5]);
    assert!(buf.read_stream(10).is_empty());
    buf.write_samples(&[6, 7]);
    assert_eq!(buf.read_stream(10), vec![6, 7]);
}

#[test]
fn stream_jumps_past_overwritten_samples() {
    let mut buf: AudioCaptureInner<u32> = AudioCaptureInner::new();
    let all: Vec<u32> = (0..(RING_BUFFER_CAPACITY as u32 + 10)).collect();
    buf.write_samples(&all);
    assert_eq!(buf.unread_samples(), RING_BUFFER_CAPACITY);
    let got = buf.read_stream(3);
    assert_eq!(got, vec![10, 11, 12]);
    assert_eq!(buf.unread_samples(), RING_BUFFER_CAPACITY - 3);
}

#[test]
fn reset_and_clear() {
    let mut buf: AudioCaptureInner<f32> = AudioCaptureInner::new();
    buf.write_samples(&[0.5, 0.25]);
    buf.reset_stream_position();
    assert_eq!(buf.unread_samples(), 0);
    assert!(buf.read_stream(4).is_empty());
    buf.write_samples(&[0.125]);
    assert_eq!(buf.read_stream(4), vec![0.125]);
    buf.clear();
    assert!(buf.read_latest(4).is_empty());
    assert_eq!(buf.unread_samples(), 0);
}
