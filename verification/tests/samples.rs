use rustamp::audio::{SampleWindow, BUFFER_CAPACITY};

#[test]
fn buffer_caps_at_capacity() {
    let mut buf = SampleWindow::new();
    buf.push_many(&vec![1.0f32; BUFFER_CAPACITY * 2]);
    assert_eq!(buf.latest(usize::MAX).len(), BUFFER_CAPACITY);
}

#[test]
fn buffer_latest_returns_newest() {
    let mut buf = SampleWindow::new();
    buf.push_many(&[1.0f32, 2.0, 3.0, 4.0]);
    assert_eq!(buf.latest(2), vec![3.0, 4.0]);
    buf.clear();
    assert!(buf.latest(2).is_empty());
}

#[test]
fn buffer_drops_oldest_first() {
    let mut buf = SampleWindow::new();
    let first: Vec<u32> = (0..BUFFER_CAPACITY as u32).collect();
    buf.push_many(&first);
    buf.push_many(&[100_000, 100_001]);
    let all = buf.latest(usize::MAX);
    assert_eq!(all.len(), BUFFER_CAPACITY);
    assert_eq!(all[0], 2);
    assert_eq!(all[BUFFER_CAPACITY - 1], 100_001);
    assert_eq!(buf.latest(3), vec![(BUFFER_CAPACITY - 1) as u32, 100_000, 100_001]);
}
