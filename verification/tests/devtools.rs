use appscale_core::devtools::{recent_start, BatchRecorder, FrameWindow};

#[test]
fn test_profiler_rolling_window() {
    let mut window: FrameWindow<u64> = FrameWindow::new(3);
    for i in 1..=5 {
        window.push(i);
    }
    assert_eq!(window.frames().len(), 3);
    assert_eq!(window.total_frames(), 5);
    assert_eq!(window.frames()[0], 3);
    assert_eq!(window.frames(), &[3, 4, 5]);
}

#[test]
fn recent_frames_start() {
    assert_eq!(recent_start(10, Some(3)), 7);
    assert_eq!(recent_start(2, Some(5)), 0);
    assert_eq!(recent_start(4, None), 0);
    assert_eq!(recent_start(0, Some(0)), 0);
}

#[test]
fn test_ir_recorder() {
    let mut recorder: BatchRecorder<u64> = BatchRecorder::new();
    assert!(!recorder.is_recording());
    recorder.record(1);
    assert!(recorder.is_empty());

    recorder.start_recording();
    assert!(recorder.is_recording());
    recorder.record(1);
    recorder.record(2);
    assert_eq!(recorder.len(), 2);

    recorder.stop_recording();
    recorder.record(3);
    assert_eq!(recorder.batches(), &[1, 2]);

    recorder.start_recording();
    assert!(recorder.is_empty());
}

#[test]
fn window_of_capacity_zero_counts_but_keeps_nothing() {
    let mut window: FrameWindow<u64> = FrameWindow::new(0);
    window.push(7);
    window.push(8);
    assert!(window.frames().is_empty());
    assert_eq!(window.total_frames(), 2);
}
