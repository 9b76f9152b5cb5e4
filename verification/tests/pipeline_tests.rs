use diminuendo::pipeline::{CaptureLog, process_frame};

#[test]
fn frames_persisted_fifo_with_timestamps() {
    let mut log = CaptureLog::new(1_000);
    log.enqueue(vec![0x10]);
    log.enqueue(vec![0x20, 0x21]);
    log.enqueue(vec![0x30]);
    log.persist_next(1_000);
    log.persist_next(1_005);
    log.persist_next(1_005);
    assert!(log.queue.is_empty());
    let payloads: Vec<Vec<u8>> = log.rows.iter().map(|e| e.payload.clone()).collect();
    assert_eq!(payloads, vec![vec![0x10], vec![0x20, 0x21], vec![0x30]]);
    assert_eq!(log.rows[0].timestamp_ms, 1_000);
    assert_eq!(log.rows[1].timestamp_ms, 1_005);
    for e in &log.rows {
        assert!(e.timestamp_ms >= 1_000);
    }
}

#[test]
fn storage_never_sees_noise() {
    let mut log = CaptureLog::new(0);
    let frames = vec![
        vec![0x0F, 0xF8, 0x3C],
        vec![0x00, 0x00, 0x00],
        vec![0x0F, 0xFE, 0x0F, 0xFE, 0x11],
    ];
    for f in &frames {
        let _ = process_frame(&mut log, f);
    }
    while !log.queue.is_empty() {
        assert!(log.persist_with_clock());
    }
    assert_eq!(log.rows.len(), 2);
    for e in &log.rows {
        assert!(!e.payload.is_empty());
        assert!(e.payload.iter().any(|b| *b != 0));
    }
    assert_eq!(log.rows[0].payload, vec![0x3C]);
    assert_eq!(log.rows[1].payload, vec![0x11]);
}

#[test]
fn process_frame_reports_hex_for_forwarded_frames() {
    let mut log = CaptureLog::new(0);
    let shown = process_frame(&mut log, &vec![0x0F, 0xF8, 0x3C, 0x11]);
    assert_eq!(shown.as_deref(), Some("0x3C, 0x11"));
    assert_eq!(process_frame(&mut log, &vec![0x00]), None);
    assert_eq!(log.queue.len(), 1);
    assert_eq!(log.queue[0], vec![0x3C, 0x11]);
}

#[test]
fn wall_clock_stamp_is_at_or_after_session_start() {
    let mut log = CaptureLog::new(0);
    log.enqueue(vec![0x42]);
    assert!(log.persist_with_clock());
    assert_eq!(log.rows.len(), 1);
    assert!(log.rows[0].timestamp_ms >= 0);
    assert_eq!(log.rows[0].payload, vec![0x42]);
}
