use harmonicity::scheduler::{BlockScheduler, Step, MAX_BLOCK_SIZE};

#[test]
fn event_inside_buffer_splits_block() {
    // 128 samples, one event at sample 50
    let mut s = BlockScheduler::new(128);
    assert_eq!(s.step(Some(50)), Step::Render { start: 0, end: 50 });
    assert_eq!(s.step(Some(50)), Step::ApplyEvent);
    assert_eq!(s.step(None), Step::Render { start: 50, end: 50 + MAX_BLOCK_SIZE });
    assert_eq!(s.step(None), Step::Render { start: 114, end: 128 });
    assert_eq!(s.step(None), Step::Finished);
    assert_eq!(s.step(None), Step::Finished);
}

#[test]
fn plain_buffer_in_max_size_blocks() {
    let mut s = BlockScheduler::new(150);
    assert_eq!(s.step(None), Step::Render { start: 0, end: 64 });
    assert_eq!(s.step(None), Step::Render { start: 64, end: 128 });
    assert_eq!(s.step(None), Step::Render { start: 128, end: 150 });
    assert_eq!(s.step(None), Step::Finished);
}

#[test]
fn event_at_zero_applies_first() {
    let mut s = BlockScheduler::new(32);
    assert_eq!(s.step(Some(0)), Step::ApplyEvent);
    assert_eq!(s.step(Some(0)), Step::ApplyEvent);
    assert_eq!(s.step(None), Step::Render { start: 0, end: 32 });
    assert_eq!(s.step(None), Step::Finished);
}

#[test]
fn event_on_block_boundary_does_not_split() {
    let mut s = BlockScheduler::new(128);
    assert_eq!(s.step(Some(64)), Step::Render { start: 0, end: 64 });
    assert_eq!(s.step(Some(64)), Step::ApplyEvent);
    assert_eq!(s.step(None), Step::Render { start: 64, end: 128 });
}

#[test]
fn late_event_is_clamped_to_last_sample() {
    let mut s = BlockScheduler::new(10);
    assert_eq!(s.step(Some(20)), Step::Render { start: 0, end: 9 });
    assert_eq!(s.step(Some(20)), Step::ApplyEvent);
    assert_eq!(s.step(None), Step::Render { start: 9, end: 10 });
    assert_eq!(s.step(None), Step::Finished);
}

#[test]
fn empty_buffer_finishes_at_once() {
    let mut s = BlockScheduler::new(0);
    assert_eq!(s.step(Some(0)), Step::Finished);
}

#[test]
fn ordered_events_each_applied_at_their_sample() {
    let timings: Vec<u32> = vec![3, 3, 70, 100, 127];
    let mut s = BlockScheduler::new(128);
    let mut next = 0usize;
    let mut applied_at: Vec<usize> = Vec::new();
    let mut cursor = 0usize;
    loop {
        let pending = timings.get(next).copied();
        match s.step(pending) {
            Step::ApplyEvent => {
                applied_at.push(cursor);
                next += 1;
            }
            Step::Render { start, end } => {
                assert_eq!(start, cursor);
                assert!(end > start && end - start <= MAX_BLOCK_SIZE);
                cursor = end;
            }
            Step::Finished => break,
        }
    }
    assert_eq!(cursor, 128);
    assert_eq!(applied_at, vec![3, 3, 70, 100, 127]);
}
