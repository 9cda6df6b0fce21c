use savi::playback::{next_playback_item, pop_for_playback, render_frame, scale_sample, split_volume};

#[test]
fn scale_sample_is_volume_over_one_hundred() {
    assert_eq!(scale_sample(1000, 50), 500);
    assert_eq!(scale_sample(-1000, 50), -500);
    assert_eq!(scale_sample(1234, 100), 1234);
    assert_eq!(scale_sample(-1234, 100), -1234);
    assert_eq!(scale_sample(12345, 0), 0);
}

#[test]
fn scale_sample_truncates_toward_zero() {
    assert_eq!(scale_sample(999, 10), 99);
    assert_eq!(scale_sample(-999, 10), -99);
    assert_eq!(scale_sample(1, 99), 0);
    assert_eq!(scale_sample(-1, 99), 0);
}

#[test]
fn scale_sample_saturates_when_amplifying() {
    assert_eq!(scale_sample(32767, 255), 32767);
    assert_eq!(scale_sample(-32768, 255), -32768);
    assert_eq!(scale_sample(20000, 200), 32767);
    assert_eq!(scale_sample(-20000, 200), -32768);
}

#[test]
fn render_frame_scales_a_prefix() {
    let decoded = vec![100i16, -200, 300, 400];
    let out = render_frame(&decoded, 50, 3);
    assert_eq!(out, vec![50, -100, 150]);
}

#[test]
fn queue_keeps_one_item_of_lookahead() {
    let mut queue: Vec<Vec<u8>> = vec![vec![1, 2, 90]];
    assert!(pop_for_playback(&mut queue).is_none());
    assert_eq!(queue.len(), 1);
    queue.push(vec![3, 4, 80]);
    assert_eq!(pop_for_playback(&mut queue), Some(vec![1, 2, 90]));
    assert_eq!(queue, vec![vec![3, 4, 80]]);
}

#[test]
fn empty_queue_plays_nothing() {
    let mut queue: Vec<Vec<u8>> = Vec::new();
    assert!(next_playback_item(&mut queue).is_none());
    assert!(queue.is_empty());
}

#[test]
fn split_volume_takes_trailing_byte() {
    assert_eq!(split_volume(vec![10, 20, 30, 75]), Some((vec![10, 20, 30], 75)));
    assert_eq!(split_volume(vec![42]), Some((vec![], 42)));
    assert_eq!(split_volume(vec![]), None);
}

#[test]
fn next_playback_item_pops_and_splits() {
    let mut queue: Vec<Vec<u8>> = vec![vec![7, 8, 60], vec![9, 50]];
    let (payload, vol) = next_playback_item(&mut queue).unwrap();
    assert_eq!(payload, vec![7, 8]);
    assert_eq!(vol, 60);
    assert_eq!(queue, vec![vec![9, 50]]);
}

#[test]
fn malformed_empty_item_is_skipped_not_fatal() {
    let mut queue: Vec<Vec<u8>> = vec![vec![], vec![9, 50]];
    assert!(next_playback_item(&mut queue).is_none());
    // the malformed item was consumed; playback goes on
    assert_eq!(queue, vec![vec![9, 50]]);
}
