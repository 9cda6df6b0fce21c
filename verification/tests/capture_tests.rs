use savi::capture::{intensity_of, isqrt, AudioCapture, ConfigError};

#[test]
fn construction_rejects_unsupported_channel_counts() {
    assert!(AudioCapture::new(1, 48000, 96000, 0).is_ok());
    assert!(AudioCapture::new(2, 48000, 96000, 0).is_ok());
    assert_eq!(AudioCapture::new(0, 48000, 96000, 0).err(), Some(ConfigError));
    assert_eq!(AudioCapture::new(3, 48000, 96000, 0).err(), Some(ConfigError));
}

#[test]
fn intensity_of_silence_is_zero() {
    assert_eq!(intensity_of(&vec![0i16; 480]), 0);
    assert_eq!(intensity_of(&Vec::new()), 0);
}

#[test]
fn intensity_of_full_scale_is_one_hundred() {
    assert_eq!(intensity_of(&vec![32767i16; 480]), 100);
    assert_eq!(intensity_of(&vec![-32767i16; 480]), 100);
}

#[test]
fn intensity_of_half_scale_is_fifty() {
    // 4 samples at 16384: RMS is half of full scale
    assert_eq!(intensity_of(&vec![16384i16; 4]), 50);
}

#[test]
fn quiet_frame_updates_intensity_but_emits_nothing() {
    let mut capture = AudioCapture::new(1, 48000, 96000, 60).unwrap();
    let loud = vec![32767i16; 96];
    assert!(capture.process_frame(&loud));
    assert_eq!(capture.get_intensity(), 100);
    let quiet = vec![100i16; 96];
    let emitted = capture.process_frame(&quiet);
    assert!(!emitted);
    // the level meter still moved
    assert!(capture.get_intensity() < 100);
}

#[test]
fn gate_is_strictly_greater_than_threshold() {
    let frame = vec![16384i16; 4];
    let mut at_threshold = AudioCapture::new(1, 48000, 96000, 50).unwrap();
    assert!(!at_threshold.process_frame(&frame));
    let mut below_threshold = AudioCapture::new(1, 48000, 96000, 49).unwrap();
    assert!(below_threshold.process_frame(&frame));
}

#[test]
fn threshold_is_adjustable_at_runtime() {
    let mut capture = AudioCapture::new(1, 48000, 96000, 100).unwrap();
    let frame = vec![16384i16; 4];
    assert!(!capture.process_frame(&frame));
    capture.set_threshold(10);
    assert!(capture.process_frame(&frame));
    assert_eq!(capture.get_intensity(), 50);
}

#[test]
fn bitrate_is_adjustable_at_runtime() {
    let mut capture = AudioCapture::new(2, 48000, 96000, 0).unwrap();
    assert_eq!(capture.bitrate(), 96000);
    capture.set_encoder_bitrate(128000);
    assert_eq!(capture.bitrate(), 128000);
    assert_eq!(capture.channels(), 2);
    assert_eq!(capture.sample_rate(), 48000);
}

#[test]
fn single_extreme_sample_intensity() {
    // one sample at i16::MIN: RMS slightly above full scale, still capped by the metric
    assert_eq!(intensity_of(&vec![i16::MIN]), 100);
}

#[test]
fn integer_square_root_is_exact() {
    assert_eq!(isqrt(0), 0);
    assert_eq!(isqrt(1), 1);
    assert_eq!(isqrt(15), 3);
    assert_eq!(isqrt(16), 4);
    assert_eq!(isqrt(10_000_000_000_000_000_000_000), 100_000_000_000);
    assert_eq!(isqrt(9_999_999_999_999_999_999_999), 99_999_999_999);
    assert_eq!(isqrt(u128::MAX), (1u128 << 64) - 1);
}
