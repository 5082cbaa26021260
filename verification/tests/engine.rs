use rms::{Rms, RmsError, Settings, WindowSize};

fn settings(sample_hz: u32, frames: u16, channels: u16) -> Settings {
    Settings { sample_hz, frames, channels }
}

#[test]
fn fresh_engine_has_no_frames() {
    let rms = Rms::new(WindowSize::Samples(1024));
    assert_eq!(rms.last_frame(), None);
    assert_eq!(rms.avg_at_last_frame(), 0);
    assert!(rms.per_channel_at_last_frame().is_empty());
    assert!(rms.interleaved_rms().is_empty());
}

#[test]
fn two_channels_two_frames_of_ones() {
    let mut rms = Rms::new(WindowSize::Samples(1));
    assert_eq!(rms.update(&[1, 1, 1, 1], settings(44_100, 2, 2)), Ok(()));
    assert_eq!(rms.per_channel(0), &[1, 1]);
    assert_eq!(rms.per_channel(1), &[1, 1]);
    assert_eq!(rms.avg(0), 1);
    assert_eq!(rms.avg(1), 1);
}

#[test]
fn levels_are_interleaved_as_the_samples() {
    let mut rms = Rms::new(WindowSize::Samples(2));
    assert_eq!(rms.update(&[3, 4, 0, 4, 5, 0], settings(44_100, 3, 2)), Ok(()));
    assert_eq!(rms.interleaved_rms(), &[2, 2, 2, 4, 3, 2]);
    assert_eq!(rms.per_channel(0), &[2, 2]);
    assert_eq!(rms.per_channel(1), &[2, 4]);
    assert_eq!(rms.per_channel(2), &[3, 2]);
    assert_eq!(rms.avg(0), 2);
    assert_eq!(rms.avg(1), 3);
    assert_eq!(rms.avg(2), 2);
    assert_eq!(rms.last_frame(), Some(2));
    assert_eq!(rms.per_channel_at_last_frame(), &[3, 2]);
    assert_eq!(rms.avg_at_last_frame(), 2);
}

#[test]
fn average_is_rounded_down() {
    let mut rms = Rms::new(WindowSize::Samples(1));
    assert_eq!(rms.update(&[3, 4], settings(44_100, 1, 2)), Ok(()));
    assert_eq!(rms.per_channel(0), &[3, 4]);
    assert_eq!(rms.avg(0), 3);
}

#[test]
fn frame_index_out_of_bounds_is_detected() {
    let mut rms = Rms::new(WindowSize::Samples(1));
    assert!(!rms.has_frame(0));
    assert_eq!(rms.update(&[1, 2, 3, 4], settings(44_100, 2, 2)), Ok(()));
    assert!(rms.has_frame(0));
    assert!(rms.has_frame(1));
    assert!(!rms.has_frame(2));
    assert!(!rms.has_frame(usize::MAX));
    assert_eq!(rms.update(&[], settings(44_100, 3, 0)), Ok(()));
    assert!(!rms.has_frame(0));
}

#[test]
fn frame_index_out_of_bounds_is_never_served() {
    let mut rms = Rms::new(WindowSize::Samples(1));
    assert_eq!(rms.try_per_channel(0), None);
    assert_eq!(rms.try_avg(0), None);
    assert_eq!(rms.update(&[1, 2, 3, 5], settings(44_100, 2, 2)), Ok(()));
    assert_eq!(rms.try_per_channel(0), Some(&[1, 2][..]));
    assert_eq!(rms.try_per_channel(1), Some(&[3, 5][..]));
    assert_eq!(rms.try_avg(1), Some(4));
    assert_eq!(rms.try_per_channel(2), None);
    assert_eq!(rms.try_avg(2), None);
    assert_eq!(rms.try_per_channel(usize::MAX), None);
    assert_eq!(rms.try_per_channel(usize::MAX / 2 + 1), None);
    assert_eq!(rms.try_avg(usize::MAX), None);
    assert_eq!(rms.interleaved_rms(), &[1, 2, 3, 5]);
}

#[test]
fn last_frame_is_the_bound_of_frame_indices() {
    let mut rms = Rms::new(WindowSize::Samples(1));
    assert_eq!(rms.update(&[1, 2, 3, 4], settings(44_100, 2, 2)), Ok(()));
    assert_eq!(rms.last_frame(), Some(1));
    assert_eq!(rms.interleaved_rms().len(), 4);
    assert_eq!(rms.per_channel(1), &[3, 4]);
}

#[test]
fn windows_carry_over_between_updates() {
    let mut rms = Rms::new(WindowSize::Samples(2));
    assert_eq!(rms.update(&[6, 8], settings(44_100, 2, 1)), Ok(()));
    assert_eq!(rms.interleaved_rms(), &[4, 7]);
    assert_eq!(rms.update(&[0], settings(44_100, 1, 1)), Ok(()));
    // slots 36, 64 become 64, 0: mean 32, root 5
    assert_eq!(rms.interleaved_rms(), &[5]);
}

#[test]
fn new_channels_are_silent_and_old_ones_keep_their_state() {
    let mut rms = Rms::new(WindowSize::Samples(2));
    assert_eq!(rms.update(&[6, 8], settings(44_100, 2, 1)), Ok(()));
    assert_eq!(rms.interleaved_rms(), &[4, 7]);

    assert_eq!(rms.update(&[0, 10], settings(44_100, 1, 2)), Ok(()));
    assert_eq!(rms.interleaved_rms(), &[5, 7]);
    assert_eq!(rms.last_frame(), Some(0));

    assert_eq!(rms.update(&[0], settings(44_100, 1, 1)), Ok(()));
    assert_eq!(rms.interleaved_rms(), &[0]);
}

#[test]
fn duration_follows_the_sample_rate() {
    let mut rms = Rms::new(WindowSize::Millis(2));
    assert_eq!(rms.window_ms(), Some(2));
    // two samples at 1000 Hz
    assert_eq!(rms.update(&[4, 4], settings(1_000, 2, 1)), Ok(()));
    assert_eq!(rms.interleaved_rms(), &[2, 4]);
    // four samples at 2000 Hz: the new slots hold the mean square 16
    assert_eq!(rms.update(&[4], settings(2_000, 1, 1)), Ok(()));
    assert_eq!(rms.interleaved_rms(), &[4]);
    // one sample at 500 Hz
    assert_eq!(rms.update(&[0], settings(500, 1, 1)), Ok(()));
    assert_eq!(rms.interleaved_rms(), &[0]);
}

#[test]
fn window_in_samples_has_no_duration() {
    let rms = Rms::new(WindowSize::Samples(16));
    assert_eq!(rms.window_ms(), None);
    assert_eq!(rms.window(), WindowSize::Samples(16));
}

#[test]
fn window_in_microseconds_has_whole_milliseconds_or_none() {
    assert_eq!(Rms::new(WindowSize::Micros(2_000)).window_ms(), Some(2));
    assert_eq!(Rms::new(WindowSize::Micros(2_500)).window_ms(), None);
    assert_eq!(Rms::new(WindowSize::Micros(2_500)).window(), WindowSize::Micros(2_500));
    assert_eq!(Rms::new(WindowSize::Millis(7)).window(), WindowSize::Millis(7));
}

#[test]
fn microseconds_round_to_the_nearest_sample() {
    // 2.5 ms at 44.1 kHz is 110.25 samples, 0.4 ms is 17.64
    assert_eq!(WindowSize::Micros(2_500).samples(44_100), Some(110));
    assert_eq!(WindowSize::Micros(400).samples(44_100), Some(18));
    assert_eq!(WindowSize::Micros(1_000).samples(1_500), Some(2));
    assert_eq!(WindowSize::Micros(999).samples(1_500), Some(1));
    assert_eq!(WindowSize::Micros(333).samples(1_500), Some(0));
    assert_eq!(WindowSize::Micros(334).samples(1_500), Some(1));
    assert_eq!(WindowSize::Micros(0).samples(48_000), Some(0));
    assert_eq!(WindowSize::Micros(u64::MAX).samples(u32::MAX), None);
    for ms in [0u64, 1, 3, 10, 250] {
        for sample_hz in [1_499u32, 1_500, 22_050, 44_100] {
            assert_eq!(
                WindowSize::Micros(ms * 1_000).samples(sample_hz),
                WindowSize::Millis(ms).samples(sample_hz)
            );
        }
    }
}

#[test]
fn duration_in_microseconds_follows_the_sample_rate() {
    let mut rms = Rms::new(WindowSize::Micros(1_500));
    // 1.5 samples at 1000 Hz round to two
    assert_eq!(rms.update(&[4, 4], settings(1_000, 2, 1)), Ok(()));
    assert_eq!(rms.interleaved_rms(), &[2, 4]);
    // three samples at 2000 Hz: the new slot holds the mean square 16
    assert_eq!(rms.update(&[0], settings(2_000, 1, 1)), Ok(()));
    // slots 16, 16, 0: mean 10, root 3
    assert_eq!(rms.interleaved_rms(), &[3]);
}

#[test]
fn durations_round_to_the_nearest_sample() {
    assert_eq!(WindowSize::Millis(10).samples(44_100), Some(441));
    assert_eq!(WindowSize::Millis(1).samples(44_100), Some(44));
    assert_eq!(WindowSize::Millis(1).samples(1_499), Some(1));
    assert_eq!(WindowSize::Millis(1).samples(1_500), Some(2));
    assert_eq!(WindowSize::Millis(3).samples(500), Some(2));
    assert_eq!(WindowSize::Millis(0).samples(48_000), Some(0));
    assert_eq!(WindowSize::Millis(1).samples(499), Some(0));
    assert_eq!(WindowSize::Samples(7).samples(48_000), Some(7));
    assert_eq!(WindowSize::Samples(7).samples(0), Some(7));
    assert_eq!(WindowSize::Millis(u64::MAX).samples(44_100), None);
}

#[test]
fn buffer_size_is_frames_times_channels() {
    assert_eq!(settings(44_100, 256, 2).buffer_size(), 512);
    assert_eq!(settings(44_100, 0, 2).buffer_size(), 0);
    assert_eq!(settings(44_100, u16::MAX, u16::MAX).buffer_size(), 4_294_836_225);
}

#[test]
fn buffer_of_the_wrong_size_is_refused() {
    let mut rms = Rms::new(WindowSize::Samples(2));
    assert_eq!(rms.update(&[6, 8], settings(44_100, 1, 2)), Ok(()));
    let before = rms.interleaved_rms().to_vec();

    assert_eq!(rms.update(&[1, 2, 3], settings(44_100, 2, 2)), Err(RmsError::BufferMismatch));
    assert_eq!(rms.update(&[1, 2, 3, 4, 5], settings(44_100, 2, 2)), Err(RmsError::BufferMismatch));
    assert_eq!(rms.update(&[], settings(44_100, 1, 1)), Err(RmsError::BufferMismatch));
    assert_eq!(rms.interleaved_rms(), &before[..]);
    assert_eq!(rms.last_frame(), Some(0));

    // the windows were left alone too: slots 0, 36 become 36, 0 with mean 18 and root 4
    assert_eq!(rms.update(&[0, 0], settings(44_100, 1, 2)), Ok(()));
    assert_eq!(rms.interleaved_rms(), &[4, 5]);
}

#[test]
fn window_too_long_is_refused() {
    let mut rms = Rms::new(WindowSize::Millis(u64::MAX));
    assert_eq!(rms.update(&[1, 2], settings(44_100, 1, 2)), Err(RmsError::WindowTooLong));
    assert_eq!(rms.last_frame(), None);
    assert!(rms.interleaved_rms().is_empty());
    assert!(matches!(
        Rms::with_capacity(WindowSize::Millis(u64::MAX), settings(44_100, 1, 2)),
        Err(RmsError::WindowTooLong)
    ));
}

#[test]
fn mismatch_is_reported_before_the_window() {
    let mut rms = Rms::new(WindowSize::Millis(u64::MAX));
    assert_eq!(rms.update(&[1], settings(44_100, 1, 2)), Err(RmsError::BufferMismatch));
}

#[test]
fn with_capacity_prepares_silent_windows_and_zero_levels() {
    let mut rms = Rms::with_capacity(WindowSize::Samples(2), settings(44_100, 4, 2)).unwrap();
    assert_eq!(rms.interleaved_rms(), &[0, 0, 0, 0, 0, 0, 0, 0]);
    assert_eq!(rms.last_frame(), Some(3));
    assert_eq!(rms.avg_at_last_frame(), 0);
    assert_eq!(rms.per_channel_at_last_frame(), &[0, 0]);
    assert_eq!(rms.per_channel(0), &[0, 0]);
    assert!(rms.has_frame(3));
    assert!(!rms.has_frame(4));

    let mut plain = Rms::new(WindowSize::Samples(2));
    let buffer = [3, 4, 0, 4, 5, 0, 1, 1];
    assert_eq!(rms.update(&buffer, settings(44_100, 4, 2)), Ok(()));
    assert_eq!(plain.update(&buffer, settings(44_100, 4, 2)), Ok(()));
    assert_eq!(rms.interleaved_rms(), plain.interleaved_rms());
    assert_eq!(rms.interleaved_rms().len(), 8);
}

#[test]
fn with_capacity_for_an_empty_format_holds_no_level() {
    let rms = Rms::with_capacity(WindowSize::Samples(2), settings(44_100, 4, 0)).unwrap();
    assert!(rms.interleaved_rms().is_empty());
    assert_eq!(rms.last_frame(), None);
    let rms = Rms::with_capacity(WindowSize::Samples(2), settings(44_100, 0, 2)).unwrap();
    assert!(rms.interleaved_rms().is_empty());
    assert_eq!(rms.last_frame(), None);
    assert!(rms.per_channel_at_last_frame().is_empty());
}

#[test]
fn same_format_keeps_the_shape() {
    let mut rms = Rms::new(WindowSize::Millis(1));
    let format = settings(3_000, 2, 3);
    assert_eq!(rms.update(&[1, 2, 3, 4, 5, 6], format), Ok(()));
    assert_eq!(rms.interleaved_rms().len(), 6);
    assert_eq!(rms.per_channel(0).len(), 3);
    assert_eq!(rms.last_frame(), Some(1));
    assert_eq!(rms.update(&[6, 5, 4, 3, 2, 1], format), Ok(()));
    assert_eq!(rms.interleaved_rms().len(), 6);
    assert_eq!(rms.per_channel(0).len(), 3);
    assert_eq!(rms.last_frame(), Some(1));
}

#[test]
fn empty_formats_leave_no_frames() {
    let mut rms = Rms::new(WindowSize::Samples(2));
    assert_eq!(rms.update(&[], settings(44_100, 0, 2)), Ok(()));
    assert_eq!(rms.last_frame(), None);
    assert_eq!(rms.avg_at_last_frame(), 0);
    assert_eq!(rms.update(&[], settings(44_100, 5, 0)), Ok(()));
    assert_eq!(rms.last_frame(), None);
    assert!(rms.per_channel_at_last_frame().is_empty());
}

#[test]
fn levels_shrink_with_the_buffer() {
    let mut rms = Rms::new(WindowSize::Samples(1));
    assert_eq!(rms.update(&[1, 2, 3, 4, 5, 6], settings(44_100, 3, 2)), Ok(()));
    assert_eq!(rms.interleaved_rms(), &[1, 2, 3, 4, 5, 6]);
    assert_eq!(rms.update(&[9, 8], settings(44_100, 1, 2)), Ok(()));
    assert_eq!(rms.interleaved_rms(), &[9, 8]);
    assert_eq!(rms.last_frame(), Some(0));
}

#[test]
fn reset_windows_silences_every_channel() {
    let mut rms = Rms::new(WindowSize::Samples(2));
    assert_eq!(rms.update(&[6, 8, 6, 8], settings(44_100, 2, 2)), Ok(()));
    assert_eq!(rms.interleaved_rms(), &[4, 5, 6, 8]);
    rms.reset_windows();
    assert_eq!(rms.interleaved_rms(), &[4, 5, 6, 8]);
    assert_eq!(rms.update(&[0, 4], settings(44_100, 1, 2)), Ok(()));
    assert_eq!(rms.interleaved_rms(), &[0, 2]);
}

#[test]
fn clone_goes_its_own_way() {
    let mut rms = Rms::new(WindowSize::Samples(2));
    assert_eq!(rms.update(&[6, 8], settings(44_100, 2, 1)), Ok(()));
    let mut copy = rms.clone();
    assert_eq!(copy.interleaved_rms(), rms.interleaved_rms());
    assert_eq!(copy.update(&[0], settings(44_100, 1, 1)), Ok(()));
    assert_eq!(copy.interleaved_rms(), &[5]);
    assert_eq!(rms.interleaved_rms(), &[4, 7]);
}
