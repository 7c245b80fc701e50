use truce::playback::{adapt_channels, check_decoded, MixWindow, PlaybackError, PlaybackSource};

#[test]
fn check_decoded_rejects_zero_channels_and_empty_files() {
    assert_eq!(check_decoded(8, 0), Err(PlaybackError::ZeroChannels));
    assert_eq!(check_decoded(0, 2), Err(PlaybackError::Empty));
    assert_eq!(check_decoded(1, 2), Err(PlaybackError::Empty));
    assert_eq!(check_decoded(8, 2), Ok(4));
    assert_eq!(check_decoded(9, 2), Ok(4));
}

#[test]
fn same_channel_count_passes_through() {
    let v = vec![1, 2, 3, 4, 5];
    assert_eq!(adapt_channels(v.clone(), 2, 2, 0), v);
}

#[test]
fn mono_is_broadcast_to_every_channel() {
    assert_eq!(adapt_channels(vec![0.5_f32, -0.5], 1, 2, 0.0), vec![0.5, 0.5, -0.5, -0.5]);
    assert_eq!(adapt_channels(vec![7, 8], 1, 3, 0), vec![7, 7, 7, 8, 8, 8]);
}

#[test]
fn extra_source_channels_are_dropped() {
    // 2 frames of 3 channels → 2 channels.
    assert_eq!(adapt_channels(vec![1, 2, 3, 4, 5, 6], 3, 2, 0), vec![1, 2, 4, 5]);
}

#[test]
fn missing_source_channels_are_zero_filled() {
    // 2 frames of 2 channels → 4 channels; trailing partial frame dropped.
    assert_eq!(
        adapt_channels(vec![1, 2, 3, 4, 9], 2, 4, 0),
        vec![1, 2, 0, 0, 3, 4, 0, 0]
    );
}

#[test]
fn playback_window_saturates_at_end_of_file() {
    // 4 frames stereo.
    let raw = vec![1000, -1000, 2000, -2000, 3000, -3000, 4000, -4000];
    let mut src = PlaybackSource::from_decoded(raw, 2, 2, 0);
    assert_eq!(src.total_frames(), 4);
    assert_eq!(src.channels(), 2);
    let w = src.advance(2, 8);
    assert_eq!(w, MixWindow { start: 0, take: 4, channels: 2 });
    assert_eq!(src.cursor(), 4);
    assert_eq!(src.sample(3, 1), -4000);
    // Subsequent calls take nothing.
    let w2 = src.advance(2, 4);
    assert_eq!(w2.take, 0);
    assert_eq!(src.cursor(), 4);
}

#[test]
fn playback_window_advances_block_by_block() {
    let raw: Vec<i32> = (0..10).collect();
    let mut src = PlaybackSource::from_decoded(raw, 1, 1, 0);
    assert_eq!(src.advance(1, 3), MixWindow { start: 0, take: 3, channels: 1 });
    assert_eq!(src.advance(1, 3), MixWindow { start: 3, take: 3, channels: 1 });
    assert_eq!(src.advance(1, 3), MixWindow { start: 6, take: 3, channels: 1 });
    assert_eq!(src.advance(1, 3), MixWindow { start: 9, take: 1, channels: 1 });
    assert_eq!(src.advance(1, 3), MixWindow { start: 10, take: 0, channels: 1 });
}

#[test]
fn playback_window_covers_at_most_the_device_buffers() {
    let mut src = PlaybackSource::from_decoded(vec![1, 2, 3, 4], 2, 2, 0);
    assert_eq!(src.advance(1, 2).channels, 1);
    let mut src3 = PlaybackSource::from_decoded(vec![1, 2], 1, 3, 0);
    assert_eq!(src3.advance(8, 2).channels, 3);
    assert_eq!(src3.sample(1, 2), 2);
}

#[test]
fn mono_file_reaches_both_stereo_channels() {
    let mut src = PlaybackSource::from_decoded(vec![0.5_f32, -0.5], 1, 2, 0.0);
    let w = src.advance(2, 2);
    assert_eq!(w.take, 2);
    for f in 0..w.take {
        assert_eq!(src.sample(w.start + f, 0), src.sample(w.start + f, 1));
    }
    assert!(src.sample(0, 0) > 0.4);
    assert!(src.sample(1, 0) < -0.4);
}
