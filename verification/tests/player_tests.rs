use backtune::audio::{SampleFormat, WavData};
use backtune::player::{
    begin_playback, stop_audio, stop_audio_with, update, update_with, Player, PlayerAction,
    SampleCallback,
};
use backtune::settings::Settings;

fn wav_u8(len: usize, freq: i32) -> WavData {
    WavData { format: SampleFormat::U8, freq, channels: 1, buffer: (0..len).map(|i| i as u8).collect() }
}

#[test]
fn first_step_draws_a_start_time() {
    let mut p = Player::new();
    let s = Settings { min_wait_time: 100, max_wait_time: 200 };
    assert_eq!(update(&mut p, &s, 1_000, 3), PlayerAction::Nothing);
    assert!(p.chosen_wait >= 1_100 && p.chosen_wait < 1_200);
    assert!(!p.currently_playing);
}

#[test]
fn nothing_happens_before_the_start_time() {
    let mut p = Player::new();
    p.chosen_wait = 5_000;
    let s = Settings { min_wait_time: 100, max_wait_time: 200 };
    assert_eq!(update(&mut p, &s, 4_999, 3), PlayerAction::Nothing);
    assert_eq!(p.chosen_wait, 5_000);
}

#[test]
fn a_due_track_is_picked_from_the_list() {
    let mut p = Player::new();
    p.chosen_wait = 5_000;
    let s = Settings { min_wait_time: 100, max_wait_time: 200 };
    match update(&mut p, &s, 5_000, 3) {
        PlayerAction::StartTrack(i) => assert!(i < 3),
        other => panic!("unexpected {:?}", other),
    }
    assert_eq!(p.chosen_wait, 0);
    assert_eq!(p.started_at, 5_000);
}

#[test]
fn update_with_given_draws() {
    let mut p = Player::new();
    assert_eq!(update_with(&mut p, 10, 5, 0), PlayerAction::Nothing);
    assert_eq!(p.chosen_wait, 15);
    assert_eq!(update_with(&mut p, 14, 5, 0), PlayerAction::Nothing);
    assert_eq!(update_with(&mut p, 20, 5, 2), PlayerAction::StartTrack(2));
    assert_eq!(p.started_at, 20);
    assert_eq!(p.chosen_wait, 0);
}

#[test]
fn wait_is_held_at_the_end_of_the_clock() {
    let mut p = Player::new();
    assert_eq!(update_with(&mut p, u64::MAX - 1, 5, 0), PlayerAction::Nothing);
    assert_eq!(p.chosen_wait, u64::MAX);
}

#[test]
fn whole_track_cycle() {
    let mut p = Player::new();
    assert_eq!(update_with(&mut p, 1_000, 500, 0), PlayerAction::Nothing);
    assert_eq!(update_with(&mut p, 1_500, 0, 1), PlayerAction::StartTrack(1));
    // 8000 one-byte mono samples at 8000 Hz: one second.
    let start = begin_playback(&mut p, 1, Some(wav_u8(8_000, 8_000)));
    assert!(!start.unsupported_format);
    let src = start.source.expect("a source");
    assert_eq!(src.freq, 8_000);
    assert_eq!(src.channels, 1);
    match src.callback {
        SampleCallback::U8(cb) => {
            assert_eq!(cb.position, 0);
            assert_eq!(cb.bytes.len(), 8_000);
            assert_eq!(cb.bytes[7], 7);
        }
        _ => panic!("expected 8-bit playback"),
    }
    assert!(p.currently_playing);
    assert!(p.audio_device_open);
    assert_eq!(p.currently_playing_index, 1);
    assert_eq!(p.loaded_audio.as_ref().unwrap().length, 1_000);
    assert_eq!(update_with(&mut p, 2_499, 300, 0), PlayerAction::Nothing);
    assert_eq!(update_with(&mut p, 2_500, 300, 0), PlayerAction::StopDevice);
    assert!(!p.currently_playing);
    assert!(!p.audio_device_open);
    assert_eq!(p.chosen_wait, 2_800);
}

#[test]
fn failed_read_replays_the_track_loaded_before() {
    let mut p = Player::new();
    let first = begin_playback(&mut p, 0, Some(wav_u8(10, 10)));
    assert!(first.source.is_some());
    p.currently_playing = false;
    p.audio_device_open = false;
    let again = begin_playback(&mut p, 4, None);
    assert!(!again.unsupported_format);
    assert!(again.source.is_some());
    assert!(p.currently_playing);
    assert_eq!(p.currently_playing_index, 4);
}

#[test]
fn unsupported_format_is_reported_and_nothing_plays() {
    let mut p = Player::new();
    let wav = WavData { format: SampleFormat::F32LSB, freq: 44_100, channels: 2, buffer: vec![0; 8] };
    let r = begin_playback(&mut p, 0, Some(wav));
    assert!(r.unsupported_format);
    assert!(r.source.is_none());
    assert!(!p.currently_playing);
    assert!(p.loaded_audio.is_none());
}

#[test]
fn nothing_read_and_nothing_loaded_plays_nothing() {
    let mut p = Player::new();
    let r = begin_playback(&mut p, 0, None);
    assert!(!r.unsupported_format);
    assert!(r.source.is_none());
    assert!(!p.currently_playing);
}

#[test]
fn playing_without_a_track_is_reported() {
    let mut p = Player::new();
    p.currently_playing = true;
    assert_eq!(update_with(&mut p, 0, 0, 0), PlayerAction::ReportNotLoaded);
    assert!(p.currently_playing);
}

#[test]
fn sixteen_bit_tracks_are_decoded_for_playback() {
    let mut p = Player::new();
    let wav = WavData { format: SampleFormat::S16LSB, freq: 1, channels: 1, buffer: vec![0x01, 0x00, 0xff, 0xff, 0x00, 0x80] };
    let r = begin_playback(&mut p, 0, Some(wav));
    match r.source.expect("a source").callback {
        SampleCallback::I16(cb) => assert_eq!(cb.samples, vec![1, -1, -32768]),
        _ => panic!("expected 16-bit playback"),
    }
}

#[test]
fn thirty_two_bit_tracks_are_decoded_for_playback() {
    let mut p = Player::new();
    let wav = WavData { format: SampleFormat::S32MSB, freq: 1, channels: 1, buffer: vec![0x78, 0x56, 0x34, 0x12, 0, 0, 0, 0x80] };
    let r = begin_playback(&mut p, 0, Some(wav));
    match r.source.expect("a source").callback {
        SampleCallback::I32(cb) => assert_eq!(cb.samples, vec![0x1234_5678, i32::MIN]),
        _ => panic!("expected 32-bit playback"),
    }
}

#[test]
fn stop_audio_draws_from_the_range() {
    let s = Settings { min_wait_time: 30, max_wait_time: 40 };
    for _ in 0..50 {
        let mut p = Player::new();
        p.currently_playing = true;
        p.audio_device_open = true;
        stop_audio(&mut p, &s, 1_000);
        assert!(!p.currently_playing && !p.audio_device_open);
        assert!(p.chosen_wait >= 1_030 && p.chosen_wait < 1_040);
    }
}

#[test]
fn stop_audio_with_given_wait() {
    let mut p = Player::new();
    p.currently_playing = true;
    p.audio_device_open = true;
    p.currently_playing_index = 3;
    stop_audio_with(&mut p, 70, 30);
    assert_eq!(p.chosen_wait, 100);
    assert_eq!(p.currently_playing_index, 3);
    assert!(!p.currently_playing && !p.audio_device_open);
}

#[test]
fn next_track_starts_within_the_wait_after_a_stop() {
    let s = Settings { min_wait_time: 1_000, max_wait_time: 3_000 };
    let mut p = Player::new();
    p.currently_playing = true;
    p.audio_device_open = true;
    let t0 = 50_000u64;
    stop_audio(&mut p, &s, t0);
    let d = 16u64;
    let mut t = t0;
    let mut started_at = None;
    while t <= t0 + 3_000 + d {
        match update(&mut p, &s, t, 2) {
            PlayerAction::StartTrack(i) => {
                assert!(i < 2);
                started_at = Some(t);
                break;
            }
            other => assert_eq!(other, PlayerAction::Nothing),
        }
        t += d;
    }
    let t1 = started_at.expect("a track starts");
    assert!(t1 >= t0 + 1_000 && t1 < t0 + 3_000 + d);
}
