use backtune::controller::{
    get_input_char, play_button, reload_button, stop_button, Key, TextCapture,
};
use backtune::player::Player;
use backtune::settings::{init_settings, SettingChange, Settings};

#[test]
fn digit_keys_type_digits() {
    let empty = String::new();
    let keys = [
        Key::Num0, Key::Num1, Key::Num2, Key::Num3, Key::Num4, Key::Num5, Key::Num6, Key::Num7,
        Key::Num8, Key::Num9,
    ];
    let chars = ['0', '1', '2', '3', '4', '5', '6', '7', '8', '9'];
    for (k, c) in keys.iter().zip(chars.iter()) {
        assert_eq!(get_input_char(Some(*k), &empty), Some(*c));
    }
}

#[test]
fn period_only_once() {
    assert_eq!(get_input_char(Some(Key::Period), &"12".to_string()), Some('.'));
    assert_eq!(get_input_char(Some(Key::Period), &"1.2".to_string()), None);
}

#[test]
fn other_keys_type_nothing() {
    let t = "1".to_string();
    assert_eq!(get_input_char(Some(Key::Other), &t), None);
    assert_eq!(get_input_char(Some(Key::Escape), &t), None);
    assert_eq!(get_input_char(None, &t), None);
}

#[test]
fn keys_are_ignored_when_not_typing() {
    let mut c = TextCapture::new();
    let mut s = init_settings();
    assert_eq!(c.on_key_down(Some(Key::Num5), &mut s), None);
    assert_eq!(c.captured_text, "");
    assert_eq!(c.capture_text, -1);
}

#[test]
fn typing_editing_and_storing_a_wait_time() {
    let mut c = TextCapture { capture_text: 1, captured_text: String::new() };
    let mut s = init_settings();
    for k in [Key::Num4, Key::Num5, Key::Period, Key::Period, Key::Num2, Key::Other, Key::Num9] {
        assert_eq!(c.on_key_down(Some(k), &mut s), None);
    }
    assert_eq!(c.captured_text, "45.29");
    assert_eq!(c.on_key_down(Some(Key::Backspace), &mut s), None);
    assert_eq!(c.captured_text, "45.2");
    assert!(c.can_take_key(Some(Key::Return)));
    assert_eq!(c.on_key_down(Some(Key::Return), &mut s), Some(SettingChange::Updated));
    assert_eq!(c.capture_text, -1);
    assert_eq!(s.max_wait_time, 45_200);
    assert_eq!(s.min_wait_time, 60_000);
}

#[test]
fn backspace_on_empty_text_is_harmless() {
    let mut c = TextCapture { capture_text: 0, captured_text: String::new() };
    let mut s = init_settings();
    assert_eq!(c.on_key_down(Some(Key::Backspace), &mut s), None);
    assert_eq!(c.captured_text, "");
    assert_eq!(c.capture_text, 0);
}

#[test]
fn escape_with_empty_text_changes_nothing() {
    let mut c = TextCapture { capture_text: 0, captured_text: String::new() };
    let mut s = init_settings();
    assert_eq!(c.on_key_down(Some(Key::Escape), &mut s), Some(SettingChange::Ignored));
    assert_eq!(c.capture_text, -1);
    assert_eq!(s.min_wait_time, 60_000);
}

#[test]
fn a_lone_point_cannot_be_stored() {
    let c = TextCapture { capture_text: 0, captured_text: ".".to_string() };
    assert!(!c.can_take_key(Some(Key::Return)));
    assert!(c.can_take_key(Some(Key::Num1)));
}

#[test]
fn play_button_restarts_the_wait() {
    let mut p = Player::new();
    p.currently_playing = true;
    p.audio_device_open = true;
    let mut play = false;
    let s = Settings { min_wait_time: 1_000, max_wait_time: 2_000 };
    assert!(play_button(&mut p, &mut play, &s, 50_000).is_ok());
    assert!(play);
    assert!(!p.currently_playing);
    assert!(!p.audio_device_open);
    assert!(p.chosen_wait >= 51_000 && p.chosen_wait < 52_000);
}

#[test]
fn stop_button_stops_an_open_device() {
    let mut p = Player::new();
    p.currently_playing = true;
    p.audio_device_open = true;
    let mut play = true;
    let s = Settings { min_wait_time: 10, max_wait_time: 11 };
    assert!(stop_button(&mut p, &mut play, &s, 100).is_ok());
    assert!(!play);
    assert!(!p.currently_playing);
    assert_eq!(p.chosen_wait, 110);
}

#[test]
fn stop_button_without_device_only_pauses() {
    let mut p = Player::new();
    p.chosen_wait = 777;
    let mut play = true;
    let s = Settings { min_wait_time: 10, max_wait_time: 5 };
    assert!(stop_button(&mut p, &mut play, &s, 100).is_ok());
    assert!(!play);
    assert_eq!(p.chosen_wait, 777);
}

#[test]
fn reload_button_takes_the_new_listing() {
    let mut paths = vec!["a.wav".to_string()];
    assert!(reload_button(&mut paths, vec!["b.wav".to_string(), "c.wav".to_string()]).is_ok());
    assert_eq!(paths, vec!["b.wav".to_string(), "c.wav".to_string()]);
}
