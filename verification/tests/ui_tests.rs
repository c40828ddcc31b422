use backtune::settings::{init_settings, SettingChange};
use backtune::ui::{
    is_mouse_over_button, present_buttons, present_settings, ButtonLook, Rect, ValueLook,
};

#[test]
fn mouse_over_excludes_edges() {
    assert!(is_mouse_over_button(5, 5, 0, 10, 0, 10));
    assert!(!is_mouse_over_button(0, 5, 0, 10, 0, 10));
    assert!(!is_mouse_over_button(10, 5, 0, 10, 0, 10));
    assert!(!is_mouse_over_button(5, 10, 0, 10, 0, 10));
    assert!(!is_mouse_over_button(5, -1, 0, 10, 0, 10));
}

#[test]
fn press_then_release_over_play_clicks_it() {
    let mut states = [false; 6];
    // Over the play button (265..365, 100..200), held down.
    let f = present_buttons(&mut states, 300, 150, true);
    assert_eq!(f.play.look, ButtonLook::MouseDown);
    assert!(!f.play.clicked);
    assert!(states[0]);
    assert_eq!(f.stop.look, ButtonLook::Inactive);
    // Released over it.
    let f = present_buttons(&mut states, 300, 150, false);
    assert_eq!(f.play.look, ButtonLook::Hover);
    assert!(f.play.clicked);
    assert!(!states[0]);
    // Another release frame does not click again.
    let f = present_buttons(&mut states, 300, 150, false);
    assert!(!f.play.clicked);
}

#[test]
fn dragging_off_a_button_cancels_the_click() {
    let mut states = [false; 6];
    present_buttons(&mut states, 600, 150, true);
    assert!(states[3]);
    let f = present_buttons(&mut states, 10, 10, false);
    assert!(!states[3]);
    assert!(!f.reload.clicked);
    assert_eq!(f.reload.look, ButtonLook::Inactive);
    let f = present_buttons(&mut states, 600, 150, false);
    assert!(!f.reload.clicked);
}

#[test]
fn each_button_clicks_on_its_own() {
    let xs = [300, 400, 500, 620];
    for (k, x) in xs.iter().enumerate() {
        let mut states = [false; 6];
        present_buttons(&mut states, *x, 150, true);
        let f = present_buttons(&mut states, *x, 150, false);
        let clicks = [f.play.clicked, f.stop.clicked, f.folder.clicked, f.reload.clicked];
        for j in 0..4 {
            assert_eq!(clicks[j], j == k);
        }
    }
}

#[test]
fn settings_boxes_show_stored_times() {
    let mut states = [false; 6];
    let mut capture = -1;
    let mut text = String::new();
    let mut s = init_settings();
    let f = present_settings(&mut states, 0, 0, false, &mut capture, &mut text, &mut s);
    assert_eq!(f.min.text, "60");
    assert_eq!(f.max.text, "240");
    assert_eq!(f.min.look, ValueLook::Inactive);
    assert_eq!(f.min.text_rect, Rect { x: 685, y: 250, w: 50, h: 50 });
    assert_eq!(f.max.text_rect, Rect { x: 672, y: 315, w: 75, h: 50 });
    assert_eq!(f.min.change, None);
}

#[test]
fn clicking_a_box_starts_typing_and_a_press_elsewhere_stores() {
    let mut states = [false; 6];
    let mut capture = -1;
    let mut text = "old".to_string();
    let mut s = init_settings();
    // Press and release over the maximum box (660..760, 315..365).
    let f = present_settings(&mut states, 700, 340, true, &mut capture, &mut text, &mut s);
    assert_eq!(f.max.look, ValueLook::Active);
    assert!(states[5]);
    let f = present_settings(&mut states, 700, 340, false, &mut capture, &mut text, &mut s);
    assert_eq!(capture, 1);
    assert_eq!(text, "");
    assert_eq!(f.max.look, ValueLook::Hover);
    assert_eq!(f.max.text, "");
    text.push_str("1234.5");
    let f = present_settings(&mut states, 0, 0, false, &mut capture, &mut text, &mut s);
    assert_eq!(f.max.look, ValueLook::Active);
    assert_eq!(f.max.text, "1234.5");
    assert_eq!(f.max.text_rect, Rect { x: 660, y: 315, w: 100, h: 50 });
    // Press away from both boxes: the text is stored.
    let f = present_settings(&mut states, 0, 0, true, &mut capture, &mut text, &mut s);
    assert_eq!(f.min.change, Some(SettingChange::Updated));
    assert_eq!(f.max.change, None);
    assert_eq!(capture, -1);
    assert_eq!(s.max_wait_time, 1_234_500);
    assert_eq!(f.max.text, "1234.5");
}

#[test]
fn pressing_the_other_box_stores_too() {
    let mut states = [false; 6];
    let mut capture = 1;
    let mut text = "7".to_string();
    let mut s = init_settings();
    // Press over the minimum box while typing into the maximum one.
    let f = present_settings(&mut states, 700, 275, true, &mut capture, &mut text, &mut s);
    assert_eq!(f.min.change, None);
    assert_eq!(f.max.change, Some(SettingChange::Updated));
    assert_eq!(s.max_wait_time, 7_000);
    assert_eq!(capture, -1);
    assert!(states[4]);
}
