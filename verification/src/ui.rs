use vstd::prelude::*;

use crate::settings::{
    format_wait_time, set_setting, setting_applied, setting_text_ok, wait_text, SettingChange,
    Settings,
};
use crate::text::clear_string;

verus! {

/// The open box test the buttons use: the point lies strictly inside the
/// rectangle spanned by `x1..x2` and `y1..y2` (edges excluded).
pub open spec fn inside_open_box(x: int, y: int, x1: int, x2: int, y1: int, y2: int) -> bool {
    x1 < x && x < x2 && y1 < y && y < y2
}

/// Whether the mouse at `(x, y)` lies strictly inside the box bounded by
/// `x1`, `x2` (left and right) and `y1`, `y2` (top and bottom).
pub fn is_mouse_over_button(x: i32, y: i32, x1: i32, x2: i32, y1: i32, y2: i32) -> (r: bool)
    ensures
        r == inside_open_box(x as int, y as int, x1 as int, x2 as int, y1 as int, y2 as int),
{
    x > x1 && x < x2 && y > y1 && y < y2
}

/// A screen rectangle: top-left corner, width and height in pixels.
#[derive(Clone, Copy, Debug, PartialEq, Eq, Structural)]
pub struct Rect {
    pub x: i32,
    pub y: i32,
    pub w: u32,
    pub h: u32,
}

/// The mouse lies strictly inside the rectangle.
pub open spec fn over(r: Rect, mx: i32, my: i32) -> bool {
    inside_open_box(mx as int, my as int, r.x as int, r.x + r.w, r.y as int, r.y + r.h)
}

/// Rectangles whose far edges are still `i32` coordinates.
pub open spec fn on_screen(r: Rect) -> bool {
    r.w <= i32::MAX && r.h <= i32::MAX && r.x + r.w <= i32::MAX && r.y + r.h <= i32::MAX
}

fn hovered(r: Rect, mx: i32, my: i32) -> (b: bool)
    requires
        on_screen(r),
    ensures
        b == over(r, mx, my),
{
    is_mouse_over_button(mx, my, r.x, r.x + r.w as i32, r.y, r.y + r.h as i32)
}

// ---------------------------------------------------------------------------
// Layout (a 960-pixel-wide window)
// ---------------------------------------------------------------------------

/// The play, stop, folder and reload buttons, left to right.
pub open spec fn transport_rect(k: int) -> Rect {
    Rect { x: (265 + 110 * k) as i32, y: 100, w: 100, h: 100 }
}

/// The minimum (`k == 0`) and maximum (`k == 1`) wait time boxes.
pub open spec fn value_rect(k: int) -> Rect {
    Rect { x: 660, y: (250 + 65 * k) as i32, w: 100, h: 50 }
}

fn transport_rect_of(k: i32) -> (r: Rect)
    requires
        0 <= k < 4,
    ensures
        r == transport_rect(k as int),
{
    Rect { x: 265 + 110 * k, y: 100, w: 100, h: 100 }
}

fn value_rect_of(k: i32) -> (r: Rect)
    requires
        0 <= k < 2,
    ensures
        r == value_rect(k as int),
{
    Rect { x: 660, y: 250 + 65 * k, w: 100, h: 50 }
}

// ---------------------------------------------------------------------------
// Transport buttons
// ---------------------------------------------------------------------------

/// How a button is drawn.
#[derive(Clone, Copy, Debug, PartialEq, Eq, Structural)]
pub enum ButtonLook {
    Inactive,
    Hover,
    MouseDown,
}

/// A button in one frame: how it looks and whether it was clicked.
#[derive(Clone, Copy, Debug, PartialEq, Eq, Structural)]
pub struct ButtonFrame {
    pub look: ButtonLook,
    pub clicked: bool,
}

/// One frame of a button: held down over it, it is drawn pressed and
/// remembered as down; released over it, it is drawn hovered and clicks
/// when it was down; away from it, it is inactive and forgets the press.
/// Gives the look, whether it clicked, and whether it is now down.
pub open spec fn button_step(hovered: bool, pressed: bool, was_down: bool) -> (
    ButtonLook,
    bool,
    bool,
) {
    if hovered {
        if pressed {
            (ButtonLook::MouseDown, false, true)
        } else {
            (ButtonLook::Hover, was_down, false)
        }
    } else {
        (ButtonLook::Inactive, false, false)
    }
}

fn step_button(states: &mut [bool; 6], k: usize, hovered: bool, pressed: bool) -> (f:
    ButtonFrame)
    requires
        k < 6,
    ensures
        (f.look, f.clicked, final(states)@[k as int]) == button_step(
            hovered,
            pressed,
            old(states)@[k as int],
        ),
        final(states)@ == old(states)@.update(k as int, final(states)@[k as int]),
{
    if hovered {
        if pressed {
            states[k] = true;
            ButtonFrame { look: ButtonLook::MouseDown, clicked: false }
        } else {
            let clicked = states[k];
            states[k] = false;
            ButtonFrame { look: ButtonLook::Hover, clicked }
        }
    } else {
        states[k] = false;
        ButtonFrame { look: ButtonLook::Inactive, clicked: false }
    }
}

/// The four transport buttons in one frame.
pub struct ButtonsFrame {
    pub play: ButtonFrame,
    pub stop: ButtonFrame,
    pub folder: ButtonFrame,
    pub reload: ButtonFrame,
}

/// The result of `button_step` for transport button `k` in this frame.
pub open spec fn transport_step(k: int, mx: i32, my: i32, pressed: bool, was_down: bool) -> (
    ButtonLook,
    bool,
    bool,
) {
    button_step(over(transport_rect(k), mx, my), pressed, was_down)
}

/// Runs the play, stop, folder and reload buttons for one frame.
/// `last_button_states[0..4]` remembers which of them is held down; the
/// entries for the wait time boxes are left alone.
pub fn present_buttons(
    last_button_states: &mut [bool; 6],
    mouse_x: i32,
    mouse_y: i32,
    mouse_pressed: bool,
) -> (f: ButtonsFrame)
    ensures
        (f.play.look, f.play.clicked, final(last_button_states)@[0]) == transport_step(
            0,
            mouse_x,
            mouse_y,
            mouse_pressed,
            old(last_button_states)@[0],
        ),
        (f.stop.look, f.stop.clicked, final(last_button_states)@[1]) == transport_step(
            1,
            mouse_x,
            mouse_y,
            mouse_pressed,
            old(last_button_states)@[1],
        ),
        (f.folder.look, f.folder.clicked, final(last_button_states)@[2]) == transport_step(
            2,
            mouse_x,
            mouse_y,
            mouse_pressed,
            old(last_button_states)@[2],
        ),
        (f.reload.look, f.reload.clicked, final(last_button_states)@[3]) == transport_step(
            3,
            mouse_x,
            mouse_y,
            mouse_pressed,
            old(last_button_states)@[3],
        ),
        final(last_button_states)@.len() == 6,
        final(last_button_states)@[4] == old(last_button_states)@[4],
        final(last_button_states)@[5] == old(last_button_states)@[5],
{
    let h0 = hovered(transport_rect_of(0), mouse_x, mouse_y);
    let play = step_button(last_button_states, 0, h0, mouse_pressed);
    let h1 = hovered(transport_rect_of(1), mouse_x, mouse_y);
    let stop = step_button(last_button_states, 1, h1, mouse_pressed);
    let h2 = hovered(transport_rect_of(2), mouse_x, mouse_y);
    let folder = step_button(last_button_states, 2, h2, mouse_pressed);
    let h3 = hovered(transport_rect_of(3), mouse_x, mouse_y);
    let reload = step_button(last_button_states, 3, h3, mouse_pressed);
    ButtonsFrame { play, stop, folder, reload }
}

/// A button clicks in a frame exactly when the frame before held the mouse
/// down over it and this frame releases it over it.
pub proof fn lemma_click_is_press_then_release(
    h1: bool,
    p1: bool,
    was_down: bool,
    h2: bool,
    p2: bool,
)
    ensures
        button_step(h2, p2, button_step(h1, p1, was_down).2).1 <==> (h1 && p1 && h2 && !p2),
{
}

/// No two transport buttons are under the mouse at once, so a frame clicks
/// at most one of them.
pub proof fn lemma_one_button_at_a_time(mx: i32, my: i32, j: int, k: int)
    requires
        0 <= j < k < 4,
    ensures
        !(over(transport_rect(j), mx, my) && over(transport_rect(k), mx, my)),
{
}

// ---------------------------------------------------------------------------
// Wait time boxes
// ---------------------------------------------------------------------------

/// How a wait time box is drawn.
#[derive(Clone, Copy, Debug, PartialEq, Eq, Structural)]
pub enum ValueLook {
    Inactive,
    Hover,
    Active,
}

/// One frame of wait time box `field` before any text is stored: held down
/// over it, it is drawn active and remembered as down; released over it
/// after a press, typing into it starts with empty text; a box being typed
/// into is drawn active. Gives the look, whether it is now down, which box
/// is typed into, and whether the text is cleared.
pub open spec fn value_step(hovered: bool, pressed: bool, was_down: bool, capture: i32, field: i32) -> (
    ValueLook,
    bool,
    i32,
    bool,
) {
    if hovered {
        if pressed {
            (ValueLook::Active, true, capture, false)
        } else {
            (
                if capture == field {
                    ValueLook::Active
                } else {
                    ValueLook::Hover
                },
                false,
                if was_down {
                    field
                } else {
                    capture
                },
                was_down,
            )
        }
    } else {
        (
            if capture == field {
                ValueLook::Active
            } else {
                ValueLook::Inactive
            },
            false,
            capture,
            false,
        )
    }
}

/// What a wait time box shows: the text being typed into it, else the
/// stored wait time.
pub open spec fn shown_text(field: i32, capture: i32, text: Seq<char>, s: Settings) -> Seq<char> {
    if capture == field {
        text
    } else if field == 0 {
        wait_text(s.min_wait_time as nat)
    } else {
        wait_text(s.max_wait_time as nat)
    }
}

/// The length `str::len` reports for a text: its UTF-8 byte count (as a
/// `usize`).
pub open spec fn byte_len(s: Seq<char>) -> nat {
    (vstd::utf8::encode_utf8(s).len() as usize) as nat
}

/// Where text of `len` bytes is drawn in a box: one, two or three bytes
/// take a quarter, half or three quarters of the width, centred; longer
/// (or empty) text takes the whole box.
pub open spec fn text_rect(r: Rect, len: nat) -> Rect {
    let k: nat = if 1 <= len <= 3 {
        len
    } else {
        4
    };
    let scaled = r.w * k / 4;
    Rect { x: (r.x + (r.w - scaled) / 2) as i32, y: r.y, w: scaled as u32, h: r.h }
}

/// A wait time box in one frame.
pub struct FieldFrame {
    pub look: ValueLook,
    /// The text to draw (nothing is drawn for empty text).
    pub text: String,
    pub text_rect: Rect,
    /// What storing typed text did, when this step stored it.
    pub change: Option<SettingChange>,
}

/// The state around box `field` after its step: look, whether it is down,
/// which box is typed into, the typed text, the settings and what storing
/// did. A press away from the box while typing into any box stores the text
/// and ends typing.
pub open spec fn field_outcome(
    field: i32,
    hovered: bool,
    pressed: bool,
    was_down: bool,
    capture: i32,
    text: Seq<char>,
    s: Settings,
) -> (ValueLook, bool, i32, Seq<char>, Settings, Option<SettingChange>) {
    let (look, down, cap1, clear) = value_step(hovered, pressed, was_down, capture, field);
    let text1 = if clear {
        Seq::<char>::empty()
    } else {
        text
    };
    if pressed && !hovered && cap1 != -1 {
        let (s2, ch) = setting_applied(s, cap1, text1);
        (look, down, -1i32, text1, s2, Some(ch))
    } else {
        (look, down, cap1, text1, s, None)
    }
}

fn text_rect_of(r: Rect, len: usize) -> (t: Rect)
    requires
        r.w <= 10_000,
        r.x + r.w <= i32::MAX,
    ensures
        t == text_rect(r, len as nat),
{
    let k: u32 = if 1 <= len && len <= 3 {
        len as u32
    } else {
        4
    };
    assert(r.w * k <= 40_000) by (nonlinear_arith)
        requires
            r.w <= 10_000,
            k <= 4,
    ;
    let scaled: u32 = r.w * k / 4;
    assert(scaled <= r.w) by (nonlinear_arith)
        requires
            scaled == r.w * k / 4,
            k <= 4,
    ;
    Rect { x: r.x + ((r.w - scaled) / 2) as i32, y: r.y, w: scaled, h: r.h }
}

fn value_field(
    field: i32,
    last_button_states: &mut [bool; 6],
    mouse_x: i32,
    mouse_y: i32,
    mouse_pressed: bool,
    capture_text: &mut i32,
    captured_text: &mut String,
    settings: &mut Settings,
) -> (f: FieldFrame)
    requires
        0 <= field < 2,
        ({
            let (_, _, cap1, clear) = value_step(
                over(value_rect(field as int), mouse_x, mouse_y),
                mouse_pressed,
                old(last_button_states)@[4 + field],
                *old(capture_text),
                field,
            );
            mouse_pressed && !over(value_rect(field as int), mouse_x, mouse_y) && cap1 != -1
                ==> setting_text_ok(cap1, old(captured_text)@)
        }),
    ensures
        ({
            let (look, down, cap, text, s, ch) = field_outcome(
                field,
                over(value_rect(field as int), mouse_x, mouse_y),
                mouse_pressed,
                old(last_button_states)@[4 + field],
                *old(capture_text),
                old(captured_text)@,
                *old(settings),
            );
            &&& f.look == look
            &&& final(last_button_states)@ == old(last_button_states)@.update(4 + field, down)
            &&& *final(capture_text) == cap
            &&& final(captured_text)@ == text
            &&& *final(settings) == s
            &&& f.change == ch
            &&& f.text@ == shown_text(field, cap, text, s)
            &&& f.text_rect == text_rect(
                value_rect(field as int),
                byte_len(shown_text(field, cap, text, s)),
            )
        }),
{
    let rect = value_rect_of(field);
    let k: usize = 4 + field as usize;
    let over_box = hovered(rect, mouse_x, mouse_y);
    let look;
    if over_box {
        if mouse_pressed {
            look = ValueLook::Active;
            last_button_states[k] = true;
        } else {
            look = if *capture_text == field {
                ValueLook::Active
            } else {
                ValueLook::Hover
            };
            if last_button_states[k] {
                *capture_text = field;
                clear_string(captured_text);
            }
            last_button_states[k] = false;
        }
    } else {
        look = if *capture_text == field {
            ValueLook::Active
        } else {
            ValueLook::Inactive
        };
        last_button_states[k] = false;
    }
    let mut change = None;
    if mouse_pressed && !over_box && *capture_text != -1 {
        change = Some(set_setting(settings, *capture_text, captured_text));
        *capture_text = -1;
    }
    let text = if *capture_text == field {
        captured_text.clone()
    } else if field == 0 {
        format_wait_time(settings.min_wait_time)
    } else {
        format_wait_time(settings.max_wait_time)
    };
    let len = text.as_str().len();
    let text_rect = text_rect_of(rect, len);
    proof {
        assert(last_button_states@ =~= old(last_button_states)@.update(
            4 + field,
            last_button_states@[k as int],
        ));
    }
    FieldFrame { look, text, text_rect, change }
}

/// The two wait time boxes in one frame.
pub struct SettingsFrame {
    pub min: FieldFrame,
    pub max: FieldFrame,
}

/// Storing typed text in this frame is within `set_setting`'s contract:
/// a press while typing stores the text.
pub open spec fn settings_frame_ok(pressed: bool, capture: i32, text: Seq<char>) -> bool {
    pressed && capture != -1 ==> setting_text_ok(capture, text)
}

/// Runs the minimum and maximum wait time boxes for one frame, in that
/// order: clicking a box starts typing into it with empty text, pressing
/// anywhere else while typing stores the typed text and ends typing.
/// `last_button_states[4]` and `[5]` remember which box is held down.
pub fn present_settings(
    last_button_states: &mut [bool; 6],
    mouse_x: i32,
    mouse_y: i32,
    mouse_pressed: bool,
    capture_text: &mut i32,
    captured_text: &mut String,
    settings: &mut Settings,
) -> (f: SettingsFrame)
    requires
        settings_frame_ok(mouse_pressed, *old(capture_text), old(captured_text)@),
    ensures
        ({
            let (look0, down0, cap0, text0, s0, ch0) = field_outcome(
                0,
                over(value_rect(0), mouse_x, mouse_y),
                mouse_pressed,
                old(last_button_states)@[4],
                *old(capture_text),
                old(captured_text)@,
                *old(settings),
            );
            let (look1, down1, cap1, text1, s1, ch1) = field_outcome(
                1,
                over(value_rect(1), mouse_x, mouse_y),
                mouse_pressed,
                old(last_button_states)@[5],
                cap0,
                text0,
                s0,
            );
            &&& f.min.look == look0
            &&& f.min.change == ch0
            &&& f.min.text@ == shown_text(0, cap0, text0, s0)
            &&& f.min.text_rect == text_rect(
                value_rect(0),
                byte_len(shown_text(0, cap0, text0, s0)),
            )
            &&& f.max.look == look1
            &&& f.max.change == ch1
            &&& f.max.text@ == shown_text(1, cap1, text1, s1)
            &&& f.max.text_rect == text_rect(
                value_rect(1),
                byte_len(shown_text(1, cap1, text1, s1)),
            )
            &&& final(last_button_states)@ == old(last_button_states)@.update(4, down0).update(
                5,
                down1,
            )
            &&& *final(capture_text) == cap1
            &&& final(captured_text)@ == text1
            &&& *final(settings) == s1
        }),
{
    let min = value_field(
        0,
        last_button_states,
        mouse_x,
        mouse_y,
        mouse_pressed,
        capture_text,
        captured_text,
        settings,
    );
    let max = value_field(
        1,
        last_button_states,
        mouse_x,
        mouse_y,
        mouse_pressed,
        capture_text,
        captured_text,
        settings,
    );
    SettingsFrame { min, max }
}

/// A frame of the wait time boxes keeps the editor's state known: it types
/// into no box (-1), the minimum (0) or the maximum (1), and the typed text
/// is kept or cleared, never added to.
pub proof fn lemma_settings_frame_keeps_capture(
    hovered0: bool,
    hovered1: bool,
    pressed: bool,
    down0: bool,
    down1: bool,
    capture: i32,
    text: Seq<char>,
    s: Settings,
)
    requires
        -1 <= capture <= 1,
    ensures
        ({
            let (_, _, cap0, text0, s0, _) = field_outcome(
                0,
                hovered0,
                pressed,
                down0,
                capture,
                text,
                s,
            );
            let (_, _, cap1, text1, _, _) = field_outcome(1, hovered1, pressed, down1, cap0, text0, s0);
            &&& -1 <= cap1 <= 1
            &&& (text1 == text || text1 == Seq::<char>::empty())
        }),
{
}

// ---------------------------------------------------------------------------
// Laws in screen coordinates
// ---------------------------------------------------------------------------

/// Transport button `k` (play, stop, folder, reload) reacts inside the
/// square it is drawn in: x strictly between 265 + 110k and 365 + 110k, y
/// strictly between 100 and 200. It clicks when the mouse is released over
/// it after being held down over it in the frame before; it is held down
/// while pressed over it; it is drawn pressed, hovered or inactive.
pub proof fn lemma_transport_button(k: int, mx: i32, my: i32, pressed: bool, was_down: bool)
    requires
        0 <= k < 4,
    ensures
        ({
            let inside = 265 + 110 * k < mx < 365 + 110 * k && 100 < my < 200;
            let (look, clicked, down) = transport_step(k, mx, my, pressed, was_down);
            &&& over(transport_rect(k), mx, my) == inside
            &&& clicked == (inside && !pressed && was_down)
            &&& down == (inside && pressed)
            &&& look == (if !inside {
                ButtonLook::Inactive
            } else if pressed {
                ButtonLook::MouseDown
            } else {
                ButtonLook::Hover
            })
        }),
{
}

/// The minimum (`k == 0`) and maximum (`k == 1`) wait time boxes react
/// inside the rectangles they are drawn in: x strictly between 660 and 760,
/// y strictly between 250 + 65k and 300 + 65k.
pub proof fn lemma_value_box(k: int, mx: i32, my: i32)
    requires
        0 <= k < 2,
    ensures
        over(value_rect(k), mx, my) == (660 < mx < 760 && 250 + 65 * k < my < 300 + 65 * k),
{
}

/// One frame of a wait time box. Typing moves into the box only when the
/// mouse is released over it after being held down over it (and the text
/// then starts empty); a press away from the box while typing into any box
/// stores the typed text and ends typing; otherwise which box is typed into,
/// the text and the settings stay. The box is held down while pressed over
/// it, and drawn active while typed into or pressed, hovered when the mouse
/// rests over it, inactive otherwise.
pub proof fn lemma_value_box_frame(
    field: i32,
    hovered: bool,
    pressed: bool,
    was_down: bool,
    capture: i32,
    text: Seq<char>,
    s: Settings,
)
    ensures
        ({
            let (look, down, cap, text2, s2, ch) = field_outcome(
                field,
                hovered,
                pressed,
                was_down,
                capture,
                text,
                s,
            );
            &&& down == (hovered && pressed)
            &&& look == (if capture == field || (hovered && pressed) {
                ValueLook::Active
            } else if hovered {
                ValueLook::Hover
            } else {
                ValueLook::Inactive
            })
            &&& (!pressed && hovered && was_down) ==> cap == field && text2.len() == 0 && s2 == s
                && ch is None
            &&& (!pressed && !(hovered && was_down)) ==> cap == capture && text2 == text && s2
                == s && ch is None
            &&& (pressed && hovered) ==> cap == capture && text2 == text && s2 == s && ch is None
            &&& (pressed && !hovered && capture == -1) ==> cap == -1 && text2 == text && s2 == s
                && ch is None
            &&& (pressed && !hovered && capture != -1) ==> cap == -1 && text2 == text && (s2, ch)
                == (setting_applied(s, capture, text).0, Some(setting_applied(s, capture, text).1))
        }),
{
}

/// What a wait time box shows: the typed text while it is typed into, else
/// its stored wait time as seconds.
pub proof fn lemma_shown_text(field: i32, capture: i32, text: Seq<char>, s: Settings)
    requires
        field == 0 || field == 1,
    ensures
        capture == field ==> shown_text(field, capture, text, s) == text,
        capture != field && field == 0 ==> shown_text(field, capture, text, s) == wait_text(
            s.min_wait_time as nat,
        ),
        capture != field && field == 1 ==> shown_text(field, capture, text, s) == wait_text(
            s.max_wait_time as nat,
        ),
{
}

/// Text in a 100-pixel-wide box: one, two or three bytes take 25, 50 or 75
/// pixels, centred (offset 37, 25, 12); any other length fills the box.
pub proof fn lemma_text_in_box(r: Rect, len: nat)
    requires
        r.w == 100,
        r.x + 100 <= i32::MAX,
    ensures
        text_rect(r, len).y == r.y,
        text_rect(r, len).h == r.h,
        len == 1 ==> text_rect(r, len).x == r.x + 37 && text_rect(r, len).w == 25,
        len == 2 ==> text_rect(r, len).x == r.x + 25 && text_rect(r, len).w == 50,
        len == 3 ==> text_rect(r, len).x == r.x + 12 && text_rect(r, len).w == 75,
        (len == 0 || len > 3) ==> text_rect(r, len).x == r.x && text_rect(r, len).w == 100,
{
}

} // verus!
