use vstd::prelude::*;

use crate::player::{stop_audio, stopped, Player};
use crate::settings::{
    is_decimal, is_digit, lemma_plain_decimal, set_setting, setting_applied, setting_text_ok, SettingChange,
    Settings,
};
use crate::text::{pop_char, push_char, text_contains};

verus! {

/// The error type the button handlers report in, `std::io::Error`; Verus
/// sees nothing inside a value of it.
#[verifier::external_type_specification]
#[verifier::external_body]
pub struct ExIoError(std::io::Error);

// ---------------------------------------------------------------------------
// Buttons
// ---------------------------------------------------------------------------

/// The play button: playing resumes, and whatever track plays is stopped so
/// that a fresh wait before the next one is drawn from `now`.
pub fn play_button(player: &mut Player, play: &mut bool, settings: &Settings, now: u64) -> (r:
    Result<(), std::io::Error>)
    requires
        settings.wait_range_ok(),
    ensures
        *final(play),
        exists|w: u64|
            settings.min_wait_time <= w < settings.max_wait_time && *final(player) == stopped(
                *old(player),
                now,
                w,
            ),
        r is Ok,
{
    *play = true;
    stop_audio(player, settings, now);
    Ok(())
}

/// The stop button: playing pauses; a track that is playing on an open
/// device is stopped (and a wait drawn as for any stop).
pub fn stop_button(player: &mut Player, play: &mut bool, settings: &Settings, now: u64) -> (r:
    Result<(), std::io::Error>)
    requires
        old(player).audio_device_open ==> settings.wait_range_ok(),
    ensures
        !*final(play),
        old(player).audio_device_open ==> exists|w: u64|
            settings.min_wait_time <= w < settings.max_wait_time && *final(player) == stopped(
                *old(player),
                now,
                w,
            ),
        !old(player).audio_device_open ==> *final(player) == *old(player),
        r is Ok,
{
    *play = false;
    if player.audio_device_open {
        stop_audio(player, settings, now);
    }
    Ok(())
}

/// The reload button: the list of tracks becomes the fresh directory
/// listing the caller has read.
pub fn reload_button<T>(loaded_audio_paths: &mut Vec<T>, listing: Vec<T>) -> (r: Result<
    (),
    std::io::Error,
>)
    ensures
        final(loaded_audio_paths)@ == listing@,
        r is Ok,
{
    *loaded_audio_paths = listing;
    Ok(())
}

// ---------------------------------------------------------------------------
// Typing a setting
// ---------------------------------------------------------------------------

/// The keys the settings editor reacts to; every other key is `Other`.
#[derive(Clone, Copy, Debug, PartialEq, Eq, Structural)]
pub enum Key {
    Num0,
    Num1,
    Num2,
    Num3,
    Num4,
    Num5,
    Num6,
    Num7,
    Num8,
    Num9,
    Period,
    Escape,
    Return,
    Backspace,
    Other,
}

/// The character a key types into a wait time: a digit, or a point when the
/// text has none yet.
pub open spec fn typed_char(keycode: Option<Key>, text: Seq<char>) -> Option<char> {
    match keycode {
        Some(Key::Num0) => Some('0'),
        Some(Key::Num1) => Some('1'),
        Some(Key::Num2) => Some('2'),
        Some(Key::Num3) => Some('3'),
        Some(Key::Num4) => Some('4'),
        Some(Key::Num5) => Some('5'),
        Some(Key::Num6) => Some('6'),
        Some(Key::Num7) => Some('7'),
        Some(Key::Num8) => Some('8'),
        Some(Key::Num9) => Some('9'),
        Some(Key::Period) => if text.contains('.') {
            None
        } else {
            Some('.')
        },
        _ => None,
    }
}

/// The character a key adds to the text being typed, if any.
pub fn get_input_char(keycode: Option<Key>, captured_text: &String) -> (r: Option<char>)
    ensures
        r == typed_char(keycode, captured_text@),
{
    match keycode {
        Some(Key::Num0) => Some('0'),
        Some(Key::Num1) => Some('1'),
        Some(Key::Num2) => Some('2'),
        Some(Key::Num3) => Some('3'),
        Some(Key::Num4) => Some('4'),
        Some(Key::Num5) => Some('5'),
        Some(Key::Num6) => Some('6'),
        Some(Key::Num7) => Some('7'),
        Some(Key::Num8) => Some('8'),
        Some(Key::Num9) => Some('9'),
        Some(Key::Period) => if text_contains(captured_text.as_str(), '.') {
            None
        } else {
            Some('.')
        },
        _ => None,
    }
}

/// The settings editor: which wait time is being typed (`-1` for none,
/// `0` for the minimum, `1` for the maximum) and the text typed so far.
pub struct TextCapture {
    pub capture_text: i32,
    pub captured_text: String,
}

/// The key ends typing: Escape or Return.
pub open spec fn is_commit_key(keycode: Option<Key>) -> bool {
    keycode == Some(Key::Escape) || keycode == Some(Key::Return)
}

/// A key press that `on_key_down` can take: ending typing hands the text to
/// `set_setting`, which needs a numeral for a real change.
pub open spec fn key_down_ok(capture: TextCapture, keycode: Option<Key>) -> bool {
    capture.capture_text != -1 && is_commit_key(keycode) ==> setting_text_ok(
        capture.capture_text,
        capture.captured_text@,
    )
}

impl TextCapture {
    /// Nothing is being typed.
    pub fn new() -> (c: TextCapture)
        ensures
            c.capture_text == -1,
            c.captured_text@.len() == 0,
    {
        TextCapture { capture_text: -1, captured_text: String::new() }
    }

    /// Whether a key press is within `on_key_down`'s contract.
    pub fn can_take_key(&self, keycode: Option<Key>) -> (r: bool)
        ensures
            r == key_down_ok(*self, keycode),
    {
        if self.capture_text != -1 && (keycode == Some(Key::Escape) || keycode == Some(
            Key::Return,
        )) {
            crate::settings::can_set_setting(self.capture_text, &self.captured_text)
        } else {
            true
        }
    }

    /// A key press while the window has focus. While a wait time is being
    /// typed, Escape and Return store it and end typing, Backspace removes
    /// the last character, and digits and one point are appended. Returns
    /// what storing did, when the key stored the text.
    pub fn on_key_down(&mut self, keycode: Option<Key>, settings: &mut Settings) -> (r: Option<
        SettingChange,
    >)
        requires
            key_down_ok(*old(self), keycode),
        ensures
            old(self).capture_text == -1 ==> r is None && *final(self) == *old(self)
                && *final(settings) == *old(settings),
            old(self).capture_text != -1 && is_commit_key(keycode) ==> {
                &&& r is Some
                &&& (*final(settings), r.unwrap()) == setting_applied(
                    *old(settings),
                    old(self).capture_text,
                    old(self).captured_text@,
                )
                &&& final(self).capture_text == -1
                &&& final(self).captured_text@ == old(self).captured_text@
            },
            old(self).capture_text != -1 && keycode == Some(Key::Backspace) ==> {
                &&& r is None
                &&& final(self).capture_text == old(self).capture_text
                &&& final(self).captured_text@ == (if old(self).captured_text@.len() > 0 {
                    old(self).captured_text@.drop_last()
                } else {
                    old(self).captured_text@
                })
                &&& *final(settings) == *old(settings)
            },
            old(self).capture_text != -1 && !is_commit_key(keycode) && keycode != Some(
                Key::Backspace,
            ) ==> {
                &&& r is None
                &&& final(self).capture_text == old(self).capture_text
                &&& final(self).captured_text@ == (match typed_char(
                    keycode,
                    old(self).captured_text@,
                ) {
                    Some(c) => old(self).captured_text@.push(c),
                    None => old(self).captured_text@,
                })
                &&& *final(settings) == *old(settings)
            },
    {
        if self.capture_text == -1 {
            return None;
        }
        if keycode == Some(Key::Escape) || keycode == Some(Key::Return) {
            let change = set_setting(settings, self.capture_text, &self.captured_text);
            self.capture_text = -1;
            Some(change)
        } else if keycode == Some(Key::Backspace) {
            if self.captured_text.as_str().unicode_len() > 0 {
                pop_char(&mut self.captured_text);
            }
            None
        } else {
            match get_input_char(keycode, &self.captured_text) {
                Some(c) => {
                    push_char(&mut self.captured_text, c);
                },
                None => {},
            }
            None
        }
    }
}

/// Text as the editor builds it: digits and at most one point.
pub open spec fn numeral_shape(s: Seq<char>) -> bool {
    &&& forall|i: int| 0 <= i < s.len() ==> is_digit(#[trigger] s[i]) || s[i] == '.'
    &&& forall|i: int, j: int|
        0 <= i < s.len() && 0 <= j < s.len() && #[trigger] s[i] == '.' && #[trigger] s[j] == '.'
            ==> i == j
}

/// Typing keeps the text to digits and at most one point: appending what a
/// key types, removing the last character, or clearing it.
pub proof fn lemma_typing_keeps_shape(s: Seq<char>, keycode: Option<Key>)
    requires
        numeral_shape(s),
    ensures
        numeral_shape(
            match typed_char(keycode, s) {
                Some(c) => s.push(c),
                None => s,
            },
        ),
        s.len() > 0 ==> numeral_shape(s.drop_last()),
        numeral_shape(Seq::<char>::empty()),
{
    match typed_char(keycode, s) {
        Some(c) => {
            let t = s.push(c);
            assert forall|i: int| 0 <= i < t.len() implies is_digit(#[trigger] t[i]) || t[i]
                == '.' by {
                if i < s.len() {
                    assert(t[i] == s[i]);
                }
            }
            assert forall|i: int, j: int|
                0 <= i < t.len() && 0 <= j < t.len() && #[trigger] t[i] == '.' && #[trigger] t[j]
                    == '.' implies i == j by {
                if c == '.' {
                    assert(!s.contains('.'));
                    if i < s.len() {
                        assert(t[i] == s[i]);
                    }
                    if j < s.len() {
                        assert(t[j] == s[j]);
                    }
                } else {
                    assert(i < s.len() && j < s.len());
                    assert(t[i] == s[i] && t[j] == s[j]);
                }
            }
        },
        None => {},
    }
    if s.len() > 0 {
        let t = s.drop_last();
        assert forall|i: int| 0 <= i < t.len() implies is_digit(#[trigger] t[i]) || t[i]
            == '.' by {
            assert(t[i] == s[i]);
        }
        assert forall|i: int, j: int|
            0 <= i < t.len() && 0 <= j < t.len() && #[trigger] t[i] == '.' && #[trigger] t[j]
                == '.' implies i == j by {
            assert(t[i] == s[i] && t[j] == s[j]);
        }
    }
}

/// Typed text can always be stored, except a lone point.
pub proof fn lemma_typed_text_stores(which: i32, s: Seq<char>)
    requires
        numeral_shape(s),
        s != seq!['.'],
    ensures
        setting_text_ok(which, s),
{
    if s.len() > 0 && !(exists|i: int| 0 <= i < s.len() && is_digit(#[trigger] s[i])) {
        assert(s[0] == '.');
        if s.len() > 1 {
            assert(s[1] == '.');
        }
        assert(s =~= seq!['.']);
    }
    if s.len() > 0 {
        assert(is_decimal(s));
        lemma_plain_decimal(s);
    }
}

/// What each key types: the digit keys their digits, the period key a
/// point exactly when the text has none yet (the empty text included), and
/// every other key nothing.
pub proof fn lemma_keys_type(keycode: Option<Key>, t: Seq<char>)
    ensures
        keycode == Some(Key::Period) ==> (typed_char(keycode, t) == Some('.') <==> (forall|i: int|
            0 <= i < t.len() ==> t[i] != '.')),
        keycode == Some(Key::Period) ==> (typed_char(keycode, t) is None <==> (exists|i: int|
            0 <= i < t.len() && t[i] == '.')),
        keycode == Some(Key::Num0) ==> typed_char(keycode, t) == Some('0'),
        keycode == Some(Key::Num1) ==> typed_char(keycode, t) == Some('1'),
        keycode == Some(Key::Num2) ==> typed_char(keycode, t) == Some('2'),
        keycode == Some(Key::Num3) ==> typed_char(keycode, t) == Some('3'),
        keycode == Some(Key::Num4) ==> typed_char(keycode, t) == Some('4'),
        keycode == Some(Key::Num5) ==> typed_char(keycode, t) == Some('5'),
        keycode == Some(Key::Num6) ==> typed_char(keycode, t) == Some('6'),
        keycode == Some(Key::Num7) ==> typed_char(keycode, t) == Some('7'),
        keycode == Some(Key::Num8) ==> typed_char(keycode, t) == Some('8'),
        keycode == Some(Key::Num9) ==> typed_char(keycode, t) == Some('9'),
        keycode is None || keycode == Some(Key::Escape) || keycode == Some(Key::Return)
            || keycode == Some(Key::Backspace) || keycode == Some(Key::Other) ==> typed_char(
            keycode,
            t,
        ) is None,
{
    if keycode == Some(Key::Period) {
        if !t.contains('.') {
            assert forall|i: int| 0 <= i < t.len() implies t[i] != '.' by {
                if t[i] == '.' {
                    assert(t.contains('.'));
                }
            }
        }
    }
}

} // verus!
