use vstd::prelude::*;

use crate::audio::{
    SampleFormat, copied_from, decode_i16_samples, decode_i32_samples, le_i16, le_i32, playable_format,
    setup_audio, AudioFormat, CopiedData, I16AudioCallback, I32AudioCallback, U8AudioCallback,
    WavData,
};
use crate::random::random_in_range;
use crate::settings::Settings;

verus! {

/// `a + b`, held at `u64::MAX` instead of overflowing.
pub open spec fn sat_add(a: u64, b: u64) -> u64 {
    if a + b > u64::MAX {
        u64::MAX
    } else {
        (a + b) as u64
    }
}

fn saturating_sum(a: u64, b: u64) -> (r: u64)
    ensures
        r == sat_add(a, b),
{
    if a > u64::MAX - b {
        u64::MAX
    } else {
        a + b
    }
}

/// The scheduler's state. Times are milliseconds on the caller's clock;
/// `chosen_wait == 0` means no start time has been drawn yet.
pub struct Player {
    pub currently_playing: bool,
    pub currently_playing_index: usize,
    pub started_at: u64,
    pub chosen_wait: u64,
    /// The track last loaded, kept after it ends.
    pub loaded_audio: Option<CopiedData>,
    /// Whether an output device is open for the current track.
    pub audio_device_open: bool,
}

/// What the caller has to do after a scheduler step.
#[derive(Clone, Copy, Debug, PartialEq, Eq, Structural)]
pub enum PlayerAction {
    /// Nothing outside the scheduler changes.
    Nothing,
    /// Load the track at this index of the list and hand it to
    /// `begin_playback`.
    StartTrack(usize),
    /// Pause and close the output device.
    StopDevice,
    /// The scheduler believes a track plays but none is loaded: report it.
    ReportNotLoaded,
}

/// When the loaded track ends: start time plus length.
pub open spec fn finish_time(p: Player) -> u64 {
    sat_add(p.started_at, p.loaded_audio.unwrap().length)
}

/// The step draws a wait: nothing plays and no start time is set yet, or
/// the playing track has ended.
pub open spec fn draws_wait(p: Player, now: u64) -> bool {
    ||| !p.currently_playing && p.chosen_wait == 0
    ||| p.currently_playing && p.loaded_audio is Some && now >= finish_time(p)
}

/// The step starts a track: nothing plays and the chosen start time has come.
pub open spec fn starts_track(p: Player, now: u64) -> bool {
    !p.currently_playing && p.chosen_wait != 0 && now >= p.chosen_wait
}

/// The state after stopping at `now` with a drawn wait of `wait`: nothing
/// plays, the device is closed, and the next start lies `wait` after `now`.
pub open spec fn stopped(p: Player, now: u64, wait: u64) -> Player {
    Player {
        currently_playing: false,
        audio_device_open: false,
        chosen_wait: sat_add(now, wait),
        ..p
    }
}

/// One scheduler step at `now`, given the wait and the track index that
/// were drawn (each is used only where the step draws it).
pub open spec fn updated(p: Player, now: u64, wait: u64, pick: usize) -> (Player, PlayerAction) {
    if !p.currently_playing {
        if p.chosen_wait == 0 {
            (Player { chosen_wait: sat_add(now, wait), ..p }, PlayerAction::Nothing)
        } else if now >= p.chosen_wait {
            (Player { started_at: now, chosen_wait: 0, ..p }, PlayerAction::StartTrack(pick))
        } else {
            (p, PlayerAction::Nothing)
        }
    } else {
        match p.loaded_audio {
            Some(_) => {
                if now >= finish_time(p) {
                    (stopped(p, now, wait), PlayerAction::StopDevice)
                } else {
                    (p, PlayerAction::Nothing)
                }
            },
            None => (p, PlayerAction::ReportNotLoaded),
        }
    }
}

/// A draw the step may have made: a wait from the settings' range where a
/// wait is drawn, an index into the list where a track starts.
pub open spec fn fair_draw(
    p: Player,
    now: u64,
    settings: Settings,
    track_count: usize,
    wait: u64,
    pick: usize,
) -> bool {
    &&& draws_wait(p, now) ==> settings.min_wait_time <= wait < settings.max_wait_time
    &&& starts_track(p, now) ==> pick < track_count
}

impl Player {
    /// A scheduler that plays nothing and has not drawn a start time yet.
    pub fn new() -> (p: Player)
        ensures
            !p.currently_playing,
            p.currently_playing_index == 0,
            p.started_at == 0,
            p.chosen_wait == 0,
            p.loaded_audio is None,
            !p.audio_device_open,
    {
        Player {
            currently_playing: false,
            currently_playing_index: 0,
            started_at: 0,
            chosen_wait: 0,
            loaded_audio: None,
            audio_device_open: false,
        }
    }
}

/// Stops the current track at `now`, with `wait` as the drawn wait before
/// the next one.
pub fn stop_audio_with(player: &mut Player, now: u64, wait: u64)
    ensures
        *final(player) == stopped(*old(player), now, wait),
{
    player.audio_device_open = false;
    player.currently_playing = false;
    player.chosen_wait = saturating_sum(now, wait);
}

/// Stops the current track at `now` and draws when the next one starts:
/// between the minimum and the maximum wait after `now`.
pub fn stop_audio(player: &mut Player, settings: &Settings, now: u64)
    requires
        settings.wait_range_ok(),
    ensures
        exists|w: u64|
            settings.min_wait_time <= w < settings.max_wait_time && *final(player) == stopped(
                *old(player),
                now,
                w,
            ),
{
    let wait = random_in_range(settings.min_wait_time, settings.max_wait_time);
    stop_audio_with(player, now, wait);
}

/// One scheduler step at `now` with the given draws: draws the next start
/// time when none is set, starts a track when that time has come, stops the
/// playing track when it has ended.
pub fn update_with(player: &mut Player, now: u64, wait: u64, pick: usize) -> (a: PlayerAction)
    ensures
        (*final(player), a) == updated(*old(player), now, wait, pick),
{
    if !player.currently_playing {
        if player.chosen_wait == 0 {
            player.chosen_wait = saturating_sum(now, wait);
            return PlayerAction::Nothing;
        }
        if now >= player.chosen_wait {
            player.started_at = now;
            player.chosen_wait = 0;
            return PlayerAction::StartTrack(pick);
        }
        PlayerAction::Nothing
    } else {
        let finish = match &player.loaded_audio {
            Some(existing_audio) => saturating_sum(player.started_at, existing_audio.length),
            None => {
                return PlayerAction::ReportNotLoaded;
            },
        };
        if now >= finish {
            stop_audio_with(player, now, wait);
            PlayerAction::StopDevice
        } else {
            PlayerAction::Nothing
        }
    }
}

/// Whether a step at `now` draws a wait (so needs a non-empty wait range).
pub fn will_draw_wait(player: &Player, now: u64) -> (r: bool)
    ensures
        r == draws_wait(*player, now),
{
    if !player.currently_playing {
        player.chosen_wait == 0
    } else {
        match &player.loaded_audio {
            Some(existing_audio) => now >= saturating_sum(player.started_at, existing_audio.length),
            None => false,
        }
    }
}

/// Whether a step at `now` starts a track (so needs a non-empty list).
pub fn will_start_track(player: &Player, now: u64) -> (r: bool)
    ensures
        r == starts_track(*player, now),
{
    !player.currently_playing && player.chosen_wait != 0 && now >= player.chosen_wait
}

/// One scheduler step at `now`, drawing the wait from the settings' range
/// and the track from the `track_count` loaded ones where the step needs them.
pub fn update(player: &mut Player, settings: &Settings, now: u64, track_count: usize) -> (a:
    PlayerAction)
    requires
        draws_wait(*old(player), now) ==> settings.wait_range_ok(),
        starts_track(*old(player), now) ==> track_count > 0,
    ensures
        exists|w: u64, k: usize|
            fair_draw(*old(player), now, *settings, track_count, w, k) && (*final(player), a)
                == updated(*old(player), now, w, k),
{
    let ghost p0 = *player;
    let mut wait: u64 = 0;
    let mut pick: usize = 0;
    if will_draw_wait(player, now) {
        wait = random_in_range(settings.min_wait_time, settings.max_wait_time);
    }
    if will_start_track(player, now) {
        pick = random_in_range(0, track_count as u64) as usize;
    }
    let a = update_with(player, now, wait, pick);
    assert(fair_draw(p0, now, *settings, track_count, wait, pick));
    a
}

/// The callback that plays a sample layout.
pub enum SampleCallback {
    U8(U8AudioCallback),
    I16(I16AudioCallback),
    I32(I32AudioCallback),
}

/// What an output device for a track is opened with.
pub struct PlaybackSource {
    pub freq: i32,
    pub channels: u8,
    pub callback: SampleCallback,
}

/// `src` plays track `a` from its start: same rate and channels, and the
/// callback holds the track's samples read in its layout.
pub open spec fn plays_track(src: PlaybackSource, a: CopiedData) -> bool {
    &&& src.freq == a.freq
    &&& src.channels == a.channels
    &&& match src.callback {
        SampleCallback::U8(cb) => a.format == AudioFormat::U8 && cb.position == 0 && cb.bytes@
            == a.bytes@,
        SampleCallback::I16(cb) => {
            &&& a.format == AudioFormat::I16
            &&& cb.position == 0
            &&& cb.samples@.len() == a.bytes@.len() / 2
            &&& forall|i: int|
                0 <= i < cb.samples@.len() ==> #[trigger] cb.samples@[i] as int == le_i16(
                    a.bytes@[2 * i],
                    a.bytes@[2 * i + 1],
                )
        },
        SampleCallback::I32(cb) => {
            &&& a.format == AudioFormat::I32
            &&& cb.position == 0
            &&& cb.samples@.len() == a.bytes@.len() / 4
            &&& forall|i: int|
                0 <= i < cb.samples@.len() ==> #[trigger] cb.samples@[i] as int == le_i32(
                    a.bytes@[4 * i],
                    a.bytes@[4 * i + 1],
                    a.bytes@[4 * i + 2],
                    a.bytes@[4 * i + 3],
                )
        },
    }
}

/// What starting a track gave.
pub struct PlaybackStart {
    /// The file was read but its sample format cannot be played.
    pub unsupported_format: bool,
    /// What to open the output device with; `None` when no track is loaded.
    pub source: Option<PlaybackSource>,
}

/// The track loaded after reading a file for playback: a playable file
/// replaces it, anything else keeps the one loaded before.
pub open spec fn loaded_after(p: Player, wav: Option<WavData>) -> Option<CopiedData> {
    match wav {
        Some(w) => if playable_format(w.format) is Some {
            copied_from(w)
        } else {
            p.loaded_audio
        },
        None => p.loaded_audio,
    }
}

/// The state after handing the file read for track `index` to the player:
/// when a track is then loaded, it plays as track `index` on an open device.
pub open spec fn begun(p: Player, index: usize, wav: Option<WavData>) -> Player {
    let loaded = loaded_after(p, wav);
    if loaded is Some {
        Player {
            loaded_audio: loaded,
            currently_playing: true,
            audio_device_open: true,
            currently_playing_index: index,
            ..p
        }
    } else {
        Player { loaded_audio: loaded, ..p }
    }
}

/// The rest of starting track `index`, once the caller has read its file
/// (`None` when reading failed). A playable file replaces the loaded track;
/// whatever track is then loaded (possibly an earlier one) starts playing.
pub fn begin_playback(player: &mut Player, index: usize, wav: Option<WavData>) -> (r:
    PlaybackStart)
    requires
        wav matches Some(w) ==> w.freq >= 0,
    ensures
        *final(player) == begun(*old(player), index, wav),
        r.unsupported_format == (wav matches Some(w) && playable_format(w.format) is None),
        match final(player).loaded_audio {
            Some(a) => r.source matches Some(src) && plays_track(src, a),
            None => r.source is None,
        },
{
    let mut unsupported_format = false;
    match wav {
        Some(w) => {
            let stored = setup_audio(w, &mut player.loaded_audio);
            unsupported_format = !stored;
        },
        None => {},
    }
    let source = match &player.loaded_audio {
        Some(existing_audio) => {
            let callback = match existing_audio.format {
                AudioFormat::U8 => {
                    let bytes = existing_audio.bytes.clone();
                    assert(bytes@ =~= existing_audio.bytes@);
                    SampleCallback::U8(U8AudioCallback { bytes, position: 0 })
                },
                AudioFormat::I16 => {
                    let samples = decode_i16_samples(&existing_audio.bytes);
                    SampleCallback::I16(I16AudioCallback { samples, position: 0 })
                },
                AudioFormat::I32 => {
                    let samples = decode_i32_samples(&existing_audio.bytes);
                    SampleCallback::I32(I32AudioCallback { samples, position: 0 })
                },
            };
            Some(
                PlaybackSource {
                    freq: existing_audio.freq,
                    channels: existing_audio.channels,
                    callback,
                },
            )
        },
        None => None,
    };
    if source.is_some() {
        player.audio_device_open = true;
        player.currently_playing = true;
        player.currently_playing_index = index;
    }
    PlaybackStart { unsupported_format, source }
}

// ---------------------------------------------------------------------------
// Laws of the scheduler
// ---------------------------------------------------------------------------

/// After a stop, the next track is due between the minimum and the maximum
/// wait after the stop (held at the end of the clock), and never before it.
pub proof fn lemma_stop_schedules_next(p: Player, now: u64, wait: u64, settings: Settings)
    requires
        settings.min_wait_time <= wait < settings.max_wait_time,
    ensures
        !stopped(p, now, wait).currently_playing,
        !stopped(p, now, wait).audio_device_open,
        sat_add(now, settings.min_wait_time) <= stopped(p, now, wait).chosen_wait,
        stopped(p, now, wait).chosen_wait <= sat_add(now, (settings.max_wait_time - 1) as u64),
        stopped(p, now, wait).chosen_wait >= now,
{
}

/// A step starts a track only when nothing plays and the chosen start time
/// has come; the track's start is then that step's time.
pub proof fn lemma_start_only_when_due(p: Player, now: u64, wait: u64, pick: usize)
    ensures
        updated(p, now, wait, pick).1 is StartTrack ==> {
            &&& !p.currently_playing
            &&& p.chosen_wait != 0
            &&& now >= p.chosen_wait
            &&& updated(p, now, wait, pick).1 == PlayerAction::StartTrack(pick)
            &&& updated(p, now, wait, pick).0.started_at == now
            &&& updated(p, now, wait, pick).0.chosen_wait == 0
        },
{
}

/// A step stops the playing track only once it has played its full length.
pub proof fn lemma_stop_only_when_finished(p: Player, now: u64, wait: u64, pick: usize)
    ensures
        updated(p, now, wait, pick).1 is StopDevice ==> {
            &&& p.currently_playing
            &&& p.loaded_audio is Some
            &&& now >= finish_time(p)
            &&& updated(p, now, wait, pick).0 == stopped(p, now, wait)
        },
{
}

/// A track that is due and whose file is playable plays from the step's
/// time on, as the track that was picked, until its length has passed.
pub proof fn lemma_due_track_plays(p: Player, now: u64, wait: u64, pick: usize, wav: WavData)
    requires
        starts_track(p, now),
        playable_format(wav.format) is Some,
    ensures
        ({
            let q = begun(updated(p, now, wait, pick).0, pick, Some(wav));
            &&& q.currently_playing
            &&& q.audio_device_open
            &&& q.currently_playing_index == pick
            &&& q.started_at == now
            &&& q.loaded_audio == copied_from(wav)
            &&& finish_time(q) == sat_add(now, copied_from(wav).unwrap().length)
        }),
{
}

/// While a track plays and has not reached its end, steps leave the state
/// unchanged.
pub proof fn lemma_playing_until_finished(p: Player, now: u64, wait: u64, pick: usize)
    requires
        p.currently_playing,
        p.loaded_audio is Some,
        now < finish_time(p),
    ensures
        updated(p, now, wait, pick) == (p, PlayerAction::Nothing),
{
}

/// The state after the first `k` of a run of steps at times `ts`, with
/// the draws `waits` and `picks` (one of each per step).
pub open spec fn state_after(
    p: Player,
    ts: Seq<u64>,
    waits: Seq<u64>,
    picks: Seq<usize>,
    k: nat,
) -> Player
    decreases k,
{
    if k == 0 {
        p
    } else {
        updated(
            state_after(p, ts, waits, picks, (k - 1) as nat),
            ts[k - 1],
            waits[k - 1],
            picks[k - 1],
        ).0
    }
}

/// What step `k` of a run asks the caller to do.
pub open spec fn action_at(p: Player, ts: Seq<u64>, waits: Seq<u64>, picks: Seq<usize>, k: nat) -> PlayerAction {
    updated(state_after(p, ts, waits, picks, k), ts[k as int], waits[k as int], picks[k as int]).1
}

proof fn lemma_idle_until_due(p: Player, ts: Seq<u64>, waits: Seq<u64>, picks: Seq<usize>, k: nat)
    requires
        !p.currently_playing,
        p.chosen_wait != 0,
        k <= ts.len(),
        forall|j: int| 0 <= j < k ==> ts[j] < p.chosen_wait,
    ensures
        state_after(p, ts, waits, picks, k) == p,
    decreases k,
{
    if k > 0 {
        lemma_idle_until_due(p, ts, waits, picks, (k - 1) as nat);
    }
}

proof fn first_due_step(ts: Seq<u64>, c: int, k: int) -> (i: int)
    requires
        0 <= k < ts.len(),
        ts.last() >= c,
        forall|j: int| 0 <= j < k ==> ts[j] < c,
    ensures
        k <= i < ts.len(),
        ts[i] >= c,
        forall|j: int| 0 <= j < i ==> ts[j] < c,
    decreases ts.len() - k,
{
    if ts[k] >= c {
        k
    } else {
        first_due_step(ts, c, k + 1)
    }
}

/// After a stop at `t0` (whether `update` found the track ended or a button
/// stopped it), with steps at most `d` milliseconds apart from `t0` on, no
/// track starts before the minimum wait has passed, and the first step at or
/// after the drawn start time starts one: by the maximum wait plus one step.
/// Until then every step does nothing. (A stop at time 0 with a zero wait is
/// left out: a start time of 0 means that none has been drawn.)
pub proof fn lemma_next_track_within_wait(
    q: Player,
    t0: u64,
    w: u64,
    settings: Settings,
    d: nat,
    ts: Seq<u64>,
    waits: Seq<u64>,
    picks: Seq<usize>,
)
    requires
        settings.min_wait_time <= w < settings.max_wait_time,
        t0 + settings.max_wait_time <= u64::MAX,
        t0 + w > 0,
        ts.len() > 0,
        waits.len() == ts.len(),
        picks.len() == ts.len(),
        t0 <= ts[0] <= t0 + d,
        forall|j: int| 0 <= j < ts.len() - 1 ==> ts[j] <= #[trigger] ts[j + 1] <= ts[j] + d,
        ts.last() >= t0 + settings.max_wait_time,
    ensures
        exists|i: int|
            0 <= i < ts.len() && action_at(stopped(q, t0, w), ts, waits, picks, i as nat)
                == PlayerAction::StartTrack(picks[i]) && (forall|j: int|
                0 <= j < i ==> #[trigger] action_at(stopped(q, t0, w), ts, waits, picks, j as nat)
                    == PlayerAction::Nothing) && t0 + settings.min_wait_time <= ts[i] && ts[i]
                < t0 + settings.max_wait_time + d,
{
    let p = stopped(q, t0, w);
    let c = p.chosen_wait;
    assert(c == t0 + w);
    let i = first_due_step(ts, c as int, 0);
    lemma_idle_until_due(p, ts, waits, picks, i as nat);
    assert forall|j: int| 0 <= j < i implies #[trigger] action_at(p, ts, waits, picks, j as nat)
        == PlayerAction::Nothing by {
        lemma_idle_until_due(p, ts, waits, picks, j as nat);
    }
    assert(action_at(p, ts, waits, picks, i as nat) == PlayerAction::StartTrack(picks[i]));
    if i > 0 {
        assert(ts[i - 1] < c);
        assert(ts[(i - 1) + 1] <= ts[i - 1] + d);
    }
}

// ---------------------------------------------------------------------------
// Laws of one step, in plain arithmetic
// ---------------------------------------------------------------------------

/// A playing track whose length has passed (at that moment or any later
/// step) is stopped: the step reports `StopDevice`, nothing plays, the
/// device is closed, the next start lies the drawn wait after the step
/// (held at the end of the clock), and the rest of the state is kept.
pub proof fn lemma_ended_track_stops(p: Player, now: u64, wait: u64, pick: usize)
    requires
        p.currently_playing,
        p.loaded_audio is Some,
        now as int >= (if p.started_at + p.loaded_audio.unwrap().length > u64::MAX {
            u64::MAX as int
        } else {
            p.started_at + p.loaded_audio.unwrap().length
        }),
    ensures
        ({
            let (q, a) = updated(p, now, wait, pick);
            &&& a == PlayerAction::StopDevice
            &&& !q.currently_playing
            &&& !q.audio_device_open
            &&& q.chosen_wait as int == (if now + wait > u64::MAX {
                u64::MAX as int
            } else {
                now + wait
            })
            &&& q.started_at == p.started_at
            &&& q.currently_playing_index == p.currently_playing_index
            &&& q.loaded_audio == p.loaded_audio
        }),
{
}

/// A playing track whose length has not passed keeps playing: the step
/// does nothing.
pub proof fn lemma_unended_track_plays_on(p: Player, now: u64, wait: u64, pick: usize)
    requires
        p.currently_playing,
        p.loaded_audio is Some,
        (now as int) < p.started_at + p.loaded_audio.unwrap().length,
        (now as int) < u64::MAX,
    ensures
        updated(p, now, wait, pick) == (p, PlayerAction::Nothing),
{
}

/// With nothing playing and no start time drawn, a step draws one: the
/// wait after the step (held at the end of the clock), and nothing else
/// changes.
pub proof fn lemma_idle_step_draws_start(p: Player, now: u64, wait: u64, pick: usize)
    requires
        !p.currently_playing,
        p.chosen_wait == 0,
    ensures
        ({
            let (q, a) = updated(p, now, wait, pick);
            &&& a == PlayerAction::Nothing
            &&& q.chosen_wait as int == (if now + wait > u64::MAX {
                u64::MAX as int
            } else {
                now + wait
            })
            &&& q == Player { chosen_wait: q.chosen_wait, ..p }
        }),
{
}

/// With nothing playing and a start time drawn, a step at or after it
/// starts the picked track from this step's time and clears the start
/// time; a step before it does nothing.
pub proof fn lemma_waiting_step(p: Player, now: u64, wait: u64, pick: usize)
    requires
        !p.currently_playing,
        p.chosen_wait != 0,
    ensures
        now >= p.chosen_wait ==> updated(p, now, wait, pick) == (
            Player { started_at: now, chosen_wait: 0, ..p },
            PlayerAction::StartTrack(pick),
        ),
        now < p.chosen_wait ==> updated(p, now, wait, pick) == (p, PlayerAction::Nothing),
{
}

/// A step that believes a track plays but has none loaded changes nothing
/// and asks for the fault to be reported.
pub proof fn lemma_playing_without_track(p: Player, now: u64, wait: u64, pick: usize)
    requires
        p.currently_playing,
        p.loaded_audio is None,
    ensures
        updated(p, now, wait, pick) == (p, PlayerAction::ReportNotLoaded),
{
}

/// Stopping closes the device, ends playing and sets the next start the
/// wait after `now` (held at the end of the clock); nothing else changes.
pub proof fn lemma_stop_state(p: Player, now: u64, wait: u64)
    ensures
        ({
            let q = stopped(p, now, wait);
            &&& !q.currently_playing
            &&& !q.audio_device_open
            &&& q.chosen_wait as int == (if now + wait > u64::MAX {
                u64::MAX as int
            } else {
                now + wait
            })
            &&& q.started_at == p.started_at
            &&& q.currently_playing_index == p.currently_playing_index
            &&& q.loaded_audio == p.loaded_audio
        }),
{
}

/// Handing a file to the player: a playable file becomes the loaded track;
/// an unplayable one, or none, keeps the track loaded before. When a track
/// is then loaded, it plays as track `index` on an open device; otherwise
/// nothing changes but the loaded track. Start and wait times are kept.
pub proof fn lemma_begin_state(p: Player, index: usize, wav: Option<WavData>)
    ensures
        ({
            let q = begun(p, index, wav);
            &&& q.loaded_audio == (match wav {
                Some(w) => if w.format == SampleFormat::U8 || w.format == SampleFormat::S16LSB
                    || w.format == SampleFormat::S16MSB || w.format == SampleFormat::S32LSB
                    || w.format == SampleFormat::S32MSB {
                    copied_from(w)
                } else {
                    p.loaded_audio
                },
                None => p.loaded_audio,
            })
            &&& q.started_at == p.started_at
            &&& q.chosen_wait == p.chosen_wait
            &&& q.loaded_audio is Some ==> q.currently_playing && q.audio_device_open
                && q.currently_playing_index == index
            &&& q.loaded_audio is None ==> q.currently_playing == p.currently_playing
                && q.audio_device_open == p.audio_device_open && q.currently_playing_index
                == p.currently_playing_index
        }),
{
}

/// What a track is played with: its own rate and channels, and from its
/// start either its bytes as they are (8-bit), or its bytes read two or
/// four at a time, little end first, as signed samples (16- and 32-bit).
pub proof fn lemma_playback_layout(src: PlaybackSource, a: CopiedData)
    requires
        plays_track(src, a),
    ensures
        src.freq == a.freq,
        src.channels == a.channels,
        a.format == AudioFormat::U8 ==> (src.callback matches SampleCallback::U8(cb) && cb.position
            == 0 && cb.bytes@ == a.bytes@),
        a.format == AudioFormat::I16 ==> (src.callback matches SampleCallback::I16(cb) && cb.position
            == 0 && cb.samples@.len() == a.bytes@.len() / 2 && forall|i: int|
            0 <= i < cb.samples@.len() ==> -0x8000 <= #[trigger] cb.samples@[i] < 0x8000 && (
            a.bytes@[2 * i] + 0x100 * a.bytes@[2 * i + 1] - cb.samples@[i]) % 0x1_0000 == 0),
        a.format == AudioFormat::I32 ==> (src.callback matches SampleCallback::I32(cb) && cb.position
            == 0 && cb.samples@.len() == a.bytes@.len() / 4 && forall|i: int|
            0 <= i < cb.samples@.len() ==> (a.bytes@[4 * i] + 0x100 * a.bytes@[4 * i + 1] + 0x1_0000
                * a.bytes@[4 * i + 2] + 0x100_0000 * a.bytes@[4 * i + 3] - #[trigger] cb.samples@[i])
                % 0x1_0000_0000 == 0),
{
    match src.callback {
        SampleCallback::I16(cb) => {
            assert forall|i: int| 0 <= i < cb.samples@.len() implies -0x8000 <= #[trigger] cb.samples@[i]
                < 0x8000 && (a.bytes@[2 * i] + 0x100 * a.bytes@[2 * i + 1] - cb.samples@[i])
                % 0x1_0000 == 0 by {
                crate::audio::lemma_le_i16(a.bytes@[2 * i], a.bytes@[2 * i + 1]);
            }
        },
        SampleCallback::I32(cb) => {
            assert forall|i: int| 0 <= i < cb.samples@.len() implies (a.bytes@[4 * i] + 0x100
                * a.bytes@[4 * i + 1] + 0x1_0000 * a.bytes@[4 * i + 2] + 0x100_0000 * a.bytes@[4
                * i + 3] - #[trigger] cb.samples@[i]) % 0x1_0000_0000 == 0 by {
                crate::audio::lemma_le_i32(
                    a.bytes@[4 * i],
                    a.bytes@[4 * i + 1],
                    a.bytes@[4 * i + 2],
                    a.bytes@[4 * i + 3],
                );
            }
        },
        _ => {},
    }
}

} // verus!
