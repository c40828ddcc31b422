use vstd::prelude::*;

verus! {

// ---------------------------------------------------------------------------
// Sample formats
// ---------------------------------------------------------------------------

/// The sample formats a WAV file can come in, as the audio layer reports them.
#[derive(Clone, Copy, Debug, PartialEq, Eq, Structural)]
pub enum SampleFormat {
    U8,
    S8,
    U16LSB,
    U16MSB,
    S16LSB,
    S16MSB,
    S32LSB,
    S32MSB,
    F32LSB,
    F32MSB,
}

/// The three sample layouts the player can play.
#[derive(Clone, Copy, Debug, PartialEq, Eq, Structural)]
pub enum AudioFormat {
    U8,
    I16,
    I32,
}

/// The playable layout a file format maps to, if any: unsigned bytes, signed
/// 16-bit samples (either byte order), signed 32-bit samples (either byte order).
pub open spec fn playable_format(f: SampleFormat) -> Option<AudioFormat> {
    match f {
        SampleFormat::U8 => Some(AudioFormat::U8),
        SampleFormat::S16LSB | SampleFormat::S16MSB => Some(AudioFormat::I16),
        SampleFormat::S32LSB | SampleFormat::S32MSB => Some(AudioFormat::I32),
        _ => None,
    }
}

/// Width in bytes of one sample of a playable layout.
pub open spec fn sample_width(f: AudioFormat) -> nat {
    match f {
        AudioFormat::U8 => 1,
        AudioFormat::I16 => 2,
        AudioFormat::I32 => 4,
    }
}

/// Maps a file's sample format to the layout used for playback.
pub fn format_for(f: SampleFormat) -> (r: Option<AudioFormat>)
    ensures
        r == playable_format(f),
{
    match f {
        SampleFormat::U8 => Some(AudioFormat::U8),
        SampleFormat::S16LSB | SampleFormat::S16MSB => Some(AudioFormat::I16),
        SampleFormat::S32LSB | SampleFormat::S32MSB => Some(AudioFormat::I32),
        _ => None,
    }
}

/// Bytes per sample of a playable file format (1, 2 or 4).
pub fn bytes_per_sample(format: SampleFormat) -> (r: usize)
    requires
        playable_format(format) is Some,
    ensures
        r as nat == sample_width(playable_format(format).unwrap()),
        format == SampleFormat::U8 ==> r == 1,
        format == SampleFormat::S16LSB || format == SampleFormat::S16MSB ==> r == 2,
        format == SampleFormat::S32LSB || format == SampleFormat::S32MSB ==> r == 4,
{
    match format {
        SampleFormat::U8 => 1,
        SampleFormat::S16LSB | SampleFormat::S16MSB => 2,
        _ => 4,
    }
}

// ---------------------------------------------------------------------------
// Loaded tracks
// ---------------------------------------------------------------------------

/// What a WAV file holds once read: its format, rate, channel count and the
/// raw sample bytes.
pub struct WavData {
    pub format: SampleFormat,
    pub freq: i32,
    pub channels: u8,
    pub buffer: Vec<u8>,
}

/// A track ready to be played: its bytes, layout and length in milliseconds.
#[derive(Clone)]
pub struct CopiedData {
    pub bytes: Vec<u8>,
    pub position: usize,
    pub freq: i32,
    pub channels: u8,
    pub format: AudioFormat,
    /// Playing time in whole milliseconds; `u64::MAX` when the rate is zero
    /// (a track that never ends).
    pub length: u64,
}

/// The playing time, in whole milliseconds, of `total` bytes at
/// `per_second` bytes a second, capped at `u64::MAX`; a rate of zero gives
/// a track that never ends (`u64::MAX`).
pub open spec fn length_ms(total: nat, per_second: nat) -> nat {
    if per_second == 0 {
        u64::MAX as nat
    } else if total * 1000 / per_second > u64::MAX {
        u64::MAX as nat
    } else {
        total * 1000 / per_second
    }
}

/// Bytes a second of a file: rate times channels times sample width.
pub open spec fn bytes_per_second(wav: WavData, f: AudioFormat) -> nat {
    (wav.freq as nat) * (wav.channels as nat) * sample_width(f)
}

/// The track a WAV file gives, when its format is playable.
pub open spec fn copied_from(wav: WavData) -> Option<CopiedData> {
    match playable_format(wav.format) {
        Some(f) => Some(
            CopiedData {
                bytes: wav.buffer,
                position: 0,
                freq: wav.freq,
                channels: wav.channels,
                format: f,
                length: length_ms(wav.buffer@.len(), bytes_per_second(wav, f)) as u64,
            },
        ),
        None => None,
    }
}

/// Turns a freshly read WAV file into the loaded track. When the format is
/// playable the track replaces `loaded_audio` and `true` is returned; an
/// unplayable format leaves `loaded_audio` as it was and returns `false`.
pub fn setup_audio(wav: WavData, loaded_audio: &mut Option<CopiedData>) -> (stored: bool)
    requires
        wav.freq >= 0,
    ensures
        stored == (playable_format(wav.format) is Some),
        stored ==> *final(loaded_audio) == copied_from(wav),
        !stored ==> *final(loaded_audio) == *old(loaded_audio),
{
    let format = match format_for(wav.format) {
        Some(f) => f,
        None => {
            return false;
        },
    };
    let total_bytes = wav.buffer.len();
    let width = bytes_per_sample(wav.format);
    let rate: u64 = wav.freq as u64;
    let chans: u64 = wav.channels as u64;
    assert(rate * chans <= 0x7fff_ffff * 255) by (nonlinear_arith)
        requires
            rate <= 0x7fff_ffff,
            chans <= 255,
    ;
    let samples_per_second: u64 = rate * chans;
    let w: u64 = width as u64;
    assert(samples_per_second * w <= 0x7fff_ffff * 255 * 4) by (nonlinear_arith)
        requires
            samples_per_second <= 0x7fff_ffff * 255,
            w <= 4,
    ;
    let per_second: u64 = samples_per_second * w;
    let length: u64 = if per_second == 0 {
        u64::MAX
    } else {
        let scaled: u128 = total_bytes as u128 * 1000;
        let q: u128 = scaled / per_second as u128;
        if q > u64::MAX as u128 {
            u64::MAX
        } else {
            q as u64
        }
    };
    proof {
        assert(per_second as nat == bytes_per_second(wav, format)) by (nonlinear_arith)
            requires
                per_second == samples_per_second * w,
                samples_per_second == rate * chans,
                rate == wav.freq,
                chans == wav.channels,
                w == width,
                width as nat == sample_width(format),
                wav.freq >= 0,
                bytes_per_second(wav, format) == (wav.freq as nat) * (wav.channels as nat)
                    * sample_width(format),
        ;
    }
    let copied = CopiedData {
        bytes: wav.buffer,
        position: 0,
        freq: wav.freq,
        channels: wav.channels,
        format,
        length,
    };
    *loaded_audio = Some(copied);
    true
}

// ---------------------------------------------------------------------------
// Sample decoding
// ---------------------------------------------------------------------------

/// The signed 16-bit value of two little-endian bytes.
pub open spec fn le_i16(lo: u8, hi: u8) -> int {
    let u = lo + 256 * hi;
    if u >= 0x8000 {
        u - 0x1_0000
    } else {
        u
    }
}

/// The signed 32-bit value of four little-endian bytes.
pub open spec fn le_i32(b0: u8, b1: u8, b2: u8, b3: u8) -> int {
    let u = b0 + 0x100 * b1 + 0x1_0000 * b2 + 0x100_0000 * b3;
    if u >= 0x8000_0000 {
        u - 0x1_0000_0000
    } else {
        u
    }
}

/// Reads the bytes two at a time as little-endian signed 16-bit samples; a
/// trailing odd byte is dropped.
pub fn decode_i16_samples(bytes: &Vec<u8>) -> (samples: Vec<i16>)
    ensures
        samples@.len() == bytes@.len() / 2,
        forall|i: int|
            0 <= i < samples@.len() ==> #[trigger] samples@[i] as int == le_i16(
                bytes@[2 * i],
                bytes@[2 * i + 1],
            ),
{
    let len = bytes.len();
    let n = len / 2;
    let mut samples: Vec<i16> = Vec::new();
    let mut i: usize = 0;
    while i < n
        invariant
            len == bytes@.len(),
            n == len / 2,
            i <= n,
            samples@.len() == i,
            forall|j: int|
                0 <= j < i ==> #[trigger] samples@[j] as int == le_i16(
                    bytes@[2 * j],
                    bytes@[2 * j + 1],
                ),
        decreases n - i,
    {
        assert(2 * i + 1 < len) by (nonlinear_arith)
            requires
                i < n,
                n == len / 2,
        ;
        let lo = bytes[2 * i];
        let hi = bytes[2 * i + 1];
        let u: i32 = lo as i32 + hi as i32 * 256;
        let v: i32 = if u >= 0x8000 {
            u - 0x1_0000
        } else {
            u
        };
        samples.push(v as i16);
        i = i + 1;
    }
    samples
}

/// Reads the bytes four at a time as little-endian signed 32-bit samples;
/// up to three trailing bytes are dropped.
pub fn decode_i32_samples(bytes: &Vec<u8>) -> (samples: Vec<i32>)
    ensures
        samples@.len() == bytes@.len() / 4,
        forall|i: int|
            0 <= i < samples@.len() ==> #[trigger] samples@[i] as int == le_i32(
                bytes@[4 * i],
                bytes@[4 * i + 1],
                bytes@[4 * i + 2],
                bytes@[4 * i + 3],
            ),
{
    let len = bytes.len();
    let n = len / 4;
    let mut samples: Vec<i32> = Vec::new();
    let mut i: usize = 0;
    while i < n
        invariant
            len == bytes@.len(),
            n == len / 4,
            i <= n,
            samples@.len() == i,
            forall|j: int|
                0 <= j < i ==> #[trigger] samples@[j] as int == le_i32(
                    bytes@[4 * j],
                    bytes@[4 * j + 1],
                    bytes@[4 * j + 2],
                    bytes@[4 * j + 3],
                ),
        decreases n - i,
    {
        assert(4 * i + 3 < len) by (nonlinear_arith)
            requires
                i < n,
                n == len / 4,
        ;
        let b0 = bytes[4 * i];
        let b1 = bytes[4 * i + 1];
        let b2 = bytes[4 * i + 2];
        let b3 = bytes[4 * i + 3];
        let u: i64 = b0 as i64 + b1 as i64 * 0x100 + b2 as i64 * 0x1_0000 + b3 as i64
            * 0x100_0000;
        let v: i64 = if u >= 0x8000_0000 {
            u - 0x1_0000_0000
        } else {
            u
        };
        samples.push(v as i32);
        i = i + 1;
    }
    samples
}

// ---------------------------------------------------------------------------
// Playback callbacks
// ---------------------------------------------------------------------------

/// How many samples a callback asking for `wanted` takes from a track of
/// `total` samples that is at `position`.
pub open spec fn copy_count(total: nat, position: nat, wanted: nat) -> nat {
    let remaining = if position <= total {
        (total - position) as nat
    } else {
        0nat
    };
    if wanted <= remaining {
        wanted
    } else {
        remaining
    }
}

/// What a callback asking for `wanted` samples writes: the track from
/// `position` on, then silence for the rest of the buffer.
pub open spec fn callback_output<T>(samples: Seq<T>, position: nat, wanted: nat, silence: T) -> Seq<
    T,
> {
    let k = copy_count(samples.len(), position, wanted);
    Seq::new(wanted, |j: int| if j < k { samples[position + j] } else { silence })
}

/// Fills `data` with the samples from `position` on, as many as fit, and the
/// rest with `silence`; returns how many samples were taken from the track.
fn fill_from<T: Copy>(samples: &Vec<T>, position: usize, data: &mut [T], silence: T) -> (taken:
    usize)
    ensures
        taken as nat == copy_count(samples@.len(), position as nat, old(data)@.len()),
        final(data)@ == callback_output(samples@, position as nat, old(data)@.len(), silence),
{
    let remaining = samples.len().saturating_sub(position);
    let wanted = data.len();
    let to_copy = if wanted < remaining {
        wanted
    } else {
        remaining
    };
    let ghost old_len = data@.len();
    let total = samples.len();
    let mut i: usize = 0;
    while i < wanted
        invariant
            total == samples@.len(),
            wanted == data@.len(),
            wanted == old_len,
            to_copy == copy_count(samples@.len(), position as nat, wanted as nat),
            to_copy <= wanted,
            to_copy > 0 ==> position + to_copy <= total,
            i <= wanted,
            forall|j: int|
                0 <= j < i ==> #[trigger] data@[j] == (if j < to_copy {
                    samples@[position + j]
                } else {
                    silence
                }),
        decreases wanted - i,
    {
        if i < to_copy {
            data[i] = samples[position + i];
        } else {
            data[i] = silence;
        }
        i = i + 1;
    }
    assert(data@ =~= callback_output(samples@, position as nat, old_len, silence));
    to_copy
}

/// Plays unsigned 8-bit samples; pads with the midpoint 128 once the track ends.
pub struct U8AudioCallback {
    pub bytes: Vec<u8>,
    pub position: usize,
}

impl U8AudioCallback {
    /// Fills the device buffer from the current position and advances it.
    pub fn callback(&mut self, data: &mut [u8])
        ensures
            final(data)@ == callback_output(
                old(self).bytes@,
                old(self).position as nat,
                old(data)@.len(),
                128u8,
            ),
            final(self).bytes == old(self).bytes,
            final(self).position == old(self).position + copy_count(
                old(self).bytes@.len(),
                old(self).position as nat,
                old(data)@.len(),
            ),
    {
        let taken = fill_from(&self.bytes, self.position, data, 128u8);
        let total = self.bytes.len();
        proof {
            assert(taken == 0 || self.position + taken <= total);
        }
        self.position = self.position + taken;
    }
}

/// Plays signed 16-bit samples; pads with silence (0) once the track ends.
pub struct I16AudioCallback {
    pub samples: Vec<i16>,
    pub position: usize,
}

impl I16AudioCallback {
    /// Fills the device buffer from the current position and advances it.
    pub fn callback(&mut self, data: &mut [i16])
        ensures
            final(data)@ == callback_output(
                old(self).samples@,
                old(self).position as nat,
                old(data)@.len(),
                0i16,
            ),
            final(self).samples == old(self).samples,
            final(self).position == old(self).position + copy_count(
                old(self).samples@.len(),
                old(self).position as nat,
                old(data)@.len(),
            ),
    {
        let taken = fill_from(&self.samples, self.position, data, 0i16);
        let total = self.samples.len();
        proof {
            assert(taken == 0 || self.position + taken <= total);
        }
        self.position = self.position + taken;
    }
}

/// Plays signed 32-bit samples; pads with silence (0) once the track ends.
pub struct I32AudioCallback {
    pub samples: Vec<i32>,
    pub position: usize,
}

impl I32AudioCallback {
    /// Fills the device buffer from the current position and advances it.
    pub fn callback(&mut self, data: &mut [i32])
        ensures
            final(data)@ == callback_output(
                old(self).samples@,
                old(self).position as nat,
                old(data)@.len(),
                0i32,
            ),
            final(self).samples == old(self).samples,
            final(self).position == old(self).position + copy_count(
                old(self).samples@.len(),
                old(self).position as nat,
                old(data)@.len(),
            ),
    {
        let taken = fill_from(&self.samples, self.position, data, 0i32);
        let total = self.samples.len();
        proof {
            assert(taken == 0 || self.position + taken <= total);
        }
        self.position = self.position + taken;
    }
}

/// Two callbacks in a row write what one callback asking for both buffers'
/// worth would write: the track plays on without gaps or repeats, then
/// silence follows.
pub proof fn lemma_callbacks_stream<T>(samples: Seq<T>, position: nat, a: nat, b: nat, silence: T)
    ensures
        callback_output(samples, position, a, silence) + callback_output(
            samples,
            position + copy_count(samples.len(), position, a),
            b,
            silence,
        ) =~= callback_output(samples, position, a + b, silence),
{
    let ka = copy_count(samples.len(), position, a);
    let kb = copy_count(samples.len(), position + ka, b);
    let kab = copy_count(samples.len(), position, a + b);
    let lhs = callback_output(samples, position, a, silence) + callback_output(
        samples,
        position + ka,
        b,
        silence,
    );
    let rhs = callback_output(samples, position, a + b, silence);
    assert forall|i: int| 0 <= i < lhs.len() implies lhs[i] == rhs[i] by {
        if i >= a {
            let j = i - a;
            if ka == a {
                assert(samples[position + ka + j] == samples[position + i]);
            }
        }
    }
}

// ---------------------------------------------------------------------------
// Laws in plain arithmetic
// ---------------------------------------------------------------------------

/// Only unsigned 8-bit and signed 16- and 32-bit files play; they play as
/// 8-bit, 16-bit and 32-bit samples.
pub proof fn lemma_playable_formats(f: SampleFormat)
    ensures
        f == SampleFormat::U8 ==> playable_format(f) == Some(AudioFormat::U8),
        f == SampleFormat::S16LSB || f == SampleFormat::S16MSB ==> playable_format(f) == Some(
            AudioFormat::I16,
        ),
        f == SampleFormat::S32LSB || f == SampleFormat::S32MSB ==> playable_format(f) == Some(
            AudioFormat::I32,
        ),
        f == SampleFormat::S8 || f == SampleFormat::U16LSB || f == SampleFormat::U16MSB || f
            == SampleFormat::F32LSB || f == SampleFormat::F32MSB ==> playable_format(f) is None,
{
}

/// A loaded track keeps the file's bytes, rate and channels, starts at
/// position 0, and lasts the whole milliseconds its bytes take at
/// rate x channels x sample bytes (1, 2 or 4) a second: `length * rate <= bytes * 1000
/// < (length + 1) * rate` (held at `u64::MAX`; a rate of zero never ends).
pub proof fn lemma_track_length(wav: WavData)
    requires
        playable_format(wav.format) is Some,
        wav.freq >= 0,
    ensures
        ({
            let t = copied_from(wav).unwrap();
            let rate = (wav.freq as int) * (wav.channels as int) * (if wav.format == SampleFormat::U8 {
                1int
            } else if wav.format == SampleFormat::S16LSB || wav.format == SampleFormat::S16MSB {
                2int
            } else {
                4int
            });
            let total = wav.buffer@.len() as int;
            &&& t.bytes == wav.buffer
            &&& t.position == 0
            &&& t.freq == wav.freq
            &&& t.channels == wav.channels
            &&& t.format == playable_format(wav.format).unwrap()
            &&& rate == 0 ==> t.length == u64::MAX
            &&& rate > 0 && total * 1000 < (u64::MAX as int + 1) * rate ==> t.length * rate <= total
                * 1000 < (t.length + 1) * rate
            &&& rate > 0 && total * 1000 >= (u64::MAX as int + 1) * rate ==> t.length == u64::MAX
        }),
{
    let f = playable_format(wav.format).unwrap();
    let rate = (wav.freq as int) * (wav.channels as int) * (if wav.format == SampleFormat::U8 {
                1int
            } else if wav.format == SampleFormat::S16LSB || wav.format == SampleFormat::S16MSB {
                2int
            } else {
                4int
            });
    let total = wav.buffer@.len() as int;
    assert(sample_width(f) == (if wav.format == SampleFormat::U8 {
                1int
            } else if wav.format == SampleFormat::S16LSB || wav.format == SampleFormat::S16MSB {
                2int
            } else {
                4int
            }));
    assert(bytes_per_second(wav, f) == rate);
    if rate > 0 {
        let q = total * 1000 / rate;
        assert(q * rate <= total * 1000 < (q + 1) * rate) by (nonlinear_arith)
            requires
                rate > 0,
                q == total * 1000 / rate,
                total >= 0,
        ;
        if total * 1000 < (u64::MAX as int + 1) * rate {
            assert(q <= u64::MAX) by (nonlinear_arith)
                requires
                    q * rate <= total * 1000,
                    total * 1000 < (u64::MAX as int + 1) * rate,
                    rate > 0,
            ;
        } else {
            assert(q > u64::MAX) by (nonlinear_arith)
                requires
                    total * 1000 < (q + 1) * rate,
                    total * 1000 >= (u64::MAX as int + 1) * rate,
                    rate > 0,
            ;
        }
    }
}

/// The 16-bit sample of two bytes is the signed number congruent to
/// `lo + 256 * hi` modulo 2^16.
pub proof fn lemma_le_i16(lo: u8, hi: u8)
    ensures
        -0x8000 <= le_i16(lo, hi) < 0x8000,
        (lo + 256 * hi - le_i16(lo, hi)) % 0x1_0000 == 0,
{
}

/// The 32-bit sample of four bytes is the signed number congruent to
/// `b0 + 2^8 b1 + 2^16 b2 + 2^24 b3` modulo 2^32.
pub proof fn lemma_le_i32(b0: u8, b1: u8, b2: u8, b3: u8)
    ensures
        -0x8000_0000 <= le_i32(b0, b1, b2, b3) < 0x8000_0000,
        (b0 + 0x100 * b1 + 0x1_0000 * b2 + 0x100_0000 * b3 - le_i32(b0, b1, b2, b3))
            % 0x1_0000_0000 == 0,
{
}

/// A callback asking for `wanted` samples writes exactly that many: the
/// track's samples from `position` while the track lasts, silence after;
/// it takes as many samples as it wrote from the track.
pub proof fn lemma_callback_output<T>(samples: Seq<T>, position: nat, wanted: nat, silence: T)
    ensures
        callback_output(samples, position, wanted, silence).len() == wanted,
        forall|j: int|
            0 <= j < wanted ==> #[trigger] callback_output(samples, position, wanted, silence)[j]
                == (if position + j < samples.len() {
                samples[position + j]
            } else {
                silence
            }),
        copy_count(samples.len(), position, wanted) == (if position >= samples.len() {
            0
        } else if position + wanted <= samples.len() {
            wanted as int
        } else {
            samples.len() - position
        }),
{
}

} // verus!
