use backtune::audio::{
    bytes_per_sample, decode_i16_samples, decode_i32_samples, format_for, setup_audio,
    AudioFormat, I16AudioCallback, I32AudioCallback, SampleFormat, U8AudioCallback, WavData,
};

#[test]
fn playable_formats() {
    assert_eq!(format_for(SampleFormat::U8), Some(AudioFormat::U8));
    assert_eq!(format_for(SampleFormat::S16LSB), Some(AudioFormat::I16));
    assert_eq!(format_for(SampleFormat::S16MSB), Some(AudioFormat::I16));
    assert_eq!(format_for(SampleFormat::S32LSB), Some(AudioFormat::I32));
    assert_eq!(format_for(SampleFormat::S32MSB), Some(AudioFormat::I32));
    for f in [SampleFormat::S8, SampleFormat::U16LSB, SampleFormat::U16MSB, SampleFormat::F32LSB, SampleFormat::F32MSB] {
        assert_eq!(format_for(f), None);
    }
}

#[test]
fn sample_widths() {
    assert_eq!(bytes_per_sample(SampleFormat::U8), 1);
    assert_eq!(bytes_per_sample(SampleFormat::S16MSB), 2);
    assert_eq!(bytes_per_sample(SampleFormat::S32LSB), 4);
}

#[test]
fn track_length_in_milliseconds() {
    let wav = WavData { format: SampleFormat::S16LSB, freq: 44_100, channels: 2, buffer: vec![0; 176_400 + 200] };
    let mut loaded = None;
    assert!(setup_audio(wav, &mut loaded));
    let t = loaded.unwrap();
    assert_eq!(t.length, 1_001);
    assert_eq!(t.format, AudioFormat::I16);
    assert_eq!(t.position, 0);
    assert_eq!(t.freq, 44_100);
    assert_eq!(t.channels, 2);
    assert_eq!(t.bytes.len(), 176_600);
}

#[test]
fn zero_rate_never_ends() {
    let wav = WavData { format: SampleFormat::U8, freq: 0, channels: 1, buffer: vec![1, 2, 3] };
    let mut loaded = None;
    assert!(setup_audio(wav, &mut loaded));
    assert_eq!(loaded.unwrap().length, u64::MAX);
}

#[test]
fn unplayable_format_keeps_the_loaded_track() {
    let first = WavData { format: SampleFormat::U8, freq: 1_000, channels: 1, buffer: vec![9; 500] };
    let mut loaded = None;
    assert!(setup_audio(first, &mut loaded));
    let second = WavData { format: SampleFormat::F32MSB, freq: 1_000, channels: 1, buffer: vec![0; 4] };
    assert!(!setup_audio(second, &mut loaded));
    let t = loaded.unwrap();
    assert_eq!(t.length, 500);
    assert_eq!(t.bytes, vec![9; 500]);
}

#[test]
fn little_endian_16_bit_samples() {
    assert_eq!(decode_i16_samples(&vec![0x34, 0x12, 0xfe, 0xff, 0x00, 0x80, 0xff, 0x7f, 0x55]), vec![0x1234, -2, i16::MIN, i16::MAX]);
    assert_eq!(decode_i16_samples(&vec![]), Vec::<i16>::new());
}

#[test]
fn little_endian_32_bit_samples() {
    assert_eq!(decode_i32_samples(&vec![1, 0, 0, 0, 0xff, 0xff, 0xff, 0xff, 0xff, 0xff, 0xff, 0x7f, 1, 2, 3]), vec![1, -1, i32::MAX]);
}

#[test]
fn u8_callback_plays_then_pads_with_midpoint() {
    let mut cb = U8AudioCallback { bytes: vec![10, 20, 30], position: 0 };
    let mut buf = [0u8; 2];
    cb.callback(&mut buf);
    assert_eq!(buf, [10, 20]);
    assert_eq!(cb.position, 2);
    let mut buf = [0u8; 4];
    cb.callback(&mut buf);
    assert_eq!(buf, [30, 128, 128, 128]);
    assert_eq!(cb.position, 3);
    cb.callback(&mut buf);
    assert_eq!(buf, [128; 4]);
    assert_eq!(cb.position, 3);
}

#[test]
fn i16_callback_pads_with_silence() {
    let mut cb = I16AudioCallback { samples: vec![-5, 7], position: 1 };
    let mut buf = [99i16; 3];
    cb.callback(&mut buf);
    assert_eq!(buf, [7, 0, 0]);
    assert_eq!(cb.position, 2);
}

#[test]
fn i32_callback_past_the_end_is_silent() {
    let mut cb = I32AudioCallback { samples: vec![1, 2], position: 9 };
    let mut buf = [5i32; 2];
    cb.callback(&mut buf);
    assert_eq!(buf, [0, 0]);
    assert_eq!(cb.position, 9);
}

#[test]
fn two_callbacks_equal_one_longer() {
    let samples: Vec<i16> = (1..=7).collect();
    let mut a = I16AudioCallback { samples: samples.clone(), position: 0 };
    let mut b = I16AudioCallback { samples, position: 0 };
    let mut x = [0i16; 4];
    let mut y = [0i16; 6];
    a.callback(&mut x);
    a.callback(&mut y);
    let mut whole = [0i16; 10];
    b.callback(&mut whole);
    let joined: Vec<i16> = x.iter().chain(y.iter()).copied().collect();
    assert_eq!(joined, whole.to_vec());
    assert_eq!(a.position, b.position);
}
