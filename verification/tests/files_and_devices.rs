use synth_core::host::{channel_count, chunk_frames, spread, SynthError, DEFAULT_QUEUE_CAPACITY, MAX_SCRATCH};
use synth_core::wav::{mean_square, peak, sample_count, wav_bytes};
use synth_core::Single;

fn s(x: f32) -> Single {
    Single::from_bits(x.to_bits())
}

fn f(x: Single) -> f32 {
    f32::from_bits(x.to_bits())
}

fn many(xs: &[f32]) -> Vec<Single> {
    xs.iter().map(|x| s(*x)).collect()
}

#[test]
fn the_scratch_buffer_holds_a_full_stereo_block() {
    // The scratch now carries interleaved frames, so it needs room for
    // two samples per frame — and an odd length would split a frame.
    assert!(MAX_SCRATCH >= 16384);
    assert_eq!(MAX_SCRATCH % 2, 0);
}

#[test]
fn chunks_fit_the_scratch_buffer() {
    assert_eq!(chunk_frames(100, 2), 100);
    assert_eq!(chunk_frames(100_000, 2), 8192);
    assert_eq!(chunk_frames(100_000, 6), 8192);
    assert_eq!(chunk_frames(100_000, 1), 16384);
    assert_eq!(chunk_frames(0, 1), 0);
    assert_eq!(channel_count(0), 1);
    assert_eq!(channel_count(6), 6);
    assert_eq!(DEFAULT_QUEUE_CAPACITY, 1024);
}

#[test]
fn a_stereo_block_is_spread_over_the_channels() {
    let block = many(&[0.1, 0.2, 0.5, 0.7]);
    let mut out = vec![s(9.0)];
    spread(&block, 2, 2, &mut out);
    assert_eq!(out, block);
    spread(&block, 2, 4, &mut out);
    let centre = [(0.1f32 + 0.2) * 0.5, (0.5f32 + 0.7) * 0.5];
    assert_eq!(
        out,
        many(&[0.1, 0.2, centre[0], centre[0], 0.5, 0.7, centre[1], centre[1]])
    );
    spread(&block, 3, 1, &mut out);
    assert_eq!(out, many(&[0.1, 0.2, 0.5]));
}

#[test]
fn device_errors_say_what_happened() {
    assert_eq!(SynthError::NoOutputDevice.message(), "no audio output device available");
    assert_eq!(SynthError::Cpal("gone".to_string()).message(), "audio device error: gone");
    assert_eq!(
        SynthError::UnsupportedSampleFormat("I24".to_string()).message(),
        "unsupported sample format: I24"
    );
}

fn expected_wav(samples: &[f32], sample_rate: f32) -> Vec<u8> {
    let rate = sample_rate as u32;
    let data_bytes = (samples.len() * 2) as u32;
    let mut out = Vec::new();
    out.extend(b"RIFF");
    out.extend((36 + data_bytes).to_le_bytes());
    out.extend(b"WAVE");
    out.extend(b"fmt ");
    out.extend(16u32.to_le_bytes());
    out.extend(1u16.to_le_bytes());
    out.extend(1u16.to_le_bytes());
    out.extend(rate.to_le_bytes());
    out.extend((rate * 2).to_le_bytes());
    out.extend(2u16.to_le_bytes());
    out.extend(16u16.to_le_bytes());
    out.extend(b"data");
    out.extend(data_bytes.to_le_bytes());
    for &sample in samples {
        let value = (sample.clamp(-1.0, 1.0) * 32767.0) as i16;
        out.extend(value.to_le_bytes());
    }
    out
}

#[test]
fn a_wav_file_is_byte_for_byte_what_players_expect() {
    let mut samples = vec![0.0f32, 1.0, -1.0, 0.5, -0.5, 2.0, -7.0, 1e-9, f32::NAN, -0.0];
    for i in 0..2000 {
        samples.push((i as f32 * 0.37).sin());
    }
    for rate in [48000.0f32, 44100.0, 22050.5] {
        let bytes = wav_bytes(&many(&samples), s(rate)).unwrap();
        assert_eq!(bytes, expected_wav(&samples, rate));
        assert_eq!(bytes.len(), 44 + 2 * samples.len());
    }
}

#[test]
fn a_rate_that_does_not_fit_the_header_is_refused() {
    assert!(wav_bytes(&[], s(3e9)).is_none());
    assert!(wav_bytes(&[], s(-5.0)).is_some());
}

#[test]
fn seconds_become_samples() {
    assert_eq!(sample_count(s(48000.0), s(2.0)), 96000);
    assert_eq!(sample_count(s(44100.0), s(0.5)), 22050);
    assert_eq!(sample_count(s(48000.0), s(-1.0)), 0);
}

#[test]
fn the_peak_is_the_loudest_sample_either_way() {
    assert_eq!(f(peak(&many(&[0.25, -0.75, 0.5]))), 0.75);
    assert_eq!(f(peak(&many(&[0.25, f32::NAN]))), 0.25);
    assert_eq!(f(peak(&[])), 0.0);
}

#[test]
fn the_mean_square_is_taken_in_double_precision() {
    assert_eq!(f64::from_bits(mean_square(&many(&[3.0, -4.0])).bits), 12.5);
    assert_eq!(f64::from_bits(mean_square(&[]).bits), 0.0);
    let xs: Vec<f32> = (0..1000).map(|i| (i as f32 * 0.1).sin()).collect();
    let sum: f64 = xs.iter().map(|&x| (x as f64) * (x as f64)).sum();
    assert_eq!(f64::from_bits(mean_square(&many(&xs)).bits), sum / 1000.0);
}
