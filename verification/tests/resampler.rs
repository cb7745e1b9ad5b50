//! Sample rates.

use rtpsip::rtp::resampler::{
    is_supported_rate, resample_simple, AudioResampler, ResampleQuality, ResampleStep,
    SUPPORTED_RATES,
};

fn sine_tone(freq_hz: f64, sample_rate: f64, num_samples: usize, amplitude: f64) -> Vec<i16> {
    (0..num_samples)
        .map(|i| {
            let t = i as f64 / sample_rate;
            (amplitude * (2.0 * std::f64::consts::PI * freq_hz * t).sin()) as i16
        })
        .collect()
}

fn linear(input: &[i16], from: u32, to: u32) -> Vec<i16> {
    let r = AudioResampler::new(from, to, ResampleQuality::Linear).unwrap();
    match r.begin(input) {
        ResampleStep::Done(output) => output,
        _ => panic!("Expected the samples at the new rate"),
    }
}

fn linear_len(input: &[i16], from: u32, to: u32) -> usize {
    let r = AudioResampler::new(from, to, ResampleQuality::Linear).unwrap();
    match r.begin(input) {
        ResampleStep::Done(output) => output.len(),
        ResampleStep::Interpolate { len } => len as usize,
        ResampleStep::Filter { .. } => panic!("Expected no filter"),
    }
}

#[test]
fn test_unsupported_rate_returns_none() {
    assert!(AudioResampler::new(44100, 8000, ResampleQuality::Linear).is_none());
    assert!(AudioResampler::new(8000, 22050, ResampleQuality::Linear).is_none());
    assert!(AudioResampler::new(11025, 44100, ResampleQuality::Sinc).is_none());
}

#[test]
fn test_output_length_all_pairs() {
    let rates = &SUPPORTED_RATES;
    let input_len: usize = 960; // LCM-friendly length

    for &from in rates {
        for &to in rates {
            let r = AudioResampler::new(from, to, ResampleQuality::Linear).unwrap();
            let expected = (input_len as u64 * to as u64 / from as u64) as usize;
            assert_eq!(
                r.output_length(input_len),
                expected,
                "output_length wrong for {} -> {}",
                from,
                to
            );
        }
    }
}

#[test]
fn test_is_passthrough() {
    let r = AudioResampler::new(16000, 16000, ResampleQuality::Linear).unwrap();
    assert!(r.is_passthrough());

    let r = AudioResampler::new(8000, 48000, ResampleQuality::Linear).unwrap();
    assert!(!r.is_passthrough());
}

#[test]
fn test_is_supported_rate() {
    assert!(is_supported_rate(8000));
    assert!(is_supported_rate(16000));
    assert!(is_supported_rate(32000));
    assert!(is_supported_rate(48000));
    assert!(!is_supported_rate(44100));
    assert!(!is_supported_rate(22050));
    assert!(!is_supported_rate(0));
}

#[test]
fn test_rate_accessors() {
    let r = AudioResampler::new(8000, 48000, ResampleQuality::Linear).unwrap();
    assert_eq!(r.from_rate(), 8000);
    assert_eq!(r.to_rate(), 48000);
}

#[test]
fn test_passthrough_returns_identical() {
    let input: Vec<i16> = (0..160).map(|i| (i * 100) as i16).collect();
    let r = AudioResampler::new(8000, 8000, ResampleQuality::Linear).unwrap();
    match r.begin(&input) {
        ResampleStep::Done(output) => assert_eq!(input, output),
        _ => panic!("Expected the samples themselves"),
    }
}

#[test]
fn test_empty_input_returns_empty() {
    let r = AudioResampler::new(8000, 16000, ResampleQuality::Linear).unwrap();
    match r.begin(&[]) {
        ResampleStep::Done(output) => assert!(output.is_empty()),
        _ => panic!("Expected nothing to do"),
    }
}

#[test]
fn resampler_test_reset_clears_state() {
    let mut r = AudioResampler::new(8000, 16000, ResampleQuality::Sinc).unwrap();
    let input = sine_tone(200.0, 8000.0, 160, 10000.0);

    // Process some data to populate history
    let _ = r.finish(&input, &[]);
    assert!(r.history.iter().any(|&v| v != 0));

    // Reset should zero the history
    r.reset();
    assert!(r.history.iter().all(|&v| v == 0));
}

#[test]
fn lengths_are_exact() {
    let len = |from: u32, to: u32, n: usize| {
        AudioResampler::new(from, to, ResampleQuality::Linear).unwrap().output_length(n)
    };
    assert_eq!(len(8000, 16000, 160), 320);
    assert_eq!(len(16000, 8000, 320), 160);
    assert_eq!(len(8000, 48000, 160), 960);
    assert_eq!(len(48000, 8000, 960), 160);
    assert_eq!(len(16000, 32000, 320), 640);
    assert_eq!(len(32000, 16000, 640), 320);
    assert_eq!(len(48000, 32000, 1), 1);
    assert_eq!(len(48000, 8000, 999), 167);
}

#[test]
fn the_filter_starts_with_the_history() {
    let mut r = AudioResampler::new(8000, 16000, ResampleQuality::Sinc).unwrap();
    let first: Vec<i16> = (1..=100).collect();
    let _ = r.finish(&first, &[]);
    match r.begin(&[7, 8]) {
        ResampleStep::Filter { extended, len } => {
            let n = extended.len();
            assert_eq!(n, 18);
            assert_eq!(&extended[n - 3..], &[100, 7, 8]);
            assert_eq!(len, 36);
        }
        _ => panic!("Expected a filter"),
    }
}

#[test]
fn thirds_are_left_to_the_caller() {
    for from in [8000, 16000, 32000] {
        let r = AudioResampler::new(from, 48000, ResampleQuality::Linear).unwrap();
        let expected = 2 * 48000 / from as u128;
        match r.begin(&[1, 2]) {
            ResampleStep::Interpolate { len } => assert_eq!(len, expected),
            _ => panic!("Expected an interpolation"),
        }
        match resample_simple(&[1, 2], from, 48000) {
            Some(ResampleStep::Interpolate { len }) => assert_eq!(len, expected),
            _ => panic!("Expected an interpolation"),
        }
    }
}

#[test]
fn test_8k_to_48k_6x_upsample_length() {
    let input = sine_tone(200.0, 8000.0, 160, 10000.0);
    assert_eq!(linear_len(&input, 8000, 48000), 960);
}

#[test]
fn test_output_length_matches_actual_linear() {
    let input_lengths: &[usize] = &[1, 80, 160, 320, 480, 960, 999];
    for &from in &SUPPORTED_RATES {
        for &to in &SUPPORTED_RATES {
            let r = AudioResampler::new(from, to, ResampleQuality::Linear).unwrap();
            for &input_len in input_lengths {
                let input: Vec<i16> = (0..input_len).map(|i| (i % 256) as i16).collect();
                let predicted = r.output_length(input_len);
                assert_eq!(
                    linear_len(&input, from, to),
                    predicted,
                    "output_length mismatch for {} -> {} with input_len={}",
                    from,
                    to,
                    input_len
                );
            }
        }
    }
}

#[test]
fn test_output_length_matches_actual_sinc() {
    let input_lengths: &[usize] = &[1, 80, 160, 320, 480, 960, 999];
    for &from in &SUPPORTED_RATES {
        for &to in &SUPPORTED_RATES {
            let mut r = AudioResampler::new(from, to, ResampleQuality::Sinc).unwrap();
            for &input_len in input_lengths {
                let input: Vec<i16> = (0..input_len).map(|i| (i % 256) as i16).collect();
                let output = match r.begin(&input) {
                    ResampleStep::Done(samples) => samples,
                    ResampleStep::Filter { len, .. } => {
                        let filtered: Vec<i16> = (0..len).map(|i| (i % 256) as i16).collect();
                        r.finish(&input, &filtered)
                    }
                    ResampleStep::Interpolate { .. } => panic!("Expected a filter"),
                };
                let predicted = r.output_length(input_len);
                assert_eq!(
                    output.len(),
                    predicted,
                    "output_length mismatch (sinc) for {} -> {} with input_len={}",
                    from,
                    to,
                    input_len
                );
            }
        }
    }
}

#[test]
fn the_end_of_what_was_filtered_belongs_to_the_samples() {
    let mut r = AudioResampler::new(48000, 8000, ResampleQuality::Sinc).unwrap();
    match r.begin(&[5]) {
        ResampleStep::Filter { len, .. } => assert_eq!(len, 3),
        _ => panic!("Expected a filter"),
    }
    assert_eq!(r.finish(&[5], &[1, 2, 3]), vec![3]);

    let mut r = AudioResampler::new(48000, 32000, ResampleQuality::Sinc).unwrap();
    assert_eq!(r.finish(&[5, 6], &(1..=12).collect::<Vec<i16>>()), vec![11, 12]);
    assert_eq!(r.finish(&[5, 6], &[9]), vec![9]);
}

#[test]
fn test_8k_to_16k_doubles_length() {
    let input = sine_tone(200.0, 8000.0, 160, 10000.0);
    let output = linear(&input, 8000, 16000);
    assert_eq!(output.len(), 320);
}

#[test]
fn test_16k_to_8k_halves_length() {
    let input = sine_tone(200.0, 16000.0, 320, 10000.0);
    let output = linear(&input, 16000, 8000);
    assert_eq!(output.len(), 160);
}

#[test]
fn test_48k_to_8k_6x_downsample_length() {
    let input = sine_tone(200.0, 48000.0, 960, 10000.0);
    let output = linear(&input, 48000, 8000);
    assert_eq!(output.len(), 160);
}

#[test]
fn test_16k_to_32k_2x_upsample() {
    let input = sine_tone(200.0, 16000.0, 320, 10000.0);
    let output = linear(&input, 16000, 32000);
    assert_eq!(output.len(), 640);
}

#[test]
fn test_32k_to_16k_2x_downsample() {
    let input = sine_tone(200.0, 32000.0, 640, 10000.0);
    let output = linear(&input, 32000, 16000);
    assert_eq!(output.len(), 320);
}

#[test]
fn test_resample_simple() {
    let input = sine_tone(200.0, 8000.0, 160, 10000.0);
    match resample_simple(&input, 8000, 16000).unwrap() {
        ResampleStep::Done(output) => assert_eq!(output.len(), 320),
        _ => panic!("Expected the samples at the new rate"),
    }

    // Unsupported rate returns None
    assert!(resample_simple(&input, 44100, 8000).is_none());
}

#[test]
fn samples_lie_on_the_line_between() {
    assert_eq!(linear(&[10, 13, -4], 8000, 16000), vec![10, 12, 13, 5, -4, -2]);
    assert_eq!(linear(&[-10, -13], 8000, 16000), vec![-10, -12, -13, -7]);
    assert_eq!(linear(&[0, 8], 8000, 32000), vec![0, 2, 4, 6, 8, 6, 4, 2]);
    assert_eq!(linear(&[1, 2, 3, 4, 5, 6, 7], 48000, 8000), vec![1, 7]);
    assert_eq!(linear(&[0, 10, 21, 30], 48000, 32000), vec![0, 16, 30]);
    assert_eq!(linear(&[i16::MAX, i16::MIN], 8000, 16000), vec![i16::MAX, -1, i16::MIN, -16384]);
}
