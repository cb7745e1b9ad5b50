//! Concealment.

use rtpsip::rtp::plc::{
    default_pitch, pick_period, pitch_correlations, ConcealCounter, ConcealStep, PitchCandidate,
    PlcHistory, HISTORY_LEN, PITCH_MAX, PITCH_MIN,
};

fn sine_tone(freq: f64, sample_rate: f64, n: usize, amplitude: f64) -> Vec<i16> {
    (0..n)
        .map(|i| {
            let t = i as f64 / sample_rate;
            (amplitude * (2.0 * std::f64::consts::PI * freq * t).sin()) as i16
        })
        .collect()
}

fn pitch_of(samples: &[i16]) -> usize {
    let mut h = PlcHistory::new();
    h.append_history(samples);
    let mut candidates: Vec<PitchCandidate> = Vec::new();
    for c in pitch_correlations(&h.read_history_tail(320)).iter() {
        let norm =
            c.cross as f64 / ((c.energy_win as f64).sqrt() * (c.energy_ref as f64).sqrt());
        let norm = if norm > 0.0 { norm } else { 0.0 };
        candidates.push(PitchCandidate {
            period: c.lag,
            rank: norm.to_bits(),
            margin: (norm * 1.05).to_bits(),
        });
    }
    pick_period(&candidates, 0.5f64.to_bits(), default_pitch(160))
}

#[test]
fn the_history_keeps_the_newest() {
    let mut h = PlcHistory::new();
    let samples: Vec<i16> = (0..1000).collect();
    h.append_history(&samples[..300]);
    h.append_history(&samples[300..]);
    assert_eq!(h.len(), HISTORY_LEN);
    assert_eq!(h.read_history_tail(3), vec![997, 998, 999]);
    assert_eq!(h.read_history_tail(5000), samples[610..].to_vec());
    h.reset();
    assert_eq!(h.len(), 0);
    assert!(h.read_history_tail(10).is_empty());
}

#[test]
fn the_last_two_periods_are_found() {
    let mut h = PlcHistory::new();
    let samples: Vec<i16> = (0..50).collect();
    h.append_history(&samples);
    let (prev, last) = h.last_periods(20);
    assert_eq!(prev, samples[10..30].to_vec());
    assert_eq!(last, samples[30..].to_vec());
    let (prev, last) = h.last_periods(40);
    assert_eq!(prev, last);
    assert_eq!(last, samples[10..].to_vec());
    let (prev, last) = h.last_periods(100);
    assert_eq!(prev, samples);
    assert_eq!(last, samples);
}

#[test]
fn a_pitch_period_is_kept_in_range() {
    assert_eq!(default_pitch(5), 20);
    assert_eq!(default_pitch(80), 80);
    assert_eq!(default_pitch(240), 160);
}

#[test]
fn a_long_gap_ends_in_silence() {
    let mut c = ConcealCounter::new(3);
    assert_eq!(c.conceal(0), ConcealStep::Nothing);
    assert_eq!(c.conceal(160), ConcealStep::Repeat { first: true });
    assert_eq!(c.conceal(160), ConcealStep::Repeat { first: false });
    assert_eq!(c.conceal(160), ConcealStep::Repeat { first: false });
    assert_eq!(c.conceal(160), ConcealStep::Silence);
    assert!(c.recover());
    assert!(!c.recover());
    assert_eq!(c.conceal(160), ConcealStep::Repeat { first: true });
}

#[test]
fn test_pitch_detection_200hz() {
    // 200Hz at 8kHz => period = 40 samples
    let tone = sine_tone(200.0, 8000.0, HISTORY_LEN + 160, 10000.0);
    let period = pitch_of(&tone);
    // Allow +/- 2 samples tolerance.
    assert!((period as i32 - 40).unsigned_abs() <= 2, "Expected pitch ~40, got {}", period);
}

#[test]
fn test_pitch_detection_100hz() {
    // 100Hz at 8kHz => period = 80 samples
    let tone = sine_tone(100.0, 8000.0, HISTORY_LEN + 160, 10000.0);
    let period = pitch_of(&tone);
    // Allow +/- 4 samples tolerance for autocorrelation-based detection
    assert!((period as i32 - 80).unsigned_abs() <= 4, "Expected pitch ~80, got {}", period);
}

#[test]
fn test_pitch_detection_320hz() {
    // 320Hz at 8kHz => period = 25 samples (exact integer)
    let tone = sine_tone(320.0, 8000.0, HISTORY_LEN + 160, 10000.0);
    let period = pitch_of(&tone);
    assert!((period as i32 - 25).unsigned_abs() <= 2, "Expected pitch ~25, got {}", period);
}

#[test]
fn test_pitch_detection_silence_returns_default() {
    // Feed silence.
    let silence = vec![0i16; HISTORY_LEN + 160];
    let period = pitch_of(&silence);
    // Should return the default (clamped samples_per_packet).
    assert!(period >= PITCH_MIN && period <= PITCH_MAX);
    assert_eq!(period, 160);
}

#[test]
fn test_history_circular_wrap() {
    let mut h = PlcHistory::new();
    // Write more than HISTORY_LEN samples.
    let big = sine_tone(200.0, 8000.0, HISTORY_LEN * 3, 5000.0);
    h.append_history(&big);

    assert_eq!(h.len(), HISTORY_LEN);
    // read_history_tail should return the last HISTORY_LEN samples.
    let tail = h.read_history_tail(HISTORY_LEN);
    assert_eq!(tail.len(), HISTORY_LEN);
    // They should match the end of `big`.
    let expected = &big[big.len() - HISTORY_LEN..];
    assert_eq!(&tail, expected);
}

#[test]
fn test_history_partial_fill() {
    let mut h = PlcHistory::new();
    let short = vec![42i16; 50];
    h.append_history(&short);

    assert_eq!(h.len(), 50);
    let tail = h.read_history_tail(50);
    assert_eq!(tail, short);
}

#[test]
fn test_update_with_empty_slice() {
    let mut h = PlcHistory::new();
    h.append_history(&[]);
    // Should not panic or change state.
    assert_eq!(h.len(), 0);
}

#[test]
fn test_max_conceal_frames_calculated_correctly() {
    // 160 samples at 8kHz = 20ms per frame.
    // 60ms / 20ms = 3 frames.
    assert_eq!(ConcealCounter::for_frames(160, 8000).unwrap().max_conceal_frames, 3);

    // 80 samples at 8kHz = 10ms per frame.
    // 60ms / 10ms = 6 frames.
    assert_eq!(ConcealCounter::for_frames(80, 8000).unwrap().max_conceal_frames, 6);
}

#[test]
fn frames_of_a_gap_are_rounded_up() {
    assert_eq!(ConcealCounter::for_frames(0, 8000).unwrap().max_conceal_frames, 3);
    assert_eq!(ConcealCounter::for_frames(160, 0).unwrap().max_conceal_frames, 3);
    assert_eq!(ConcealCounter::for_frames(161, 8000).unwrap().max_conceal_frames, 3);
    assert_eq!(ConcealCounter::for_frames(159, 8000).unwrap().max_conceal_frames, 4);
    assert_eq!(ConcealCounter::for_frames(8000, 8000).unwrap().max_conceal_frames, 1);
    assert_eq!(ConcealCounter::for_frames(320, 16000).unwrap().max_conceal_frames, 3);
    assert_eq!(ConcealCounter::for_frames(7, 48000).unwrap().max_conceal_frames, 412);
    assert_eq!(ConcealCounter::for_frames(usize::MAX, 8000).unwrap().max_conceal_frames, 1);
    assert_eq!(ConcealCounter::for_frames(0, 22050).unwrap().max_conceal_frames, 3);
    assert!(ConcealCounter::for_frames(7, 22050).is_none());
}

#[test]
fn correlations_are_exact() {
    let mut buf = vec![0i16; 320];
    assert!(pitch_correlations(&buf).is_empty());
    assert!(pitch_correlations(&buf[..319]).is_empty());
    buf[160] = 3;
    buf[161] = -2;
    buf[139] = 5;
    let found = pitch_correlations(&buf);
    // The earlier stretch takes in position 139 from a lag of 21 on.
    assert_eq!(found.len(), 140);
    assert_eq!(found[0].lag, 21);
    assert_eq!(found[0].cross, 15);
    assert_eq!(found[0].energy_win, 13);
    assert_eq!(found[0].energy_ref, 25);
    assert_eq!(found[1].lag, 22);
    assert_eq!(found[1].cross, -10);
    assert_eq!(found[2].cross, 0);
}

#[test]
fn the_shortest_strong_period_is_taken() {
    let c = |period, rank, margin| PitchCandidate { period, rank, margin };
    assert_eq!(pick_period(&[], 50, 160), 160);
    assert_eq!(pick_period(&[c(20, 49, 51)], 50, 160), 160);
    assert_eq!(pick_period(&[c(20, 49, 51), c(40, 80, 84), c(80, 84, 88)], 50, 160), 40);
    assert_eq!(pick_period(&[c(40, 80, 84), c(80, 85, 89), c(120, 86, 90)], 50, 160), 80);
}
