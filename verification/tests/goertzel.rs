//! Digits in the audio, from block to block.

use rtpsip::rtp::goertzel::{block_digit, dtmf_char, strongest, DigitTracker, Tone};

#[test]
fn test_dtmf_char_mapping() {
    assert_eq!(dtmf_char(0, 0), '1');
    assert_eq!(dtmf_char(0, 1), '2');
    assert_eq!(dtmf_char(0, 2), '3');
    assert_eq!(dtmf_char(0, 3), 'A');
    assert_eq!(dtmf_char(1, 0), '4');
    assert_eq!(dtmf_char(1, 1), '5');
    assert_eq!(dtmf_char(1, 2), '6');
    assert_eq!(dtmf_char(1, 3), 'B');
    assert_eq!(dtmf_char(2, 0), '7');
    assert_eq!(dtmf_char(2, 1), '8');
    assert_eq!(dtmf_char(2, 2), '9');
    assert_eq!(dtmf_char(2, 3), 'C');
    assert_eq!(dtmf_char(3, 0), '*');
    assert_eq!(dtmf_char(3, 1), '0');
    assert_eq!(dtmf_char(3, 2), '#');
    assert_eq!(dtmf_char(3, 3), 'D');
}

#[test]
fn goertzel_test_reset_clears_state() {
    let mut det = DigitTracker::new(8000, 102);
    for _ in 0..4 {
        det.observe(Some('1'));
    }
    assert!(det.current_digit.is_some() || det.detection_count > 0);

    det.reset();
    assert!(det.current_digit.is_none());
    assert_eq!(det.detection_count, 0);
}

#[test]
fn a_block_is_full_after_its_samples() {
    let mut det = DigitTracker::new(8000, 102);
    for _ in 0..101 {
        assert!(!det.advance());
    }
    assert!(det.advance());
    assert!(!det.advance());
}

#[test]
fn digits_in_turn_are_each_reported() {
    let mut det = DigitTracker::new(8000, 102);
    for d in ['1', '2', '3'] {
        for _ in 0..6 {
            det.observe(Some(d));
        }
        for _ in 0..4 {
            det.observe(None);
        }
    }
    let found = det.drain();
    let digits: Vec<char> = found.iter().map(|d| d.digit).collect();
    assert_eq!(digits, vec!['1', '2', '3']);
    assert!(det.drain().is_empty());
}

#[test]
fn silence_reports_nothing() {
    let mut det = DigitTracker::new(8000, 102);
    for _ in 0..20 {
        det.observe(None);
    }
    assert!(det.drain().is_empty());
}

#[test]
fn one_block_is_not_a_digit() {
    let mut det = DigitTracker::new(8000, 102);
    det.observe(Some('5'));
    for _ in 0..5 {
        det.observe(None);
    }
    assert!(det.drain().is_empty());
}

fn tones(powers: [f64; 4]) -> [Tone; 4] {
    let tone = |p: f64| Tone { power: p.to_bits(), above: (p * 4.0).to_bits() };
    [tone(powers[0]), tone(powers[1]), tone(powers[2]), tone(powers[3])]
}

#[test]
fn the_strongest_tones_make_the_digit() {
    let rows = tones([10.0, 1.0e6, 20.0, 30.0]);
    let cols = tones([0.0, 5.0, 2.0e6, 7.5]);
    assert_eq!(strongest(&rows), 1);
    assert_eq!(strongest(&cols), 2);
    assert_eq!(block_digit(&rows, &cols, true, true), Some('6'));
    assert_eq!(block_digit(&rows, &cols, false, true), None);
    assert_eq!(block_digit(&rows, &cols, true, false), None);
}

#[test]
fn a_tone_must_stand_out_by_more_than_six_decibels() {
    let cols = tones([4.0e6, 0.0, 0.0, 0.0]);
    assert_eq!(block_digit(&tones([0.0, 0.0, 1.0e6, 4.0e6]), &cols, true, true), None);
    assert_eq!(block_digit(&tones([0.0, 0.0, 1.0e6, 4.1e6]), &cols, true, true), Some('*'));
    assert_eq!(block_digit(&cols, &tones([0.0, 0.0, 1.0e6, 4.0e6]), true, true), None);
    assert_eq!(strongest(&tones([3.0, 3.0, 3.0, 3.0])), 0);
    assert_eq!(block_digit(&tones([0.0; 4]), &cols, true, true), None);
}
