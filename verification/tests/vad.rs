//! Voice activity.

use rtpsip::rtp::vad::{
    compute_mean_abs, compute_mean_abs_multichannel, VadMode, VadState, VoiceActivityDetector,
};

#[test]
fn test_mean_abs_pure_silence() {
    let silence = vec![0i16; 160];
    assert_eq!(compute_mean_abs(&silence, 1), 0);
}

#[test]
fn test_mean_abs_empty_slice() {
    assert_eq!(compute_mean_abs(&[], 1), 0);
}

#[test]
fn test_mean_abs_constant_positive() {
    let samples = vec![1000i16; 160];
    assert_eq!(compute_mean_abs(&samples, 1), 1000);
}

#[test]
fn test_mean_abs_constant_negative() {
    let samples = vec![-1000i16; 160];
    assert_eq!(compute_mean_abs(&samples, 1), 1000);
}

#[test]
fn test_mean_abs_alternating() {
    let samples: Vec<i16> = (0..160).map(|i| if i % 2 == 0 { 500 } else { -500 }).collect();
    assert_eq!(compute_mean_abs(&samples, 1), 500);
}

#[test]
fn test_mean_abs_sample_rate_invariant() {
    // With pure mean (sum/n), energy is sample-rate-invariant:
    // 8kHz: 160*1000 / 160 = 1000
    // 16kHz: 320*1000 / 320 = 1000
    let samples_8k = vec![1000i16; 160];
    let samples_16k = vec![1000i16; 320];
    assert_eq!(compute_mean_abs(&samples_8k, 1), 1000);
    assert_eq!(compute_mean_abs(&samples_16k, 2), 1000);
}

#[test]
fn test_mean_abs_48khz_invariant() {
    // 48kHz: 960*1000 / 960 = 1000
    let samples = vec![1000i16; 960];
    assert_eq!(compute_mean_abs(&samples, 6), 1000);
}

#[test]
fn test_mean_abs_short_frame() {
    // With pure mean, even single samples compute correctly
    assert_eq!(compute_mean_abs(&[10000], 2), 10000);
    assert_eq!(compute_mean_abs(&[10000; 5], 6), 10000);
    assert_eq!(compute_mean_abs(&[1000, 1000], 2), 1000); // sum=2000, n=2, 2000/2=1000
}

#[test]
fn test_mean_abs_max_amplitude() {
    let samples = vec![i16::MAX; 160];
    assert_eq!(compute_mean_abs(&samples, 1), 32767);
}

#[test]
fn test_mean_abs_i16_min() {
    // i16::MIN = -32768, unsigned_abs() = 32768
    let samples = vec![i16::MIN; 160];
    assert_eq!(compute_mean_abs(&samples, 1), 32768);
}

#[test]
fn test_mean_abs_no_overflow_large_frame() {
    // 8000 samples at max amplitude — u64 accumulation prevents overflow
    let samples = vec![i16::MAX; 8000];
    assert_eq!(compute_mean_abs(&samples, 1), 32767);
}

#[test]
fn test_mean_abs_divisor_ignored() {
    // Divisor is no longer used in computation; pure mean is returned
    assert_eq!(compute_mean_abs(&[1000; 160], 0), 1000);
}

#[test]
fn test_multichannel_stereo_processes_channel_0() {
    // Stereo interleaved: [ch0, ch1, ch0, ch1, ...]
    // Channel 0 = 1000, Channel 1 = 0
    // Per-channel count = 4, divisor = 1
    // Energy should be based only on channel 0
    let samples: Vec<i16> = vec![1000, 0, 1000, 0, 1000, 0, 1000, 0];
    assert_eq!(compute_mean_abs_multichannel(&samples, 1, 2), 1000);
}

#[test]
fn test_multichannel_stereo_ignores_channel_1() {
    // Channel 0 = 0 (silence), Channel 1 = 10000 (loud)
    // VAD should see silence from channel 0
    let samples: Vec<i16> = vec![0, 10000, 0, 10000, 0, 10000, 0, 10000];
    assert_eq!(compute_mean_abs_multichannel(&samples, 1, 2), 0);
}

#[test]
fn test_multichannel_mono_same_as_regular() {
    let samples = vec![1000i16; 160];
    assert_eq!(
        compute_mean_abs_multichannel(&samples, 1, 1),
        compute_mean_abs(&samples, 1)
    );
}

#[test]
fn test_multichannel_stereo_with_divisor() {
    let mut samples = vec![0i16; 320];
    for i in 0..160 {
        samples[i * 2] = 500; // ch0
        samples[i * 2 + 1] = 0; // ch1
    }
    // per_channel=160, sum=160*500=80000, mean = 80000/160 = 500
    assert_eq!(compute_mean_abs_multichannel(&samples, 2, 2), 500);
}

#[test]
fn test_multichannel_short_frame() {
    assert_eq!(compute_mean_abs_multichannel(&[10000, 5000], 2, 2), 10000);
}

#[test]
fn test_multichannel_6_channels() {
    let samples: Vec<i16> = vec![5000, 1000, 2000, 3000, 4000, 500];
    // per_channel = 1, divisor = 1, channel 0 = 5000
    assert_eq!(compute_mean_abs_multichannel(&samples, 1, 6), 5000);
}

#[test]
fn test_vad_state_display() {
    assert_eq!(VadState::Silence.name(), "None");
    assert_eq!(VadState::StartTalking.name(), "StartTalking");
    assert_eq!(VadState::Talking.name(), "Talking");
    assert_eq!(VadState::StopTalking.name(), "StopTalking");
}

#[test]
fn test_vad_state_is_talking() {
    assert!(!VadState::Silence.is_talking());
    assert!(VadState::StartTalking.is_talking());
    assert!(VadState::Talking.is_talking());
    assert!(!VadState::StopTalking.is_talking());
}

#[test]
fn test_vad_state_is_silent() {
    assert!(VadState::Silence.is_silent());
    assert!(!VadState::StartTalking.is_silent());
    assert!(!VadState::Talking.is_silent());
    assert!(VadState::StopTalking.is_silent());
}

#[test]
fn test_vad_defaults() {
    // Defaults:
    //   thresh = 100
    //   voice_samples_thresh = 200 * (sample_rate / 1000) = 1600 at 8kHz
    //   silence_samples_thresh = 500 * (sample_rate / 1000) = 4000 at 8kHz
    //   divisor = sample_rate / 8000 = 1
    //   channels = 1
    //   mode = Energy
    let vad = VoiceActivityDetector::new(8000);
    assert_eq!(vad.threshold(), 100);
    assert_eq!(vad.divisor, 1);
    assert_eq!(vad.voice_onset_samples, 1600);
    assert_eq!(vad.silence_holdoff_samples, 4000);
    assert_eq!(vad.state(), VadState::Silence);
    assert_eq!(vad.channels(), 1);
    assert_eq!(vad.mode(), VadMode::Energy);
}

#[test]
fn test_vad_defaults_16khz() {
    // At 16kHz:
    //   thresh = 100
    //   voice_samples_thresh = 200 * 16 = 3200
    //   silence_samples_thresh = 500 * 16 = 8000
    //   divisor = 16000/8000 = 2
    let vad = VoiceActivityDetector::new(16000);
    assert_eq!(vad.threshold(), 100);
    assert_eq!(vad.divisor, 2);
    assert_eq!(vad.voice_onset_samples, 3200);
    assert_eq!(vad.silence_holdoff_samples, 8000);
}

#[test]
fn test_vad_default_trait() {
    let vad = VoiceActivityDetector::default();
    assert_eq!(vad.sample_rate(), 8000);
    assert_eq!(vad.threshold(), 100);
}

#[test]
fn test_vad_with_config() {
    let vad = VoiceActivityDetector::with_config(8000, 500, 100, 300);
    assert_eq!(vad.threshold(), 500);
    assert_eq!(vad.voice_onset_samples, 800);   // 100ms * 8
    assert_eq!(vad.silence_holdoff_samples, 2400); // 300ms * 8
}

#[test]
fn test_vad_set_threshold() {
    let mut vad = VoiceActivityDetector::new(8000);
    vad.set_threshold(500);
    assert_eq!(vad.threshold(), 500);
}

#[test]
fn test_vad_set_onset_ms() {
    let mut vad = VoiceActivityDetector::new(8000);
    vad.set_voice_onset_ms(100);
    assert_eq!(vad.voice_onset_samples, 800);
}

#[test]
fn test_vad_set_holdoff_ms() {
    let mut vad = VoiceActivityDetector::new(8000);
    vad.set_silence_holdoff_ms(300);
    assert_eq!(vad.silence_holdoff_samples, 2400);
}

#[test]
fn test_vad_set_channels() {
    let mut vad = VoiceActivityDetector::new(8000);
    assert_eq!(vad.channels(), 1);
    vad.set_channels(2);
    assert_eq!(vad.channels(), 2);
    // channels=0 is clamped to 1
    vad.set_channels(0);
    assert_eq!(vad.channels(), 1);
}

#[test]
fn test_vad_set_mode() {
    let mut vad = VoiceActivityDetector::new(8000);
    assert_eq!(vad.mode(), VadMode::Energy);
    vad.set_mode(VadMode::Aggressive);
    assert_eq!(vad.mode(), VadMode::Aggressive);
}

// At default 8kHz: voice_onset_samples=1600, so we need >1600 samples.
// 10 frames = 1600 samples: NOT > 1600, stays None.
// 11th frame = 1760 samples: > 1600, fires StartTalking.

#[test]
fn test_vad_onset_strictly_greater_than() {
    let mut vad = VoiceActivityDetector::new(8000);
    let voice = vec![1000i16; 160]; // well above threshold 100

    // Frames 1-10: accumulate 1600 samples. 1600 is NOT > 1600 → None
    for i in 0..10 {
        let state = vad.process(&voice);
        assert_eq!(state, VadState::Silence, "Frame {} should still be None", i + 1);
    }

    // Frame 11: 1760 samples > 1600 → StartTalking
    let state = vad.process(&voice);
    assert_eq!(state, VadState::StartTalking);
}

#[test]
fn test_vad_start_talking_becomes_talking() {
    // Use custom config: onset=20ms=160 samples. Need >160, so 2 frames (320 > 160).
    let mut vad = VoiceActivityDetector::with_config(8000, 100, 20, 500);
    let voice = vec![1000i16; 160];

    // Frame 1: voice_samples=160. 160 NOT > 160 → None
    assert_eq!(vad.process(&voice), VadState::Silence);

    // Frame 2: voice_samples=320. 320 > 160 → StartTalking
    assert_eq!(vad.process(&voice), VadState::StartTalking);

    // Frame 3: auto-advance → Talking
    assert_eq!(vad.process(&voice), VadState::Talking);
}

#[test]
fn test_vad_voice_onset_reset_by_silence() {
    let mut vad = VoiceActivityDetector::new(8000);
    let voice = vec![1000i16; 160];
    let silence = vec![0i16; 160];

    // 5 voice frames (800 samples, partial onset)
    for _ in 0..5 {
        vad.process(&voice);
    }
    assert_eq!(vad.state(), VadState::Silence);

    // Silence interrupts — resets voice_sample_count to 0
    vad.process(&silence);

    // Need full 11 frames of voice again (>1600 samples)
    for i in 0..10 {
        assert_eq!(vad.process(&voice), VadState::Silence, "Frame {} after reset", i + 1);
    }
    assert_eq!(vad.process(&voice), VadState::StartTalking);
}

// At 500ms holdoff: silence_samples_thresh=4000, need >4000 samples.
// 25 frames = 4000 samples: NOT > 4000, stays Talking.
// 26th frame = 4160 samples: > 4000, fires StopTalking.

#[test]
fn test_vad_holdoff_strictly_greater_than() {
    // onset=20ms so we can get to Talking quickly
    let mut vad = VoiceActivityDetector::with_config(8000, 100, 20, 500);
    let voice = vec![1000i16; 160];
    let silence = vec![0i16; 160];

    // Get to Talking: need >160 voice_samples → 2 voice frames
    vad.process(&voice); // voice_samples=160, None
    vad.process(&voice); // voice_samples=320 > 160, StartTalking
    vad.process(&voice); // Talking

    // 25 silent frames = 4000 samples. 4000 NOT > 4000 → stays Talking
    for i in 0..25 {
        let state = vad.process(&silence);
        assert_eq!(state, VadState::Talking, "Holdoff frame {} should be Talking", i + 1);
    }

    // 26th frame = 4160 > 4000 → StopTalking
    assert_eq!(vad.process(&silence), VadState::StopTalking);
}

#[test]
fn test_vad_stop_talking_becomes_none() {
    // holdoff=20ms=160 samples. Need >160 → 2 silent frames.
    let mut vad = VoiceActivityDetector::with_config(8000, 100, 20, 20);
    let voice = vec![1000i16; 160];
    let silence = vec![0i16; 160];

    // Get to Talking
    vad.process(&voice); // None (160 not > 160)
    vad.process(&voice); // StartTalking (320 > 160)
    vad.process(&voice); // Talking

    // Silent frame 1: 160 not > 160 → Talking
    assert_eq!(vad.process(&silence), VadState::Talking);
    // Silent frame 2: 320 > 160 → StopTalking
    assert_eq!(vad.process(&silence), VadState::StopTalking);
    // Auto-advance → None
    assert_eq!(vad.process(&silence), VadState::Silence);
}

#[test]
fn test_vad_silence_holdoff_reset_by_voice() {
    let mut vad = VoiceActivityDetector::with_config(8000, 100, 20, 500);
    let voice = vec![1000i16; 160];
    let silence = vec![0i16; 160];

    // Get to Talking
    vad.process(&voice);
    vad.process(&voice); // StartTalking
    vad.process(&voice); // Talking

    // 15 silent frames (partial holdoff)
    for _ in 0..15 {
        vad.process(&silence);
    }
    assert_eq!(vad.state(), VadState::Talking);

    // Voice returns — resets silence_sample_count
    vad.process(&voice);
    assert_eq!(vad.state(), VadState::Talking);

    // Need full 26 frames of silence again (>4000 samples)
    for i in 0..25 {
        assert_eq!(vad.process(&silence), VadState::Talking, "Frame {}", i + 1);
    }
    assert_eq!(vad.process(&silence), VadState::StopTalking);
}

#[test]
fn test_vad_full_lifecycle() {
    // onset=20ms (>160 samples → 2 frames), holdoff=40ms (>320 samples → 3 frames)
    let mut vad = VoiceActivityDetector::with_config(8000, 100, 20, 40);
    let voice = vec![1000i16; 160];
    let silence = vec![0i16; 160];

    assert_eq!(vad.state(), VadState::Silence);

    // Voice onset: frame 1 (160 not > 160) → None, frame 2 (320 > 160) → StartTalking
    assert_eq!(vad.process(&voice), VadState::Silence);
    assert_eq!(vad.process(&voice), VadState::StartTalking);

    // Auto-advance → Talking
    assert_eq!(vad.process(&voice), VadState::Talking);

    // Silence holdoff: frames 1-2 (160, 320 not > 320) → Talking, frame 3 (480 > 320) → StopTalking
    assert_eq!(vad.process(&silence), VadState::Talking);
    assert_eq!(vad.process(&silence), VadState::Talking);
    assert_eq!(vad.process(&silence), VadState::StopTalking);

    // Auto-advance → None
    assert_eq!(vad.process(&silence), VadState::Silence);
}

#[test]
fn test_vad_sustained_silence_stays_none() {
    let mut vad = VoiceActivityDetector::new(8000);
    let silence = vec![0i16; 160];
    for _ in 0..100 {
        assert_eq!(vad.process(&silence), VadState::Silence);
    }
}

#[test]
fn test_vad_sustained_voice_stays_talking() {
    let mut vad = VoiceActivityDetector::with_config(8000, 100, 20, 500);
    let voice = vec![1000i16; 160];

    // Get to Talking
    vad.process(&voice);
    vad.process(&voice); // StartTalking
    vad.process(&voice); // Talking

    for _ in 0..100 {
        assert_eq!(vad.process(&voice), VadState::Talking);
    }
}

#[test]
fn test_vad_speech_with_short_pauses() {
    // 500ms holdoff: short pauses (200ms) should NOT trigger StopTalking
    let mut vad = VoiceActivityDetector::with_config(8000, 100, 20, 500);
    let voice = vec![1000i16; 160];
    let silence = vec![0i16; 160];

    // Get to Talking
    vad.process(&voice);
    vad.process(&voice); // StartTalking
    vad.process(&voice); // Talking

    // 12 silent frames = 1920 samples, well under 4000
    for _ in 0..12 {
        assert_eq!(vad.process(&silence), VadState::Talking);
    }

    // Speech resumes — holdoff was reset
    assert_eq!(vad.process(&voice), VadState::Talking);
}

#[test]
fn test_vad_empty_frame() {
    let mut vad = VoiceActivityDetector::new(8000);
    assert_eq!(vad.process(&[]), VadState::Silence);
    assert_eq!(vad.last_energy(), 0);
}

#[test]
fn test_vad_single_sample_at_8khz() {
    // Pure mean: sum=10000, n=1, energy=10000.
    // But onset requires >1600 samples, so state stays None.
    let mut vad = VoiceActivityDetector::new(8000);
    let state = vad.process(&[10000]);
    assert_eq!(state, VadState::Silence);
    assert_eq!(vad.last_energy(), 10000);
}

#[test]
fn test_vad_single_sample_at_16khz() {
    // Pure mean: sum=10000, n=1, energy=10000 (same as 8kHz).
    // State stays None because onset needs >3200 samples.
    let mut vad = VoiceActivityDetector::new(16000);
    let state = vad.process(&[10000]);
    assert_eq!(state, VadState::Silence);
    assert_eq!(vad.last_energy(), 10000);
}

#[test]
fn test_vad_threshold_zero() {
    // Threshold 0: any non-zero audio is voice (energy > 0)
    // onset=20ms → need >160 samples = 2 frames
    let mut vad = VoiceActivityDetector::with_config(8000, 0, 20, 20);
    let tiny = vec![1i16; 160];
    let silence = vec![0i16; 160];

    // Frame 1: energy=1 > 0 → voice, but voice_samples=160, not > 160 → None
    assert_eq!(vad.process(&tiny), VadState::Silence);
    // Frame 2: voice_samples=320 > 160 → StartTalking
    assert_eq!(vad.process(&tiny), VadState::StartTalking);

    // Now silence: 2 frames needed (>160)
    // Frame 1: Talking (one-shot advance from StartTalking)
    //          silence_samples=160, not > 160 → Talking
    assert_eq!(vad.process(&silence), VadState::Talking);
    // Frame 2: silence_samples=320 > 160 → StopTalking
    assert_eq!(vad.process(&silence), VadState::StopTalking);
}

#[test]
fn test_vad_reset() {
    let mut vad = VoiceActivityDetector::with_config(8000, 100, 20, 500);
    let voice = vec![5000i16; 160];

    // Get to Talking
    vad.process(&voice);
    vad.process(&voice); // StartTalking
    vad.process(&voice); // Talking
    assert_eq!(vad.state(), VadState::Talking);

    vad.reset();
    assert_eq!(vad.state(), VadState::Silence);
    assert!(vad.is_silent());
    assert_eq!(vad.last_energy(), 0);
}

#[test]
fn test_vad_counter_saturation() {
    let mut vad = VoiceActivityDetector::with_config(8000, 100, 20, 500);
    let silence = vec![0i16; 160];

    // Process many silence frames
    for _ in 0..100_000 {
        vad.process(&silence);
    }
    assert_eq!(vad.state(), VadState::Silence);

    // onset=20ms=160 samples, need >160 → 2 voice frames
    let voice = vec![1000i16; 160];
    assert_eq!(vad.process(&voice), VadState::Silence);
    assert_eq!(vad.process(&voice), VadState::StartTalking);
    assert_eq!(vad.process(&voice), VadState::Talking);
}

#[test]
fn test_vad_one_shot_events_fire_once() {
    // onset=20ms (>160 → 2 frames), holdoff=20ms (>160 → 2 frames)
    let mut vad = VoiceActivityDetector::with_config(8000, 100, 20, 20);
    let voice = vec![1000i16; 160];
    let silence = vec![0i16; 160];

    let mut start_count = 0;
    let mut stop_count = 0;

    for _ in 0..30 {
        let state = vad.process(&voice);
        if state == VadState::StartTalking {
            start_count += 1;
        }
    }
    for _ in 0..30 {
        let state = vad.process(&silence);
        if state == VadState::StopTalking {
            stop_count += 1;
        }
    }

    assert_eq!(start_count, 1, "StartTalking should fire exactly once");
    assert_eq!(stop_count, 1, "StopTalking should fire exactly once");
}

#[test]
fn test_vad_multiple_talk_cycles() {
    // onset=20ms (2 frames), holdoff=20ms (2 frames)
    let mut vad = VoiceActivityDetector::with_config(8000, 100, 20, 20);
    let voice = vec![1000i16; 160];
    let silence = vec![0i16; 160];

    for _cycle in 0..3 {
        // Onset: frame 1 → None, frame 2 → StartTalking
        assert_eq!(vad.process(&voice), VadState::Silence);
        assert_eq!(vad.process(&voice), VadState::StartTalking);

        // Sustained voice
        for _ in 0..5 {
            assert_eq!(vad.process(&voice), VadState::Talking);
        }

        // Holdoff: frame 1 → Talking, frame 2 → StopTalking
        assert_eq!(vad.process(&silence), VadState::Talking);
        assert_eq!(vad.process(&silence), VadState::StopTalking);

        // Auto-advance to None
        assert_eq!(vad.process(&silence), VadState::Silence);
    }
}

#[test]
fn test_vad_energy_tracks_correctly() {
    let mut vad = VoiceActivityDetector::new(8000);

    let loud = vec![5000i16; 160];
    vad.process(&loud);
    assert_eq!(vad.last_energy(), 5000);

    let quiet = vec![50i16; 160];
    vad.process(&quiet);
    assert_eq!(vad.last_energy(), 50);
}

#[test]
fn test_vad_pure_tone_440hz() {
    let mut vad = VoiceActivityDetector::new(8000);

    // Generate 20ms of 440Hz sine wave at 8kHz, amplitude 5000
    let samples: Vec<i16> = (0..160)
        .map(|i| {
            let t = i as f64 / 8000.0;
            (5000.0 * (2.0 * std::f64::consts::PI * 440.0 * t).sin()) as i16
        })
        .collect();

    vad.process(&samples);

    // Mean absolute value of sine with amplitude A = 2A/π ≈ 3183
    let expected = (5000.0 * 2.0 / std::f64::consts::PI) as u32;
    let actual = vad.last_energy();
    assert!(
        (actual as i64 - expected as i64).unsigned_abs() < 100,
        "Expected energy ~{}, got {}",
        expected,
        actual
    );
}

#[test]
fn test_vad_state_machine_step_by_step() {
    // sample_rate=8000, thresh=100, voice_thresh=1600, silence_thresh=4000
    let mut vad = VoiceActivityDetector::new(8000);
    let voice = vec![500i16; 160]; // energy=500, > 100
    let silence = vec![0i16; 160]; // energy=0, not > 100

    // voice_samples accumulates, need > 1600
    // Frame 1-10: voice_samples = 160..1600. 1600 NOT > 1600 → None
    for _ in 0..10 {
        assert_eq!(vad.process(&voice), VadState::Silence);
    }
    // Frame 11: voice_samples = 1760 > 1600 → START_TALKING
    assert_eq!(vad.process(&voice), VadState::StartTalking);

    // Frame 12: one-shot advance to TALKING
    assert_eq!(vad.process(&voice), VadState::Talking);
    // Frame 13-20: sustained voice
    for _ in 0..8 {
        assert_eq!(vad.process(&voice), VadState::Talking);
    }

    // silence_samples accumulates, need > 4000
    // Frames 1-25: silence_samples = 160..4000. 4000 NOT > 4000 → Talking
    for _ in 0..25 {
        assert_eq!(vad.process(&silence), VadState::Talking);
    }
    // Frame 26: silence_samples = 4160 > 4000 → STOP_TALKING
    assert_eq!(vad.process(&silence), VadState::StopTalking);

    // One-shot advance to NONE
    assert_eq!(vad.process(&silence), VadState::Silence);
}

#[test]
fn test_vad_stereo_detects_voice_on_channel_0() {
    let mut vad = VoiceActivityDetector::with_config(8000, 100, 20, 20);
    vad.set_channels(2);

    // 160 per-channel samples → 320 interleaved total
    // Channel 0 = 1000 (voice), Channel 1 = 0
    let mut voice_stereo = vec![0i16; 320];
    for i in 0..160 {
        voice_stereo[i * 2] = 1000;
    }

    // Need >160 per-channel → 2 frames for onset
    assert_eq!(vad.process(&voice_stereo), VadState::Silence);
    assert_eq!(vad.process(&voice_stereo), VadState::StartTalking);
}

#[test]
fn test_vad_stereo_silence_on_channel_0() {
    let mut vad = VoiceActivityDetector::with_config(8000, 100, 20, 20);
    vad.set_channels(2);

    // Channel 0 = 0 (silence), Channel 1 = 10000 (loud)
    // VAD should treat as silence
    let mut loud_ch1 = vec![0i16; 320];
    for i in 0..160 {
        loud_ch1[i * 2 + 1] = 10000;
    }

    for _ in 0..20 {
        assert_eq!(vad.process(&loud_ch1), VadState::Silence);
    }
}

#[test]
fn test_vad_stereo_full_lifecycle() {
    let mut vad = VoiceActivityDetector::with_config(8000, 100, 20, 40);
    vad.set_channels(2);

    // Voice on channel 0
    let mut voice = vec![0i16; 320];
    for i in 0..160 {
        voice[i * 2] = 1000;
    }
    let silence = vec![0i16; 320];

    // Onset: frame 1 → None, frame 2 → StartTalking
    assert_eq!(vad.process(&voice), VadState::Silence);
    assert_eq!(vad.process(&voice), VadState::StartTalking);
    assert_eq!(vad.process(&voice), VadState::Talking);

    // Holdoff: 3 frames of silence (>320 per-channel)
    assert_eq!(vad.process(&silence), VadState::Talking);
    assert_eq!(vad.process(&silence), VadState::Talking);
    assert_eq!(vad.process(&silence), VadState::StopTalking);
    assert_eq!(vad.process(&silence), VadState::Silence);
}

#[test]
fn test_vad_mode_energy_default() {
    let vad = VoiceActivityDetector::new(8000);
    assert_eq!(vad.mode(), VadMode::Energy);
    assert!(!vad.mode().is_webrtc_style());
}

#[test]
fn test_vad_mode_webrtc_style_flag() {
    assert!(!VadMode::Energy.is_webrtc_style());
    assert!(VadMode::Quality.is_webrtc_style());
    assert!(VadMode::LowBitrate.is_webrtc_style());
    assert!(VadMode::Aggressive.is_webrtc_style());
    assert!(VadMode::VeryAggressive.is_webrtc_style());
}

#[test]
fn test_vad_mode_quality_detects_voice() {
    let mut vad = VoiceActivityDetector::with_config(8000, 100, 20, 20);
    vad.set_mode(VadMode::Quality);

    let voice = vec![5000i16; 160]; // loud voice
    // Onset: 2 frames needed (>160 per-channel)
    assert_eq!(vad.process(&voice), VadState::Silence);
    assert_eq!(vad.process(&voice), VadState::StartTalking);
    assert_eq!(vad.process(&voice), VadState::Talking);
}

#[test]
fn test_vad_mode_quality_detects_silence() {
    let mut vad = VoiceActivityDetector::with_config(8000, 100, 20, 20);
    vad.set_mode(VadMode::Quality);

    let silence = vec![0i16; 160];
    for _ in 0..20 {
        assert_eq!(vad.process(&silence), VadState::Silence);
    }
}

#[test]
fn test_vad_mode_aggressive_rejects_noise() {
    let mut vad = VoiceActivityDetector::with_config(8000, 100, 20, 20);
    vad.set_mode(VadMode::VeryAggressive);

    // Low-level flat noise (equal energy in all frequencies)
    // VeryAggressive mode requires strong spectral tilt → should reject
    let noise: Vec<i16> = (0..160).map(|i| ((i * 137 + 42) % 100) as i16 - 50).collect();
    for _ in 0..20 {
        assert_eq!(vad.process(&noise), VadState::Silence,
            "VeryAggressive should reject low-level flat noise");
    }
}

#[test]
fn test_vad_mode_aggressive_detects_loud_voice() {
    let mut vad = VoiceActivityDetector::with_config(8000, 100, 20, 20);
    vad.set_mode(VadMode::VeryAggressive);

    // Loud voice (high energy, concentrated in low frequencies)
    let voice: Vec<i16> = (0..160)
        .map(|i| {
            let t = i as f64 / 8000.0;
            (10000.0 * (2.0 * std::f64::consts::PI * 200.0 * t).sin()) as i16
        })
        .collect();

    assert_eq!(vad.process(&voice), VadState::Silence); // onset accumulation
    assert_eq!(vad.process(&voice), VadState::StartTalking);
}

#[test]
fn test_vad_mode_index() {
    assert_eq!(VadMode::Energy.mode_index(), -1);
    assert_eq!(VadMode::Quality.mode_index(), 0);
    assert_eq!(VadMode::LowBitrate.mode_index(), 1);
    assert_eq!(VadMode::Aggressive.mode_index(), 2);
    assert_eq!(VadMode::VeryAggressive.mode_index(), 3);
}

#[test]
fn test_vad_webrtc_mode_with_stereo() {
    // Combine multi-channel + WebRTC mode
    let mut vad = VoiceActivityDetector::with_config(8000, 100, 20, 20);
    vad.set_channels(2);
    vad.set_mode(VadMode::Quality);

    // 320 interleaved samples, voice on ch0
    let mut voice = vec![0i16; 320];
    for i in 0..160 {
        voice[i * 2] = 5000;
    }

    assert_eq!(vad.process(&voice), VadState::Silence);
    assert_eq!(vad.process(&voice), VadState::StartTalking);
}

#[test]
fn starts_and_stops_alternate() {
    let mut vad = VoiceActivityDetector::with_config(8000, 100, 20, 20);
    let loud: Vec<i16> = (0..160).map(|i| if i % 2 == 0 { 5000 } else { -5000 }).collect();
    let mut events: Vec<VadState> = Vec::new();
    for i in 0..60 {
        let state = if i % 12 < 6 { vad.process(&loud) } else { vad.process(&[0; 160]) };
        if state == VadState::StartTalking || state == VadState::StopTalking {
            events.push(state);
        }
    }
    assert_eq!(events.len(), 10);
    for (i, event) in events.iter().enumerate() {
        let expected =
            if i % 2 == 0 { VadState::StartTalking } else { VadState::StopTalking };
        assert_eq!(*event, expected);
    }
}

#[test]
fn a_steady_level_is_not_voice() {
    let mut vad = VoiceActivityDetector::with_config(8000, 100, 20, 20);
    for _ in 0..2000 {
        vad.process(&[3000; 160]);
    }
    assert_eq!(vad.last_energy(), 3000);
    assert!(vad.is_silent());
}
