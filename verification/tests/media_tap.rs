//! Taps on the audio.

use rtpsip::rtp::media_tap::{
    Delivery, MediaTapManager, TapDirection, DEFAULT_TAP_CHANNEL_CAPACITY,
};

#[test]
fn test_tap_direction_includes() {
    assert!(TapDirection::Rx.includes_rx());
    assert!(!TapDirection::Rx.includes_tx());

    assert!(!TapDirection::Tx.includes_rx());
    assert!(TapDirection::Tx.includes_tx());

    assert!(TapDirection::Both.includes_rx());
    assert!(TapDirection::Both.includes_tx());
}

#[test]
fn test_tap_direction_display() {
    assert_eq!(TapDirection::Rx.name(), "rx");
    assert_eq!(TapDirection::Tx.name(), "tx");
    assert_eq!(TapDirection::Both.name(), "both");
}

#[test]
fn test_add_remove_tap() {
    let mut manager = MediaTapManager::new();

    assert_eq!(manager.tap_count(), 0);
    assert!(!manager.has_taps());

    let id1 = manager.add_tap(TapDirection::Rx);
    assert_eq!(manager.tap_count(), 1);
    assert!(manager.has_taps());
    assert!(manager.has_rx_taps());
    assert!(!manager.has_tx_taps());

    let id2 = manager.add_tap(TapDirection::Tx);
    assert_eq!(manager.tap_count(), 2);
    assert!(manager.has_tx_taps());

    assert!(manager.remove_tap(&id1));
    assert_eq!(manager.tap_count(), 1);
    assert!(!manager.has_rx_taps());
    assert!(manager.has_tx_taps());

    assert!(manager.remove_tap(&id2));
    assert_eq!(manager.tap_count(), 0);

    // Removing non-existent tap returns false
    assert!(!manager.remove_tap("nonexistent"));
}

#[test]
fn test_clear() {
    let mut manager = MediaTapManager::new();

    let _ = manager.add_tap(TapDirection::Rx);
    let _ = manager.add_tap(TapDirection::Tx);
    let _ = manager.add_tap(TapDirection::Both);

    assert_eq!(manager.tap_count(), 3);

    manager.clear();
    assert_eq!(manager.tap_count(), 0);
    assert!(!manager.has_taps());
}

#[test]
fn test_active_taps() {
    let mut manager = MediaTapManager::new();

    let id1 = manager.add_tap(TapDirection::Rx);
    let id2 = manager.add_tap(TapDirection::Tx);

    let active = manager.active_taps();
    assert_eq!(active.len(), 2);

    let found_rx = active.iter().any(|(id, dir)| id == &id1 && *dir == TapDirection::Rx);
    let found_tx = active.iter().any(|(id, dir)| id == &id2 && *dir == TapDirection::Tx);
    assert!(found_rx);
    assert!(found_tx);
}

#[test]
fn test_unique_tap_ids() {
    let mut manager = MediaTapManager::new();

    let id1 = manager.add_tap(TapDirection::Rx);
    let id2 = manager.add_tap(TapDirection::Rx);
    let id3 = manager.add_tap(TapDirection::Rx);

    assert_ne!(id1, id2);
    assert_ne!(id2, id3);
    assert_ne!(id1, id3);
}

#[test]
fn test_distribute_rx() {
    let mut manager = MediaTapManager::new();

    let id1 = manager.add_tap(TapDirection::Rx);
    let id2 = manager.add_tap(TapDirection::Both);
    let id3 = manager.add_tap(TapDirection::Tx);

    let samples: Vec<i16> = vec![100, 200, 300];
    let d = manager.distribute_rx(&samples, 8000, 1000);

    assert_eq!(d.frame.samples, samples);
    assert_eq!(d.frame.sample_rate, 8000);
    assert_eq!(d.frame.timestamp, 1000);
    assert_eq!(d.frame.direction, TapDirection::Rx);

    // Rx and Both taps receive, the Tx-only tap does not
    assert_eq!(d.tap_ids, vec![id1, id2]);
    assert!(!d.tap_ids.contains(&id3));
}

#[test]
fn test_distribute_tx() {
    let mut manager = MediaTapManager::new();

    let id1 = manager.add_tap(TapDirection::Rx);
    let id2 = manager.add_tap(TapDirection::Both);
    let id3 = manager.add_tap(TapDirection::Tx);

    let samples: Vec<i16> = vec![400, 500, 600];
    let d = manager.distribute_tx(&samples, 8000, 2000);

    assert_eq!(d.frame.samples, samples);
    assert_eq!(d.frame.timestamp, 2000);
    assert_eq!(d.frame.direction, TapDirection::Tx);

    // Rx-only tap does not receive Tx frames
    assert!(!d.tap_ids.contains(&id1));
    assert_eq!(d.tap_ids, vec![id2, id3]);
}

#[test]
fn test_auto_cleanup_on_receiver_drop() {
    let mut manager = MediaTapManager::new();

    let id1 = manager.add_tap(TapDirection::Rx);
    let id2 = manager.add_tap(TapDirection::Rx);
    assert_eq!(manager.tap_count(), 2);

    // The first reader is gone
    for id in manager.distribute_rx(&[1, 2, 3], 8000, 0).tap_ids {
        let delivery = if id == id1 { Delivery::Closed } else { Delivery::Sent };
        assert!(!manager.settle(&id, delivery));
    }
    assert_eq!(manager.tap_count(), 1);
    assert_eq!(manager.distribute_rx(&[], 8000, 0).tap_ids, vec![id2]);
}

#[test]
fn test_multiple_frames() {
    let mut manager = MediaTapManager::new();
    let id = manager.add_tap(TapDirection::Both);

    let f1 = manager.distribute_rx(&[1, 2], 8000, 100);
    let f2 = manager.distribute_tx(&[3, 4], 8000, 200);
    let f3 = manager.distribute_rx(&[5, 6], 8000, 300);

    for f in [&f1, &f2, &f3] {
        assert_eq!(f.tap_ids, vec![id.clone()]);
    }
    assert_eq!(f1.frame.direction, TapDirection::Rx);
    assert_eq!(f1.frame.samples, vec![1, 2]);
    assert_eq!(f2.frame.direction, TapDirection::Tx);
    assert_eq!(f2.frame.samples, vec![3, 4]);
    assert_eq!(f3.frame.direction, TapDirection::Rx);
    assert_eq!(f3.frame.samples, vec![5, 6]);
}

#[test]
fn test_channel_full_drops_frame_does_not_block() {
    let mut manager = MediaTapManager::new();
    let id = manager.add_tap(TapDirection::Rx);

    let samples: Vec<i16> = vec![42; 160];
    for i in 0..DEFAULT_TAP_CHANNEL_CAPACITY {
        manager.distribute_rx(&samples, 8000, i as u32);
        assert!(!manager.settle(&id, Delivery::Sent));
    }

    // The channel is full: the frame is lost, the tap stays
    manager.distribute_rx(&samples, 8000, 9999);
    assert!(manager.settle(&id, Delivery::Full));
    assert_eq!(manager.tap_count(), 1);
}

#[test]
fn test_channel_full_tx_drops_frame() {
    let mut manager = MediaTapManager::new();
    let id = manager.add_tap(TapDirection::Tx);

    let samples: Vec<i16> = vec![42; 160];
    for i in 0..DEFAULT_TAP_CHANNEL_CAPACITY {
        manager.distribute_tx(&samples, 8000, i as u32);
        assert!(!manager.settle(&id, Delivery::Sent));
    }

    manager.distribute_tx(&samples, 8000, 9999);
    assert!(manager.settle(&id, Delivery::Full));
    assert_eq!(manager.tap_count(), 1);
}

#[test]
fn test_no_taps_distribution_is_noop() {
    let manager = MediaTapManager::new();

    assert!(manager.distribute_rx(&[1, 2, 3], 8000, 0).tap_ids.is_empty());
    assert!(manager.distribute_tx(&[4, 5, 6], 8000, 0).tap_ids.is_empty());
}

#[test]
fn taps_are_numbered() {
    let mut manager = MediaTapManager::default();
    assert_eq!(manager.add_tap(TapDirection::Rx), "tap-1");
    assert_eq!(manager.add_tap(TapDirection::Rx), "tap-2");
    manager.clear();
    assert_eq!(manager.add_tap(TapDirection::Rx), "tap-3");
}
