use rtc_core::nack::NackRegister;
use rtc_core::rollover::RolloverRegister;
use rtc_core::time::Instant;

#[test]
fn extension_follows_forward_steps() {
    let mut reg = RolloverRegister::new(0);
    assert_eq!(reg.update_seq(5), 5);
    assert_eq!(reg.update_seq(7), 7);
    assert_eq!(reg.last(), 7);
}

#[test]
fn extension_wraps_forward() {
    let reg = RolloverRegister::new(65_530);
    // 2 is closer ahead (past the wrap) than behind.
    assert_eq!(reg.probe_seq(2), 65_538);
}

#[test]
fn extension_steps_backward() {
    let reg = RolloverRegister::new(65_536);
    // 65535 is one step behind 65536, not a full cycle ahead.
    assert_eq!(reg.probe_seq(65_535), 65_535);
}

#[test]
fn extension_tie_goes_forward() {
    let reg = RolloverRegister::new(100_000);
    let wire = ((100_000u64 + 32_768) % 65_536) as u16;
    // Exactly half the range away on both sides: the value at or above wins.
    assert_eq!(reg.probe_seq(wire), 132_768);
}

#[test]
fn probe_does_not_mutate() {
    let reg = RolloverRegister::new(1000);
    let _ = reg.probe_seq(5);
    assert_eq!(reg.last(), 1000);
}

#[test]
fn shuffled_window_reconstructs_counters() {
    // True 64-bit counters crossing a 16-bit wraparound, fed out of order
    // within a reordering window well under half the wire range.
    let counters: [u64; 8] = [65_534, 65_536, 65_533, 65_537, 65_535, 65_539, 65_538, 65_540];
    let mut reg = RolloverRegister::new(65_532);
    for &actual in counters.iter() {
        let wire = (actual % 65_536) as u16;
        assert_eq!(reg.update_seq(wire), actual);
    }
}

#[test]
fn timestamp_extension_wraps() {
    let reg = RolloverRegister::new(0xFFFF_FFF0);
    // A timestamp just past the 32-bit wrap extends monotonically.
    assert_eq!(reg.probe_time(16), 0x1_0000_0010);
}

#[test]
fn nack_respects_reorder_delay() {
    let mut r = NackRegister::new();
    r.packet_received(10, Instant::new(0));
    r.packet_received(12, Instant::new(0)); // 11 goes missing
    // Not reported before the reorder delay has passed.
    assert_eq!(r.poll(Instant::new(0)), None);
    assert_eq!(r.poll(Instant::new(29)), None);
    assert_eq!(r.poll(Instant::new(30)), Some(11));
    // Immediately afterwards the backoff holds it back.
    assert_eq!(r.poll(Instant::new(31)), None);
}

#[test]
fn nack_backs_off_and_ages_out() {
    let mut r = NackRegister::new();
    r.packet_received(10, Instant::new(0));
    r.packet_received(12, Instant::new(0)); // 11 goes missing

    // Count every report over the whole age window and beyond.
    let mut reports = 0;
    for t in 0..1000u64 {
        if let Some(seq) = r.poll(Instant::new(t)) {
            assert_eq!(seq, 11);
            // Never after the age-out window.
            assert!(t <= 200);
            reports += 1;
        }
    }
    // Reports go out at 30, 60 and 120; the next backoff lands past the
    // age-out window, so the sequence is written off.
    assert_eq!(reports, 3);
    assert!(reports <= 5);
}

#[test]
fn nack_never_reports_more_than_five_times() {
    let mut r = NackRegister::new();
    r.packet_received(0, Instant::new(0));
    r.packet_received(2, Instant::new(0)); // 1 goes missing
    let mut reports = 0;
    let mut t: u64 = 0;
    while t < 100_000 {
        if let Some(_) = r.poll(Instant::new(t)) {
            reports += 1;
        }
        t += 1;
    }
    assert!(reports <= 5);
}

#[test]
fn nack_filled_gap_is_not_reported() {
    let mut r = NackRegister::new();
    r.packet_received(10, Instant::new(0));
    r.packet_received(12, Instant::new(0)); // 11 goes missing
    r.packet_received(11, Instant::new(5)); // ... and arrives late
    assert_eq!(r.poll(Instant::new(30)), None);
    assert!(!r.has_due(Instant::new(30)));
}

#[test]
fn nack_prune_writes_off_aged_entries() {
    let mut r = NackRegister::new();
    r.packet_received(10, Instant::new(0));
    r.packet_received(12, Instant::new(0)); // 11 goes missing
    r.prune(Instant::new(500)); // long past the age-out window
    assert!(!r.has_due(Instant::new(500)));
    assert_eq!(r.poll(Instant::new(500)), None);
}

#[test]
fn nack_big_jump_resets_the_register() {
    let mut r = NackRegister::new();
    r.packet_received(10, Instant::new(0));
    r.packet_received(10_000, Instant::new(1)); // far past MAX_GAP
    assert!(!r.has_due(Instant::new(100)));
}
