use rtc_core::rtp::{classify, DatagramKind, MediaTime, RtpHeader};
use rtc_core::streams::{rr_interval, StreamPacket, StreamRx, StreamTx, Streams};
use rtc_core::time::Instant;

fn packet(seq_no: u64, at: u64) -> StreamPacket {
    StreamPacket {
        seq_no,
        pt: 96,
        time: MediaTime { numer: seq_no * 3000, denom: 90_000 },
        header: RtpHeader {
            version: 2,
            has_padding: false,
            has_extension: false,
            marker: false,
            payload_type: 96,
            sequence_number: (seq_no % 65_536) as u16,
            timestamp: (seq_no * 3000 % 0x1_0000_0000) as u32,
            ssrc: 42,
        },
        payload: vec![1, 2, 3],
        nackable: true,
        timestamp: Instant::new(at),
    }
}

#[test]
fn rr_interval_is_one_second_video_five_audio() {
    assert_eq!(rr_interval(false).millis, 1000);
    assert_eq!(rr_interval(true).millis, 5000);
}

#[test]
fn expect_stream_rx_creates_then_updates() {
    let mut s = Streams::new();
    assert!(!s.is_receiving());

    s.expect_stream_rx(7, None);
    assert!(s.is_receiving());
    let rx = s.stream_rx(&7).unwrap();
    assert_eq!(rx.ssrc, 7);
    assert_eq!(rx.rtx, None);

    // Declaring again with an RTX SSRC only adopts the RTX SSRC.
    s.expect_stream_rx(7, Some(8));
    let rx = s.stream_rx(&7).unwrap();
    assert_eq!(rx.ssrc, 7);
    assert_eq!(rx.rtx, Some(8));

    assert!(s.stream_rx(&9).is_none());
}

#[test]
fn declare_stream_tx_hands_out_the_stream() {
    let mut s = Streams::new();
    let tx = s.declare_stream_tx(5, Some(6));
    assert_eq!(tx.ssrc, 5);
    assert_eq!(tx.rtx, Some(6));
    assert_eq!(tx.next_seq_no(), 0);
    assert_eq!(tx.next_seq_no(), 1);

    // Declaring the same SSRC again returns the existing stream.
    let tx = s.declare_stream_tx(5, None);
    assert_eq!(tx.next_seq_no(), 2);

    assert!(s.stream_tx(&5).is_some());
    assert!(s.stream_tx(&7).is_none());
}

#[test]
fn regular_feedback_at_is_min_over_streams() {
    let mut s = Streams::new();
    assert_eq!(s.regular_feedback_at(), None);

    s.expect_stream_rx(1, None);
    let _ = s.declare_stream_tx(2, None);
    // Fresh streams owe a report immediately.
    assert_eq!(s.regular_feedback_at(), Some(Instant::new(0)));

    // After one receiver report the receive side is due one second later
    // (video cadence); the transmit side still holds the minimum.
    let mut rx = StreamRx::new(9);
    assert!(rx.poll_receiver_report(Instant::new(100), false).is_some());
    assert_eq!(rx.receiver_report_at(), Instant::new(1100));
    assert!(rx.poll_receiver_report(Instant::new(200), false).is_none());

    let mut tx = StreamTx::new(10, None);
    assert!(tx.poll_sender_report(Instant::new(100), true));
    assert_eq!(tx.sender_report_at(), Instant::new(5100));
}

#[test]
fn receiver_report_counts_expected_and_lost() {
    let mut rx = StreamRx::new(9);
    assert_eq!(rx.handle_rtp(100, Instant::new(0)), 100);
    assert_eq!(rx.handle_rtp(103, Instant::new(5)), 103);

    let rep = rx.poll_receiver_report(Instant::new(10), false).unwrap();
    assert_eq!(rep.ssrc, 9);
    assert_eq!(rep.max_seq, 103);
    assert_eq!(rep.received, 2);
    // Sequence span 100..=103 means four packets were expected.
    assert_eq!(rep.expected, 4);
    assert_eq!(rep.lost, 2);

    // The late stragglers arrive; the next report shows no loss.
    assert_eq!(rx.handle_rtp(101, Instant::new(20)), 101);
    assert_eq!(rx.handle_rtp(102, Instant::new(21)), 102);
    let rep = rx.poll_receiver_report(Instant::new(2000), false).unwrap();
    assert_eq!(rep.received, 4);
    assert_eq!(rep.expected, 4);
    assert_eq!(rep.lost, 0);
}

#[test]
fn need_nack_follows_gap_detection() {
    let mut s = Streams::new();
    s.expect_stream_rx(42, None);
    assert!(!s.need_nack(Instant::new(0)));

    let mut rx = StreamRx::new(42);
    assert_eq!(rx.handle_rtp(100, Instant::new(0)), 100);
    assert_eq!(rx.handle_rtp(103, Instant::new(1)), 103);
    // 101 and 102 are missing; due one reorder delay after notice.
    assert!(!rx.has_nack(Instant::new(1)));
    assert!(rx.has_nack(Instant::new(31)));
    assert_eq!(rx.poll_nack(Instant::new(31)), Some(101));
    assert_eq!(rx.poll_nack(Instant::new(31)), Some(102));
    assert_eq!(rx.poll_nack(Instant::new(31)), None);
}

#[test]
fn nack_fire_time_is_a_wakeup_deadline() {
    let mut s = Streams::new();
    s.expect_stream_rx(42, None);
    assert_eq!(s.nack_fire_at(), None);

    // A gap appears at t=5: its first report is due one reorder delay on.
    assert_eq!(s.rx_handle_rtp(42, 100, Instant::new(5)), Some(100));
    assert_eq!(s.rx_handle_rtp(42, 103, Instant::new(5)), Some(103));
    assert_eq!(s.nack_fire_at(), Some(Instant::new(35)));
}

#[test]
fn rtx_cache_lookup_and_age_eviction() {
    let mut tx = StreamTx::new(9, None);
    let s0 = tx.next_seq_no();
    let s1 = tx.next_seq_no();
    tx.cache_sent_packet(packet(s0, 0), Instant::new(0));
    tx.cache_sent_packet(packet(s1, 10), Instant::new(10));

    assert_eq!(tx.get_cached_packet_by_seq_no(s0).unwrap().seq_no, s0);
    assert_eq!(tx.get_cached_packet_by_seq_no(s1).unwrap().seq_no, s1);
    assert!(tx.get_cached_packet_by_seq_no(77).is_none());

    // A packet cached much later pushes anything past max age out.
    let s2 = tx.next_seq_no();
    tx.cache_sent_packet(packet(s2, 1500), Instant::new(1500));
    assert!(tx.get_cached_packet_by_seq_no(s0).is_none());
    assert!(tx.get_cached_packet_by_seq_no(s1).is_none());
    assert_eq!(tx.get_cached_packet_by_seq_no(s2).unwrap().seq_no, s2);
}

#[test]
fn rtx_cache_count_eviction() {
    let mut tx = StreamTx::new(9, None);
    for _ in 0..1030u64 {
        let s = tx.next_seq_no();
        tx.cache_sent_packet(packet(s, 0), Instant::new(0));
    }
    // The default bound is 1024 packets: the oldest six are gone.
    assert!(tx.get_cached_packet_by_seq_no(0).is_none());
    assert!(tx.get_cached_packet_by_seq_no(5).is_none());
    assert!(tx.get_cached_packet_by_seq_no(6).is_some());
    assert!(tx.get_cached_packet_by_seq_no(1029).is_some());
}

#[test]
fn classify_discriminates_by_first_byte() {
    assert_eq!(classify(&vec![0, 1, 0, 0]), DatagramKind::Stun);
    assert_eq!(classify(&vec![22, 3, 1, 0]), DatagramKind::Dtls);
    assert_eq!(classify(&vec![0x80, 96, 0, 1]), DatagramKind::Rtp);
    assert_eq!(classify(&vec![0x80, 200, 0, 1]), DatagramKind::Rtcp);
    assert_eq!(classify(&vec![0x80, 201, 0, 1]), DatagramKind::Rtcp);
    assert_eq!(classify(&vec![255, 0]), DatagramKind::Unknown);
    assert_eq!(classify(&vec![0]), DatagramKind::Unknown);
}
