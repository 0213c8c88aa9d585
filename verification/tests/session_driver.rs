use rtc_core::ice::Candidate;
use rtc_core::rtp::{parse_rtp_header, serialize_rtp_header, RtpHeader, RtpParseError};
use rtc_core::session::Session;
use rtc_core::time::Instant;

/// A minimal RTP datagram: version 2, PT 96, the given sequence number,
/// timestamp 7, SSRC 42.
fn rtp_bytes(seq: u16) -> Vec<u8> {
    vec![
        0x80,
        96,
        (seq / 256) as u8,
        (seq % 256) as u8,
        0,
        0,
        0,
        7,
        0,
        0,
        0,
        42,
        1,
        2,
        3,
    ]
}

#[test]
fn parse_rtp_header_reads_fields() {
    let data = rtp_bytes(258);
    let (h, len) = parse_rtp_header(&data).unwrap();
    assert_eq!(h.version, 2);
    assert_eq!(h.payload_type, 96);
    assert_eq!(h.sequence_number, 258);
    assert_eq!(h.timestamp, 7);
    assert_eq!(h.ssrc, 42);
    assert!(!h.marker);
    assert!(!h.has_padding);
    assert!(!h.has_extension);
    assert_eq!(len, 12);
}

#[test]
fn parse_rtp_header_skips_csrcs_and_extension() {
    // Two CSRCs (cc = 2) and a one-word extension.
    let mut data = vec![0x80 | 0x10 | 2, 96, 0, 5, 0, 0, 0, 7, 0, 0, 0, 42];
    data.extend_from_slice(&[0, 0, 0, 1]); // CSRC 1
    data.extend_from_slice(&[0, 0, 0, 2]); // CSRC 2
    data.extend_from_slice(&[0xBE, 0xDE, 0, 1]); // extension header, 1 word
    data.extend_from_slice(&[9, 9, 9, 9]); // the word
    let (h, len) = parse_rtp_header(&data).unwrap();
    assert!(h.has_extension);
    assert_eq!(len, 12 + 8 + 4 + 4);
}

#[test]
fn parse_rtp_header_is_total_on_malformed_input() {
    // Too short for the fixed header.
    assert_eq!(parse_rtp_header(&vec![0x80, 96, 0]), Err(RtpParseError::Truncated));
    // Wrong version bits.
    let mut bad = rtp_bytes(1);
    bad[0] = 0x40;
    assert_eq!(parse_rtp_header(&bad), Err(RtpParseError::BadVersion));
    // Declares two CSRCs it does not carry.
    let mut short = rtp_bytes(1);
    short[0] = 0x80 | 2;
    short.truncate(13);
    assert_eq!(parse_rtp_header(&short), Err(RtpParseError::Truncated));
    // Declares an extension word it does not carry.
    let mut overrun = vec![0x80 | 0x10, 96, 0, 5, 0, 0, 0, 7, 0, 0, 0, 42];
    overrun.extend_from_slice(&[0xBE, 0xDE, 0, 2]);
    overrun.extend_from_slice(&[9, 9, 9, 9]); // only one of two words
    assert_eq!(parse_rtp_header(&overrun), Err(RtpParseError::Truncated));
}

#[test]
fn rtp_header_serialization_round_trips() {
    let h = RtpHeader {
        version: 2,
        has_padding: true,
        has_extension: false,
        marker: true,
        payload_type: 96,
        sequence_number: 0xABCD,
        timestamp: 0xDEAD_BEEF,
        ssrc: 0x0102_0304,
    };
    let bytes = serialize_rtp_header(&h);
    assert_eq!(bytes.len(), 12);
    let (parsed, len) = parse_rtp_header(&bytes).unwrap();
    assert_eq!(parsed, h);
    assert_eq!(len, 12);
}

#[test]
fn session_routes_rtp_to_the_owning_stream() {
    let mut s = Session::new();
    s.streams().expect_stream_rx(42, None);

    let ev = s.handle_rtp_datagram(Instant::new(10), &rtp_bytes(1));
    assert_eq!(ev, Some((42, 1)));

    // A later sequence projects monotonically.
    let ev = s.handle_rtp_datagram(Instant::new(20), &rtp_bytes(3));
    assert_eq!(ev, Some((42, 3)));
    // The skipped sequence is now a NACK candidate after the reorder delay.
    assert!(s.streams().need_nack(Instant::new(60)));
}

#[test]
fn session_absorbs_malformed_and_unknown() {
    let mut s = Session::new();
    s.streams().expect_stream_rx(42, None);

    // Malformed RTP: dropped, counted, no event.
    let ev = s.handle_rtp_datagram(Instant::new(1), &vec![0x80, 96, 0]);
    assert_eq!(ev, None);
    assert_eq!(s.malformed_count(), 1);

    // Unknown SSRC: buffered pending media-line binding, not malformed.
    let mut other = rtp_bytes(1);
    other[11] = 99;
    let ev = s.handle_rtp_datagram(Instant::new(2), &other);
    assert_eq!(ev, None);
    assert_eq!(s.malformed_count(), 1);

    // Not RTP at all: left to the other subsystems.
    let ev = s.handle_rtp_datagram(Instant::new(3), &vec![0, 1, 0, 0]);
    assert_eq!(ev, None);
    assert_eq!(s.malformed_count(), 1);

    // Once the host binds the SSRC, it can replay the buffered packet.
    let pending = s.take_unknown(99);
    assert_eq!(pending.len(), 1);
    assert_eq!(pending[0].ssrc, 99);
    assert_eq!(pending[0].wire_seq, 1);
    assert_eq!(pending[0].arrived, Instant::new(2));
    assert_eq!(s.take_unknown(99).len(), 0);
}

#[test]
fn unknown_ssrc_queue_is_bounded() {
    let mut s = Session::new();
    for i in 0..150u16 {
        let mut pkt = rtp_bytes(i);
        pkt[11] = 99;
        let ev = s.handle_rtp_datagram(Instant::new(i as u64), &pkt);
        assert_eq!(ev, None);
    }
    // Only the first hundred are retained.
    let pending = s.take_unknown(99);
    assert_eq!(pending.len(), 100);
    assert_eq!(pending[0].wire_seq, 0);
    assert_eq!(pending[99].wire_seq, 99);
    assert_eq!(s.malformed_count(), 0);
}

#[test]
fn media_egress_is_gated_on_nomination() {
    let mut s = Session::new();
    assert!(!s.can_send_media());

    let ice = s.ice();
    ice.set_controlling(true);
    ice.add_local_candidate(Candidate::host(0x0A00_0001, 4000));
    ice.add_remote_candidate(Candidate::host(0x0A00_0002, 4000));
    assert!(!s.can_send_media());

    s.handle_timeout(Instant::new(0)); // first check goes out
    s.ice().handle_binding_success(0); // its answer comes back
    assert!(s.can_send_media());
}

#[test]
fn next_wakeup_is_min_over_subsystems() {
    let mut s = Session::new();
    assert_eq!(s.poll_timeout(), None);

    // A fresh receive stream owes feedback immediately.
    s.streams().expect_stream_rx(42, None);
    assert_eq!(s.poll_timeout(), Some(Instant::new(0)));
}
