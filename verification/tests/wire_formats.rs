use rtc_core::rtcp::{parse_rtcp_compound, RtcpChunk, RtcpParseError};
use rtc_core::stun::{parse_stun_message, StunParseError};

/// One RTCP packet of `words` payload words with packet type `pt`.
fn rtcp_packet(pt: u8, words: u16) -> Vec<u8> {
    let mut p = vec![0x80, pt, (words / 256) as u8, (words % 256) as u8];
    for _ in 0..words {
        p.extend_from_slice(&[0, 0, 0, 0]);
    }
    p
}

#[test]
fn rtcp_compound_walk_finds_packet_boundaries() {
    // A sender report followed by a receiver report and a NACK.
    let mut data = rtcp_packet(200, 6);
    data.extend_from_slice(&rtcp_packet(201, 7));
    data.extend_from_slice(&rtcp_packet(205, 3));

    let chunks = parse_rtcp_compound(&data).unwrap();
    assert_eq!(
        chunks,
        vec![
            RtcpChunk { pt: 200, offset: 0, len: 28 },
            RtcpChunk { pt: 201, offset: 28, len: 32 },
            RtcpChunk { pt: 205, offset: 60, len: 16 },
        ]
    );

    // The empty compound holds no packets.
    assert_eq!(parse_rtcp_compound(&Vec::new()).unwrap(), vec![]);
}

#[test]
fn rtcp_compound_walk_rejects_overrun_and_truncation() {
    // The second packet declares two payload words but carries one.
    let mut data = rtcp_packet(200, 1);
    data.extend_from_slice(&rtcp_packet(201, 2));
    data.truncate(data.len() - 4);
    assert_eq!(
        parse_rtcp_compound(&data),
        Err(RtcpParseError::Overrun { offset: 8 })
    );

    // A header cut off mid-way.
    let data = vec![0x80, 200, 0];
    assert_eq!(
        parse_rtcp_compound(&data),
        Err(RtcpParseError::Truncated { offset: 0 })
    );

    // Wrong version bits on the second packet.
    let mut data = rtcp_packet(200, 0);
    data.extend_from_slice(&[0x40, 201, 0, 0]);
    assert_eq!(
        parse_rtcp_compound(&data),
        Err(RtcpParseError::BadVersion { offset: 4 })
    );
}

/// A STUN message with the given attribute bytes after the header.
fn stun_message(attrs: &[u8]) -> Vec<u8> {
    let mut m = vec![0x00, 0x01]; // binding request
    m.extend_from_slice(&(attrs.len() as u16).to_be_bytes());
    m.extend_from_slice(&[0x21, 0x12, 0xA4, 0x42]); // magic cookie
    m.extend_from_slice(&[7; 12]); // transaction id
    m.extend_from_slice(attrs);
    m
}

#[test]
fn stun_message_walks_padded_attributes() {
    // USERNAME of five bytes (padded to eight) then PRIORITY of four.
    let mut attrs = vec![0x00, 0x06, 0x00, 0x05];
    attrs.extend_from_slice(b"abcde\0\0\0");
    attrs.extend_from_slice(&[0x00, 0x24, 0x00, 0x04, 1, 2, 3, 4]);

    let (header, parsed) = parse_stun_message(&stun_message(&attrs)).unwrap();
    assert_eq!(header.msg_type, 1);
    assert_eq!(header.length, 20);
    assert_eq!(parsed.len(), 2);
    assert_eq!(parsed[0].attr_type, 0x0006);
    assert_eq!(parsed[0].value_offset, 24);
    assert_eq!(parsed[0].value_len, 5);
    assert_eq!(parsed[1].attr_type, 0x0024);
    assert_eq!(parsed[1].value_offset, 36);
    assert_eq!(parsed[1].value_len, 4);
}

#[test]
fn stun_message_rejects_each_fault() {
    // Too short for a header.
    assert_eq!(
        parse_stun_message(&vec![0; 8]),
        Err(StunParseError::Truncated { offset: 8 })
    );

    // Top bits of the type set.
    let mut bad = stun_message(&[]);
    bad[0] = 0x40;
    assert_eq!(parse_stun_message(&bad), Err(StunParseError::BadType));

    // Cookie off by one.
    let mut bad = stun_message(&[]);
    bad[7] = 0x43;
    assert_eq!(parse_stun_message(&bad), Err(StunParseError::BadCookie));

    // Declared length does not fill the datagram.
    let mut bad = stun_message(&[]);
    bad[3] = 4;
    assert_eq!(parse_stun_message(&bad), Err(StunParseError::BadLength));

    // An attribute whose value overruns the message.
    let attrs = vec![0x00, 0x06, 0x00, 0x09, 1, 2, 3, 4];
    assert_eq!(
        parse_stun_message(&stun_message(&attrs)),
        Err(StunParseError::Truncated { offset: 20 })
    );
}
