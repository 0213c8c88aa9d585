use rtc_core::format::{Codec, CodecSpec, FormatParams, PayloadParams};
use rtc_core::sdp::CodecConfig;

fn opus(pt: u8) -> PayloadParams {
    PayloadParams::new(
        pt,
        None,
        CodecSpec {
            codec: Codec::Opus,
            channels: Some(2),
            clock_rate: 48_000,
            format: FormatParams::default(),
        },
    )
}

fn vp8(pt: u8) -> PayloadParams {
    PayloadParams::new(
        pt,
        None,
        CodecSpec {
            codec: Codec::Vp8,
            channels: None,
            clock_rate: 90_000,
            format: FormatParams::default(),
        },
    )
}

fn h264(pt: u8) -> PayloadParams {
    PayloadParams::new(
        pt,
        None,
        CodecSpec {
            codec: Codec::H264,
            channels: None,
            clock_rate: 90_000,
            format: FormatParams::default(),
        },
    )
}

fn build(params: &[PayloadParams]) -> CodecConfig {
    let mut c = CodecConfig::new();
    for p in params {
        c.add_config(p.pt, p.resend, p.spec_);
    }
    c
}

/// Run one offer/answer round; returns both configs and both remote-PT lists.
fn with_params(
    params_l: &[PayloadParams],
    params_r: &[PayloadParams],
) -> (CodecConfig, CodecConfig, Vec<u8>, Vec<u8>) {
    let mut l = build(params_l);
    let mut r = build(params_r);
    let offer = l.create_offer();
    let (answer, remote_r) = r.accept_offer(&offer);
    let remote_l = l.accept_answer(&answer);
    (l, r, remote_l, remote_r)
}

/// The entry equals `expect` in everything but the lock flag.
fn same_codec(got: &PayloadParams, expect: &PayloadParams) -> bool {
    got.pt == expect.pt && got.resend == expect.resend && got.spec_ == expect.spec_
}

#[test]
pub fn change_default_pt() {
    // First proposed PT is 100, R side adjusts its default from 102 -> 100
    let (l, r, _, _) = with_params(&[opus(100)], &[opus(102)]);

    // Test left side.
    assert_eq!(l.params().len(), 1);
    assert!(same_codec(&l.params()[0], &opus(100)));
    assert!(l.params()[0].is_locked());

    // Test right side.
    assert_eq!(r.params().len(), 1);
    assert!(same_codec(&r.params()[0], &opus(100)));
    assert!(r.params()[0].is_locked());
}

#[test]
pub fn answer_change_order() {
    // First proposed PT are 100/102, but R side has a different order.
    let (l, r, remote_l, remote_r) = with_params(&[vp8(100), h264(102)], &[h264(96), vp8(98)]);

    // Test left side.
    assert_eq!(l.params().len(), 2);
    assert!(same_codec(&l.params()[0], &vp8(100)));
    assert!(same_codec(&l.params()[1], &h264(102)));
    assert!(l.params().iter().all(|p| p.is_locked()));
    // R side has expressed its preference order, but amended the PT to match the OFFER.
    assert_eq!(remote_l, vec![102, 100]);

    // Test right side.
    assert_eq!(r.params().len(), 2);
    assert!(same_codec(&r.params()[0], &h264(102)));
    assert!(same_codec(&r.params()[1], &vp8(100)));
    assert!(r.params().iter().all(|p| p.is_locked()));
    // OFFER straight up.
    assert_eq!(remote_r, vec![100, 102]);
}

#[test]
pub fn answer_narrow() {
    // First proposed PT are 100/102, the R side removes unsupported ones.
    let (l, r, remote_l, remote_r) = with_params(&[vp8(100), h264(102)], &[h264(96)]);

    // Test left side.
    assert_eq!(l.params().len(), 2);
    assert!(same_codec(&l.params()[0], &vp8(100)));
    assert!(same_codec(&l.params()[1], &h264(102)));
    // VP8 is not locked, H264 is.
    assert_eq!(
        l.params().iter().map(|p| p.is_locked()).collect::<Vec<_>>(),
        vec![false, true]
    );
    // R side has narrowed the remote PTs to only the supported.
    assert_eq!(remote_l, vec![102]);

    // Test right side. The PT of h264 is updated with what L OFFERed.
    assert_eq!(r.params().len(), 1);
    assert!(same_codec(&r.params()[0], &h264(102)));
    assert!(r.params().iter().all(|p| p.is_locked()));
    // OFFER straight up.
    assert_eq!(remote_r, vec![102]);
}

#[test]
pub fn answer_no_match() {
    // L has one codec, and that is not matched by R. This should disable the m-line.
    let (l, r, remote_l, remote_r) = with_params(&[vp8(100)], &[h264(96)]);

    // Test left side. Nothing has changed. The codec is not locked.
    assert_eq!(l.params().len(), 1);
    assert!(same_codec(&l.params()[0], &vp8(100)));
    assert!(!l.params()[0].is_locked());
    // No remote PTs.
    assert_eq!(remote_l, Vec::<u8>::new());

    // Test right side. Nothing has changed. The codec is not locked.
    assert_eq!(r.params().len(), 1);
    assert!(same_codec(&r.params()[0], &h264(96)));
    assert!(!r.params()[0].is_locked());
    // No remote PTs.
    assert_eq!(remote_r, Vec::<u8>::new());
}

#[test]
fn locked_pts_survive_renegotiation() {
    // First round locks Opus at PT 100 on both sides.
    let (mut l, mut r, _, _) = with_params(&[opus(100)], &[opus(102)]);
    assert!(l.params()[0].is_locked());
    assert_eq!(r.params()[0].pt, 100);

    // A second round must not change any locked PT.
    let offer = l.create_offer();
    let (answer, _) = r.accept_offer(&offer);
    let _ = l.accept_answer(&answer);

    assert_eq!(l.params()[0].pt, 100);
    assert!(l.params()[0].is_locked());
    assert_eq!(r.params()[0].pt, 100);
    assert!(r.params()[0].is_locked());
}
