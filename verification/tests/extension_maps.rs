use rtc_core::ext::Extension::{
    AbsoluteSendTime, AudioLevel, RepairedRtpStreamId, RtpMid, RtpStreamId,
    TransportSequenceNumber,
};
use rtc_core::ext::ExtensionMap;

#[test]
fn narrow_exts() {
    let mut exts_l = ExtensionMap::standard();
    let mut exts_r = ExtensionMap::empty();

    // Not same number as the default.
    exts_r.set(14, TransportSequenceNumber);
    exts_r.set(12, AudioLevel);

    // This negotiates a video track: L offers, R answers, L applies.
    let neg = exts_r.answer_exts(&exts_l, false);
    exts_l.apply_negotiated(&neg, false);

    let v_l = exts_l.iter(false);
    let v_r = exts_r.iter(false);
    let a_l = exts_l.iter(true);
    let a_r = exts_r.iter(true);

    // L only keeps 3 (the default) for TransportSequenceNumber.
    // R only keeps 3, and changes it from 14.
    assert_eq!(v_l, vec![(3, TransportSequenceNumber)]);
    assert_eq!(v_r, vec![(3, TransportSequenceNumber)]);

    // L audio exts are left untouched (the defaults), also ones shared with video.
    // R audio exts are left untouched.
    assert_eq!(
        a_l,
        vec![
            (1, AudioLevel),
            (2, AbsoluteSendTime),
            (3, TransportSequenceNumber),
            (4, RtpMid),
            (10, RtpStreamId),
            (11, RepairedRtpStreamId)
        ]
    );
    assert_eq!(a_r, vec![(3, TransportSequenceNumber), (12, AudioLevel)]);
}

#[test]
fn both_sides_report_equal_video_pairs() {
    let mut l = ExtensionMap::standard();
    let mut r = ExtensionMap::empty();
    r.set(5, AbsoluteSendTime);
    r.set(6, TransportSequenceNumber);
    r.set(7, RtpMid);

    let neg = r.answer_exts(&l, false);
    l.apply_negotiated(&neg, false);

    // The intersection under the offerer's ids, on both sides.
    assert_eq!(l.iter(false), r.iter(false));
    assert_eq!(
        l.iter(false),
        vec![(2, AbsoluteSendTime), (3, TransportSequenceNumber), (4, RtpMid)]
    );
}

#[test]
fn audio_negotiation_leaves_video_ids() {
    let mut l = ExtensionMap::standard();
    let mut r = ExtensionMap::empty();
    r.set(9, AudioLevel);

    let neg = r.answer_exts(&l, true);
    l.apply_negotiated(&neg, true);

    // AudioLevel survives under L's id 1 on both sides.
    assert_eq!(l.iter(true), vec![(1, AudioLevel)]);
    assert_eq!(r.iter(true), vec![(1, AudioLevel)]);
    // L's video entries are untouched by an audio-side negotiation.
    assert_eq!(
        l.iter(false),
        vec![
            (2, AbsoluteSendTime),
            (3, TransportSequenceNumber),
            (4, RtpMid),
            (10, RtpStreamId),
            (11, RepairedRtpStreamId)
        ]
    );
}

#[test]
fn empty_intersection_clears_the_kind() {
    let mut l = ExtensionMap::standard();
    let mut r = ExtensionMap::empty();
    r.set(12, AudioLevel); // audio only, no video extension at all

    let neg = r.answer_exts(&l, false);
    assert_eq!(neg, vec![]);
    l.apply_negotiated(&neg, false);

    assert_eq!(l.iter(false), vec![]);
    // Audio stays as it was.
    assert_eq!(
        l.iter(true),
        vec![
            (1, AudioLevel),
            (2, AbsoluteSendTime),
            (3, TransportSequenceNumber),
            (4, RtpMid),
            (10, RtpStreamId),
            (11, RepairedRtpStreamId)
        ]
    );
}
