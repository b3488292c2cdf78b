use av_api::talkback::{
    AuthorizedMediaClassV1, EphemeralTalkbackFrameV1, RecordableMediaClassV1, TalkbackCodecV1,
    TalkbackFrameErrorCode, TalkbackFrameV1, TalkbackFrameV1Params, TALKBACK_CHANNELS,
    TALKBACK_FRAME_SAMPLES, TALKBACK_SAMPLE_RATE,
};
use bytes::Bytes;

fn params() -> TalkbackFrameV1Params {
    TalkbackFrameV1Params {
        session_id: "ses_mix".into(),
        session_epoch: 9,
        media_authorization_epoch: 14,
        subject_grant_epoch: 3,
        talkback_epoch: 4,
        policy_version: 7,
        publisher_participant_id: "par_producer".into(),
        publisher_endpoint_id: "ep_logic".into(),
        audience_id: "aud_session_cue".into(),
        sequence: 1,
        capture_pts_us: 1_000_000,
        codec: TalkbackCodecV1::Opus,
        sample_rate: TALKBACK_SAMPLE_RATE,
        channels: TALKBACK_CHANNELS,
        frame_samples: TALKBACK_FRAME_SAMPLES,
        payload: Bytes::from_static(b"opus"),
    }
}

fn frame() -> TalkbackFrameV1 {
    TalkbackFrameV1::new(params()).unwrap()
}

#[test]
fn accepts_only_the_fixed_short_mono_opus_profile() {
    let accepted = frame();
    assert_eq!(accepted.sample_rate(), 48_000);
    assert_eq!(accepted.channels(), 1);
    assert_eq!(accepted.frame_samples(), 240);

    let mut wrong = TalkbackFrameV1Params {
        session_id: "ses_mix".into(),
        session_epoch: 9,
        media_authorization_epoch: 14,
        subject_grant_epoch: 3,
        talkback_epoch: 4,
        policy_version: 7,
        publisher_participant_id: "par_producer".into(),
        publisher_endpoint_id: "ep_logic".into(),
        audience_id: "aud_session_cue".into(),
        sequence: 1,
        capture_pts_us: 1_000_000,
        codec: TalkbackCodecV1::Opus,
        sample_rate: TALKBACK_SAMPLE_RATE,
        channels: 2,
        frame_samples: TALKBACK_FRAME_SAMPLES,
        payload: Bytes::from_static(b"opus"),
    };
    assert_eq!(
        TalkbackFrameV1::new(wrong.clone()).unwrap_err().code(),
        TalkbackFrameErrorCode::InvalidFormat
    );
    wrong.channels = 1;
    wrong.frame_samples = 960;
    assert_eq!(
        TalkbackFrameV1::new(wrong).unwrap_err().code(),
        TalkbackFrameErrorCode::InvalidFormat
    );
}

#[test]
fn carrier_deadline_is_short_and_explicit() {
    let accepted = EphemeralTalkbackFrameV1::new(frame(), 1_000_000, 1_100_000).unwrap();
    assert!(!accepted.is_expired(1_099_999));
    assert!(accepted.is_expired(1_100_000));
    assert_eq!(
        EphemeralTalkbackFrameV1::new(frame(), 1_000_000, 1_500_001)
            .unwrap_err()
            .code(),
        TalkbackFrameErrorCode::InvalidDeadline
    );
}

#[test]
fn recorders_have_no_talkback_admission_variant() {
    let before = b"source-artifact".to_vec();
    let mut artifact = before.clone();
    let admitted = RecordableMediaClassV1::try_from(AuthorizedMediaClassV1::Talkback);
    if admitted.is_ok() {
        artifact.extend_from_slice(frame().payload());
    }
    assert_eq!(
        admitted.unwrap_err().code(),
        TalkbackFrameErrorCode::NotRecordable
    );
    assert_eq!(artifact, before);
}

#[test]
fn talkback_frame_keeps_the_offered_fields() {
    let accepted = frame();
    assert_eq!(accepted.session_id(), "ses_mix");
    assert_eq!(accepted.session_epoch(), 9);
    assert_eq!(accepted.media_authorization_epoch(), 14);
    assert_eq!(accepted.subject_grant_epoch(), 3);
    assert_eq!(accepted.talkback_epoch(), 4);
    assert_eq!(accepted.policy_version(), 7);
    assert_eq!(accepted.publisher_participant_id(), "par_producer");
    assert_eq!(accepted.publisher_endpoint_id(), "ep_logic");
    assert_eq!(accepted.audience_id(), "aud_session_cue");
    assert_eq!(accepted.sequence(), 1);
    assert_eq!(accepted.capture_pts_us(), 1_000_000);
    assert_eq!(accepted.codec(), TalkbackCodecV1::Opus);
    assert_eq!(accepted.payload().as_ref(), b"opus");
}

#[test]
fn talkback_identifiers_must_be_short_visible_ascii() {
    for (bad, field) in [
        ("", "session_id"),
        ("ses mix", "session_id"),
        ("sés", "session_id"),
    ] {
        let mut p = params();
        p.session_id = bad.to_string();
        let error = TalkbackFrameV1::new(p).unwrap_err();
        assert_eq!(error.code(), TalkbackFrameErrorCode::InvalidIdentifier);
        assert_eq!(error.field(), field);
    }
    let mut p = params();
    p.audience_id = "a".repeat(129);
    assert_eq!(TalkbackFrameV1::new(p).unwrap_err().field(), "audience_id");
    let mut p = params();
    p.audience_id = "a".repeat(128);
    assert!(TalkbackFrameV1::new(p).is_ok());
    let mut p = params();
    p.publisher_participant_id = "tab\tbed".to_string();
    assert_eq!(
        TalkbackFrameV1::new(p).unwrap_err().field(),
        "publisher_participant_id"
    );
    let mut p = params();
    p.publisher_endpoint_id = "~!".to_string();
    assert!(TalkbackFrameV1::new(p).is_ok());
}

#[test]
fn talkback_generations_must_be_non_zero_in_order() {
    let mut p = params();
    p.subject_grant_epoch = 0;
    p.policy_version = 0;
    let error = TalkbackFrameV1::new(p).unwrap_err();
    assert_eq!(error.code(), TalkbackFrameErrorCode::InvalidGeneration);
    assert_eq!(error.field(), "subject_grant_epoch");
    assert_eq!(error.to_string(), "InvalidGeneration: invalid subject_grant_epoch");
    let mut p = params();
    p.session_epoch = 0;
    assert_eq!(TalkbackFrameV1::new(p).unwrap_err().field(), "session_epoch");
    let mut p = params();
    p.media_authorization_epoch = 0;
    assert_eq!(
        TalkbackFrameV1::new(p).unwrap_err().field(),
        "media_authorization_epoch"
    );
    let mut p = params();
    p.talkback_epoch = 0;
    assert_eq!(TalkbackFrameV1::new(p).unwrap_err().field(), "talkback_epoch");
    let mut p = params();
    p.policy_version = 0;
    assert_eq!(TalkbackFrameV1::new(p).unwrap_err().field(), "policy_version");
}

#[test]
fn talkback_timestamp_and_payload_bounds() {
    let mut p = params();
    p.capture_pts_us = -1;
    let error = TalkbackFrameV1::new(p).unwrap_err();
    assert_eq!(error.code(), TalkbackFrameErrorCode::InvalidFormat);
    assert_eq!(error.field(), "capture_pts_us");
    let mut p = params();
    p.sample_rate = 44_100;
    assert_eq!(TalkbackFrameV1::new(p).unwrap_err().field(), "audio_format");

    let mut p = params();
    p.payload = Bytes::new();
    let error = TalkbackFrameV1::new(p).unwrap_err();
    assert_eq!(error.code(), TalkbackFrameErrorCode::InvalidPayload);
    assert_eq!(error.to_string(), "InvalidPayload: invalid payload");
    let mut p = params();
    p.payload = Bytes::from(vec![1u8; 1_200]);
    assert!(TalkbackFrameV1::new(p).is_ok());
    let mut p = params();
    p.payload = Bytes::from(vec![1u8; 1_201]);
    assert_eq!(
        TalkbackFrameV1::new(p).unwrap_err().code(),
        TalkbackFrameErrorCode::InvalidPayload
    );
}

#[test]
fn carrier_deadline_bounds_are_exact() {
    let accepted = EphemeralTalkbackFrameV1::new(frame(), 10, 250_010).unwrap();
    assert_eq!(accepted.accepted_at_unix_us(), 10);
    assert_eq!(accepted.deadline_unix_us(), 250_010);
    assert_eq!(accepted.frame().sequence(), 1);
    assert_eq!(accepted.clone().into_frame(), frame());
    for deadline in [10, 9, 250_011] {
        let error = EphemeralTalkbackFrameV1::new(frame(), 10, deadline).unwrap_err();
        assert_eq!(error.code(), TalkbackFrameErrorCode::InvalidDeadline);
        assert_eq!(error.field(), "deadline_unix_us");
    }
    assert!(EphemeralTalkbackFrameV1::new(frame(), 10, 11).is_ok());
}

#[test]
fn only_program_source_and_take_chunks_are_recordable() {
    assert_eq!(
        RecordableMediaClassV1::try_from(AuthorizedMediaClassV1::Program),
        Ok(RecordableMediaClassV1::Program)
    );
    assert_eq!(
        RecordableMediaClassV1::try_from(AuthorizedMediaClassV1::Source),
        Ok(RecordableMediaClassV1::Source)
    );
    assert_eq!(
        RecordableMediaClassV1::try_from(AuthorizedMediaClassV1::TakeChunk),
        Ok(RecordableMediaClassV1::TakeChunk)
    );
    for class in [
        AuthorizedMediaClassV1::Talkback,
        AuthorizedMediaClassV1::Screen,
        AuthorizedMediaClassV1::Metadata,
    ] {
        let error = RecordableMediaClassV1::try_from(class).unwrap_err();
        assert_eq!(error.code(), TalkbackFrameErrorCode::NotRecordable);
        assert_eq!(error.field(), "media_class");
        assert_eq!(error.to_string(), "NotRecordable: invalid media_class");
    }
}
