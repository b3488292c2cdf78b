//! Transport-neutral v1 talkback media values.
//!
//! Talkback is deliberately a live monitor lane. The type offers no
//! conversion into a recordable frame, source object, take chunk, or archive
//! value. Carrier adapters may wrap it only in [`EphemeralTalkbackFrameV1`].
use bytes::Bytes;
use vstd::prelude::*;
use vstd::string::StringExecFns;
use vstd::utf8::{encode_utf8, encode_utf8_decode_utf8};

verus! {

pub const TALKBACK_SAMPLE_RATE: u32 = 48_000;

pub const TALKBACK_CHANNELS: u16 = 1;

pub const TALKBACK_FRAME_SAMPLES: u32 = 240;

pub const TALKBACK_MAX_PAYLOAD_BYTES: usize = 1_200;

pub const TALKBACK_MAX_LIFETIME_US: u64 = 250_000;

#[verifier::external_type_specification]
#[verifier::external_body]
pub struct ExBytes(bytes::Bytes);

/// The bytes that a `Bytes` buffer holds.
pub uninterp spec fn bytes_content(b: Bytes) -> Seq<u8>;

/// `Bytes::len`: the number of bytes the buffer holds.
#[verifier::external_body]
fn bytes_len(b: &Bytes) -> (res: usize)
    ensures
        res == bytes_content(*b).len(),
{
    b.len()
}

/// `Bytes::clone`: a new handle to the same bytes.
pub assume_specification[ <bytes::Bytes as core::clone::Clone>::clone ](b: &Bytes) -> (res: Bytes)
    ensures
        bytes_content(res) == bytes_content(*b),
;

#[derive(Clone, Copy, Debug, PartialEq, Eq, Structural)]
pub enum TalkbackFrameErrorCode {
    InvalidIdentifier,
    InvalidGeneration,
    InvalidFormat,
    InvalidPayload,
    InvalidDeadline,
    NotRecordable,
}

/// The variant name of an error code, as its `Debug` form prints it.
pub open spec fn talkback_code_name(code: TalkbackFrameErrorCode) -> &'static str {
    match code {
        TalkbackFrameErrorCode::InvalidIdentifier => "InvalidIdentifier",
        TalkbackFrameErrorCode::InvalidGeneration => "InvalidGeneration",
        TalkbackFrameErrorCode::InvalidFormat => "InvalidFormat",
        TalkbackFrameErrorCode::InvalidPayload => "InvalidPayload",
        TalkbackFrameErrorCode::InvalidDeadline => "InvalidDeadline",
        TalkbackFrameErrorCode::NotRecordable => "NotRecordable",
    }
}

impl TalkbackFrameErrorCode {
    pub fn name(self) -> (res: &'static str)
        ensures
            res == talkback_code_name(self),
    {
        match self {
            TalkbackFrameErrorCode::InvalidIdentifier => "InvalidIdentifier",
            TalkbackFrameErrorCode::InvalidGeneration => "InvalidGeneration",
            TalkbackFrameErrorCode::InvalidFormat => "InvalidFormat",
            TalkbackFrameErrorCode::InvalidPayload => "InvalidPayload",
            TalkbackFrameErrorCode::InvalidDeadline => "InvalidDeadline",
            TalkbackFrameErrorCode::NotRecordable => "NotRecordable",
        }
    }
}

/// A talkback validation error: a closed code plus the offending field.
#[derive(Clone, Copy, Debug, PartialEq, Eq)]
pub struct TalkbackFrameError {
    code: TalkbackFrameErrorCode,
    field: &'static str,
}

/// The contents of a talkback validation error.
pub struct TalkbackErrorView {
    pub code: TalkbackFrameErrorCode,
    pub field: &'static str,
}

impl View for TalkbackFrameError {
    type V = TalkbackErrorView;

    closed spec fn view(&self) -> TalkbackErrorView {
        TalkbackErrorView { code: self.code, field: self.field }
    }
}

pub open spec fn talkback_error(code: TalkbackFrameErrorCode, field: &'static str) -> TalkbackErrorView {
    TalkbackErrorView { code, field }
}

/// A check's outcome with the error by its contents.
pub open spec fn check_view(res: Result<(), TalkbackFrameError>) -> Result<(), TalkbackErrorView> {
    match res {
        Ok(()) => Ok(()),
        Err(e) => Err(e@),
    }
}

impl TalkbackFrameError {
    fn new(code: TalkbackFrameErrorCode, field: &'static str) -> (res: Self)
        ensures
            res@ == talkback_error(code, field),
    {
        TalkbackFrameError { code, field }
    }

    pub fn code(&self) -> (res: TalkbackFrameErrorCode)
        ensures
            res == self@.code,
    {
        self.code
    }

    pub fn field(&self) -> (res: &'static str)
        ensures
            res == self@.field,
    {
        self.field
    }

    /// The display form `"<code name>: invalid <field>"`.
    pub fn to_string(&self) -> (res: String)
        ensures
            res@ == talkback_code_name(self@.code)@ + ": invalid "@ + self@.field@,
    {
        let text = String::from_str(self.code.name());
        let text = text.concat(": invalid ");
        text.concat(self.field)
    }
}

#[derive(Clone, Copy, Debug, PartialEq, Eq, Structural)]
pub enum TalkbackCodecV1 {
    Opus,
}

/// The fields offered for one talkback frame, before validation.
#[derive(Clone)]
pub struct TalkbackFrameV1Params {
    pub session_id: String,
    pub session_epoch: u64,
    pub media_authorization_epoch: u64,
    pub subject_grant_epoch: u64,
    pub talkback_epoch: u64,
    pub policy_version: u64,
    pub publisher_participant_id: String,
    pub publisher_endpoint_id: String,
    pub audience_id: String,
    pub sequence: u64,
    pub capture_pts_us: i64,
    pub codec: TalkbackCodecV1,
    pub sample_rate: u32,
    pub channels: u16,
    pub frame_samples: u32,
    pub payload: Bytes,
}

/// A talkback identifier: 1 to 128 bytes, each a visible ASCII character.
pub open spec fn talkback_identifier_bytes(bytes: Seq<u8>) -> bool {
    &&& 1 <= bytes.len() <= 128
    &&& forall|i: int| 0 <= i < bytes.len() ==> 0x21 <= #[trigger] bytes[i] <= 0x7e
}

pub open spec fn talkback_identifier(value: Seq<char>) -> bool {
    talkback_identifier_bytes(encode_utf8(value))
}

fn validate_identifier(field: &'static str, value: &str) -> (res: Result<(), TalkbackFrameError>)
    ensures
        check_view(res) == if talkback_identifier(value@) {
            Ok(())
        } else {
            Err(talkback_error(TalkbackFrameErrorCode::InvalidIdentifier, field))
        },
{
    let bytes = value.as_bytes();
    proof {
        encode_utf8_decode_utf8(value@);
    }
    assert(bytes@ == encode_utf8(value@));
    if bytes.len() == 0 || bytes.len() > 128 {
        return Err(TalkbackFrameError::new(TalkbackFrameErrorCode::InvalidIdentifier, field));
    }
    let mut i: usize = 0;
    while i < bytes.len()
        invariant
            0 <= i <= bytes@.len(),
            1 <= bytes@.len() <= 128,
            bytes@ == encode_utf8(value@),
            forall|k: int| 0 <= k < i ==> 0x21 <= #[trigger] bytes@[k] <= 0x7e,
        decreases bytes@.len() - i,
    {
        if bytes[i] < 0x21 || bytes[i] > 0x7e {
            assert(!(0x21 <= encode_utf8(value@)[i as int] <= 0x7e));
            return Err(TalkbackFrameError::new(TalkbackFrameErrorCode::InvalidIdentifier, field));
        }
        i = i + 1;
    }
    Ok(())
}

/// The checks on offered frame fields, in the order they are made.
pub open spec fn talkback_params_check(p: TalkbackFrameV1Params) -> Result<(), TalkbackErrorView> {
    if !talkback_identifier(p.session_id@) {
        Err(talkback_error(TalkbackFrameErrorCode::InvalidIdentifier, "session_id"))
    } else if !talkback_identifier(p.publisher_participant_id@) {
        Err(talkback_error(TalkbackFrameErrorCode::InvalidIdentifier, "publisher_participant_id"))
    } else if !talkback_identifier(p.publisher_endpoint_id@) {
        Err(talkback_error(TalkbackFrameErrorCode::InvalidIdentifier, "publisher_endpoint_id"))
    } else if !talkback_identifier(p.audience_id@) {
        Err(talkback_error(TalkbackFrameErrorCode::InvalidIdentifier, "audience_id"))
    } else if p.session_epoch == 0 {
        Err(talkback_error(TalkbackFrameErrorCode::InvalidGeneration, "session_epoch"))
    } else if p.media_authorization_epoch == 0 {
        Err(talkback_error(TalkbackFrameErrorCode::InvalidGeneration, "media_authorization_epoch"))
    } else if p.subject_grant_epoch == 0 {
        Err(talkback_error(TalkbackFrameErrorCode::InvalidGeneration, "subject_grant_epoch"))
    } else if p.talkback_epoch == 0 {
        Err(talkback_error(TalkbackFrameErrorCode::InvalidGeneration, "talkback_epoch"))
    } else if p.policy_version == 0 {
        Err(talkback_error(TalkbackFrameErrorCode::InvalidGeneration, "policy_version"))
    } else if p.codec != TalkbackCodecV1::Opus || p.sample_rate != TALKBACK_SAMPLE_RATE || p.channels
        != TALKBACK_CHANNELS || p.frame_samples != TALKBACK_FRAME_SAMPLES {
        Err(talkback_error(TalkbackFrameErrorCode::InvalidFormat, "audio_format"))
    } else if p.capture_pts_us < 0 {
        Err(talkback_error(TalkbackFrameErrorCode::InvalidFormat, "capture_pts_us"))
    } else if bytes_content(p.payload).len() == 0 || bytes_content(p.payload).len() > TALKBACK_MAX_PAYLOAD_BYTES {
        Err(talkback_error(TalkbackFrameErrorCode::InvalidPayload, "payload"))
    } else {
        Ok(())
    }
}

/// One capability-derived, audience-scoped microphone frame.
#[derive(Clone, Debug, PartialEq, Eq)]
pub struct TalkbackFrameV1 {
    session_id: String,
    session_epoch: u64,
    media_authorization_epoch: u64,
    subject_grant_epoch: u64,
    talkback_epoch: u64,
    policy_version: u64,
    publisher_participant_id: String,
    publisher_endpoint_id: String,
    audience_id: String,
    sequence: u64,
    capture_pts_us: i64,
    payload: Bytes,
}

/// The abstract content of a talkback frame.
pub struct TalkbackFrameView {
    pub session_id: Seq<char>,
    pub session_epoch: u64,
    pub media_authorization_epoch: u64,
    pub subject_grant_epoch: u64,
    pub talkback_epoch: u64,
    pub policy_version: u64,
    pub publisher_participant_id: Seq<char>,
    pub publisher_endpoint_id: Seq<char>,
    pub audience_id: Seq<char>,
    pub sequence: u64,
    pub capture_pts_us: i64,
    pub payload: Seq<u8>,
}

impl View for TalkbackFrameV1 {
    type V = TalkbackFrameView;

    closed spec fn view(&self) -> TalkbackFrameView {
        TalkbackFrameView {
            session_id: self.session_id@,
            session_epoch: self.session_epoch,
            media_authorization_epoch: self.media_authorization_epoch,
            subject_grant_epoch: self.subject_grant_epoch,
            talkback_epoch: self.talkback_epoch,
            policy_version: self.policy_version,
            publisher_participant_id: self.publisher_participant_id@,
            publisher_endpoint_id: self.publisher_endpoint_id@,
            audience_id: self.audience_id@,
            sequence: self.sequence,
            capture_pts_us: self.capture_pts_us,
            payload: bytes_content(self.payload),
        }
    }
}

/// The frame that valid offered fields make.
pub open spec fn params_frame_view(p: TalkbackFrameV1Params) -> TalkbackFrameView {
    TalkbackFrameView {
        session_id: p.session_id@,
        session_epoch: p.session_epoch,
        media_authorization_epoch: p.media_authorization_epoch,
        subject_grant_epoch: p.subject_grant_epoch,
        talkback_epoch: p.talkback_epoch,
        policy_version: p.policy_version,
        publisher_participant_id: p.publisher_participant_id@,
        publisher_endpoint_id: p.publisher_endpoint_id@,
        audience_id: p.audience_id@,
        sequence: p.sequence,
        capture_pts_us: p.capture_pts_us,
        payload: bytes_content(p.payload),
    }
}

impl TalkbackFrameV1 {
    /// Validate the offered fields and make a frame of them.
    pub fn new(params: TalkbackFrameV1Params) -> (res: Result<Self, TalkbackFrameError>)
        ensures
            match res {
                Ok(frame) => talkback_params_check(params) is Ok && frame@ == params_frame_view(params),
                Err(e) => talkback_params_check(params) == Err::<(), TalkbackErrorView>(e@),
            },
    {
        validate_identifier("session_id", params.session_id.as_str())?;
        validate_identifier("publisher_participant_id", params.publisher_participant_id.as_str())?;
        validate_identifier("publisher_endpoint_id", params.publisher_endpoint_id.as_str())?;
        validate_identifier("audience_id", params.audience_id.as_str())?;
        if params.session_epoch == 0 {
            return Err(TalkbackFrameError::new(TalkbackFrameErrorCode::InvalidGeneration, "session_epoch"));
        }
        if params.media_authorization_epoch == 0 {
            return Err(
                TalkbackFrameError::new(TalkbackFrameErrorCode::InvalidGeneration, "media_authorization_epoch"),
            );
        }
        if params.subject_grant_epoch == 0 {
            return Err(TalkbackFrameError::new(TalkbackFrameErrorCode::InvalidGeneration, "subject_grant_epoch"));
        }
        if params.talkback_epoch == 0 {
            return Err(TalkbackFrameError::new(TalkbackFrameErrorCode::InvalidGeneration, "talkback_epoch"));
        }
        if params.policy_version == 0 {
            return Err(TalkbackFrameError::new(TalkbackFrameErrorCode::InvalidGeneration, "policy_version"));
        }
        if params.codec != TalkbackCodecV1::Opus || params.sample_rate != TALKBACK_SAMPLE_RATE || params.channels
            != TALKBACK_CHANNELS || params.frame_samples != TALKBACK_FRAME_SAMPLES {
            return Err(TalkbackFrameError::new(TalkbackFrameErrorCode::InvalidFormat, "audio_format"));
        }
        if params.capture_pts_us < 0 {
            return Err(TalkbackFrameError::new(TalkbackFrameErrorCode::InvalidFormat, "capture_pts_us"));
        }
        let payload_len = bytes_len(&params.payload);
        if payload_len == 0 || payload_len > TALKBACK_MAX_PAYLOAD_BYTES {
            return Err(TalkbackFrameError::new(TalkbackFrameErrorCode::InvalidPayload, "payload"));
        }
        Ok(
            TalkbackFrameV1 {
                session_id: params.session_id,
                session_epoch: params.session_epoch,
                media_authorization_epoch: params.media_authorization_epoch,
                subject_grant_epoch: params.subject_grant_epoch,
                talkback_epoch: params.talkback_epoch,
                policy_version: params.policy_version,
                publisher_participant_id: params.publisher_participant_id,
                publisher_endpoint_id: params.publisher_endpoint_id,
                audience_id: params.audience_id,
                sequence: params.sequence,
                capture_pts_us: params.capture_pts_us,
                payload: params.payload,
            },
        )
    }

    pub fn session_id(&self) -> (res: &str)
        ensures
            res@ == self@.session_id,
    {
        self.session_id.as_str()
    }

    pub fn session_epoch(&self) -> (res: u64)
        ensures
            res == self@.session_epoch,
    {
        self.session_epoch
    }

    pub fn media_authorization_epoch(&self) -> (res: u64)
        ensures
            res == self@.media_authorization_epoch,
    {
        self.media_authorization_epoch
    }

    pub fn subject_grant_epoch(&self) -> (res: u64)
        ensures
            res == self@.subject_grant_epoch,
    {
        self.subject_grant_epoch
    }

    pub fn talkback_epoch(&self) -> (res: u64)
        ensures
            res == self@.talkback_epoch,
    {
        self.talkback_epoch
    }

    pub fn policy_version(&self) -> (res: u64)
        ensures
            res == self@.policy_version,
    {
        self.policy_version
    }

    pub fn publisher_participant_id(&self) -> (res: &str)
        ensures
            res@ == self@.publisher_participant_id,
    {
        self.publisher_participant_id.as_str()
    }

    pub fn publisher_endpoint_id(&self) -> (res: &str)
        ensures
            res@ == self@.publisher_endpoint_id,
    {
        self.publisher_endpoint_id.as_str()
    }

    pub fn audience_id(&self) -> (res: &str)
        ensures
            res@ == self@.audience_id,
    {
        self.audience_id.as_str()
    }

    pub fn sequence(&self) -> (res: u64)
        ensures
            res == self@.sequence,
    {
        self.sequence
    }

    pub fn capture_pts_us(&self) -> (res: i64)
        ensures
            res == self@.capture_pts_us,
    {
        self.capture_pts_us
    }

    /// Always Opus: no other codec is accepted.
    pub fn codec(&self) -> (res: TalkbackCodecV1)
        ensures
            res == TalkbackCodecV1::Opus,
    {
        TalkbackCodecV1::Opus
    }

    pub fn sample_rate(&self) -> (res: u32)
        ensures
            res == TALKBACK_SAMPLE_RATE,
    {
        TALKBACK_SAMPLE_RATE
    }

    pub fn channels(&self) -> (res: u16)
        ensures
            res == TALKBACK_CHANNELS,
    {
        TALKBACK_CHANNELS
    }

    pub fn frame_samples(&self) -> (res: u32)
        ensures
            res == TALKBACK_FRAME_SAMPLES,
    {
        TALKBACK_FRAME_SAMPLES
    }

    pub fn payload(&self) -> (res: &Bytes)
        ensures
            bytes_content(*res) == self@.payload,
    {
        &self.payload
    }
}

/// Carrier-local deadline wrapper. It has no retained-object representation.
#[derive(Clone, Debug, PartialEq, Eq)]
pub struct EphemeralTalkbackFrameV1 {
    frame: TalkbackFrameV1,
    accepted_at_unix_us: u64,
    deadline_unix_us: u64,
}

/// A carrier deadline is after acceptance, by at most the maximum lifetime.
pub open spec fn deadline_check(accepted_at_unix_us: u64, deadline_unix_us: u64) -> Result<(), TalkbackErrorView> {
    if deadline_unix_us <= accepted_at_unix_us || deadline_unix_us - accepted_at_unix_us > TALKBACK_MAX_LIFETIME_US {
        Err(talkback_error(TalkbackFrameErrorCode::InvalidDeadline, "deadline_unix_us"))
    } else {
        Ok(())
    }
}

/// The abstract content of an ephemeral frame.
pub struct EphemeralView {
    pub frame: TalkbackFrameView,
    pub accepted_at_unix_us: u64,
    pub deadline_unix_us: u64,
}

impl View for EphemeralTalkbackFrameV1 {
    type V = EphemeralView;

    closed spec fn view(&self) -> EphemeralView {
        EphemeralView {
            frame: self.frame@,
            accepted_at_unix_us: self.accepted_at_unix_us,
            deadline_unix_us: self.deadline_unix_us,
        }
    }
}

impl EphemeralTalkbackFrameV1 {
    /// Wrap a frame with its carrier acceptance time and delivery deadline.
    pub fn new(frame: TalkbackFrameV1, accepted_at_unix_us: u64, deadline_unix_us: u64) -> (res: Result<
        Self,
        TalkbackFrameError,
    >)
        ensures
            match res {
                Ok(e) => deadline_check(accepted_at_unix_us, deadline_unix_us) is Ok && e@ == (EphemeralView {
                    frame: frame@,
                    accepted_at_unix_us,
                    deadline_unix_us,
                }),
                Err(err) => deadline_check(accepted_at_unix_us, deadline_unix_us) == Err::<(), TalkbackErrorView>(
                    err@,
                ),
            },
    {
        let lifetime = match deadline_unix_us.checked_sub(accepted_at_unix_us) {
            Some(lifetime) => lifetime,
            None => return Err(TalkbackFrameError::new(TalkbackFrameErrorCode::InvalidDeadline, "deadline_unix_us")),
        };
        if lifetime == 0 || lifetime > TALKBACK_MAX_LIFETIME_US {
            return Err(TalkbackFrameError::new(TalkbackFrameErrorCode::InvalidDeadline, "deadline_unix_us"));
        }
        Ok(EphemeralTalkbackFrameV1 { frame, accepted_at_unix_us, deadline_unix_us })
    }

    pub fn frame(&self) -> (res: &TalkbackFrameV1)
        ensures
            res@ == self@.frame,
    {
        &self.frame
    }

    pub fn accepted_at_unix_us(&self) -> (res: u64)
        ensures
            res == self@.accepted_at_unix_us,
    {
        self.accepted_at_unix_us
    }

    pub fn deadline_unix_us(&self) -> (res: u64)
        ensures
            res == self@.deadline_unix_us,
    {
        self.deadline_unix_us
    }

    /// The frame may no longer be delivered at `now_unix_us`.
    pub fn is_expired(&self, now_unix_us: u64) -> (res: bool)
        ensures
            res == (now_unix_us >= self@.deadline_unix_us),
    {
        now_unix_us >= self.deadline_unix_us
    }

    pub fn into_frame(self) -> (res: TalkbackFrameV1)
        ensures
            res@ == self@.frame,
    {
        self.frame
    }
}

/// Media classes accepted by source/take recorders. Talkback has no variant.
#[derive(Clone, Copy, Debug, PartialEq, Eq, Structural)]
pub enum RecordableMediaClassV1 {
    Program,
    Source,
    TakeChunk,
}

#[derive(Clone, Copy, Debug, PartialEq, Eq, Structural)]
pub enum AuthorizedMediaClassV1 {
    Program,
    Source,
    Talkback,
    Screen,
    Metadata,
    TakeChunk,
}

/// The recordable class of an authorized class; talkback, screen and
/// metadata have none.
pub open spec fn recordable_class(value: AuthorizedMediaClassV1) -> Option<RecordableMediaClassV1> {
    match value {
        AuthorizedMediaClassV1::Program => Some(RecordableMediaClassV1::Program),
        AuthorizedMediaClassV1::Source => Some(RecordableMediaClassV1::Source),
        AuthorizedMediaClassV1::TakeChunk => Some(RecordableMediaClassV1::TakeChunk),
        _ => None,
    }
}

impl RecordableMediaClassV1 {
    /// Admit an authorized media class to a recorder.
    pub fn try_from(value: AuthorizedMediaClassV1) -> (res: Result<Self, TalkbackFrameError>)
        ensures
            match recordable_class(value) {
                Some(class) => res == Ok::<Self, TalkbackFrameError>(class),
                None => res matches Err(e) && e@ == talkback_error(TalkbackFrameErrorCode::NotRecordable, "media_class"),
            },
    {
        match value {
            AuthorizedMediaClassV1::Program => Ok(RecordableMediaClassV1::Program),
            AuthorizedMediaClassV1::Source => Ok(RecordableMediaClassV1::Source),
            AuthorizedMediaClassV1::TakeChunk => Ok(RecordableMediaClassV1::TakeChunk),
            AuthorizedMediaClassV1::Talkback | AuthorizedMediaClassV1::Screen | AuthorizedMediaClassV1::Metadata => Err(
                TalkbackFrameError::new(TalkbackFrameErrorCode::NotRecordable, "media_class"),
            ),
        }
    }
}


/// Params pass exactly when they have four valid identifiers, five nonzero
/// generations, Opus at 48 kHz mono in 240-sample frames, a capture pts that
/// is not negative (zero included) and a payload of 1 to 1200 bytes; the
/// capture pts is refused only when it is negative.
pub proof fn law_talkback_params_accepted(p: TalkbackFrameV1Params)
    ensures
        ({
            &&& talkback_identifier(p.session_id@)
            &&& talkback_identifier(p.publisher_participant_id@)
            &&& talkback_identifier(p.publisher_endpoint_id@)
            &&& talkback_identifier(p.audience_id@)
            &&& p.session_epoch != 0 && p.media_authorization_epoch != 0 && p.subject_grant_epoch != 0
            &&& p.talkback_epoch != 0 && p.policy_version != 0
            &&& p.codec == TalkbackCodecV1::Opus && p.sample_rate == 48_000 && p.channels == 1 && p.frame_samples
                == 240
            &&& 1 <= bytes_content(p.payload).len() <= 1_200
            &&& p.capture_pts_us >= 0
        }) <==> talkback_params_check(p) is Ok,
        talkback_params_check(p) == Err::<(), TalkbackErrorView>(
            talkback_error(TalkbackFrameErrorCode::InvalidFormat, "capture_pts_us"),
        ) ==> p.capture_pts_us < 0,
{
}


/// A carrier deadline is accepted exactly when it is after the acceptance
/// time by at most 250 ms.
pub proof fn law_deadline_accepted(accepted_at_unix_us: u64, deadline_unix_us: u64)
    ensures
        deadline_check(accepted_at_unix_us, deadline_unix_us) is Ok <==> (accepted_at_unix_us < deadline_unix_us
            && deadline_unix_us - accepted_at_unix_us <= 250_000),
{
}

/// Program, source and take-chunk media may be recorded, as themselves;
/// talkback, screen and metadata never.
pub proof fn law_recordable_media(value: AuthorizedMediaClassV1)
    ensures
        recordable_class(value) == match value {
            AuthorizedMediaClassV1::Program => Some(RecordableMediaClassV1::Program),
            AuthorizedMediaClassV1::Source => Some(RecordableMediaClassV1::Source),
            AuthorizedMediaClassV1::TakeChunk => Some(RecordableMediaClassV1::TakeChunk),
            AuthorizedMediaClassV1::Talkback => None,
            AuthorizedMediaClassV1::Screen => None,
            AuthorizedMediaClassV1::Metadata => None,
        },
{
}

} // verus!
