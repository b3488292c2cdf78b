use vstd::prelude::*;
use vstd::string::StringExecFns;

verus! {

/// Closed, stable error codes of the synchronized-stems media contract.
#[derive(Clone, Copy, Debug, PartialEq, Eq, Structural)]
pub enum StemErrorCode {
    InvalidConfig,
    NonCanonicalSourceScope,
    RouteIdentityMismatch,
    OperationNotAuthorized,
    MediaClassNotAuthorized,
    SourceNotAuthorized,
    TopologyAuthorizationMismatch,
    BindingAuthorizationMismatch,
    InvalidHeader,
    TopologyGenerationMismatch,
    BindingGenerationMismatch,
    ConfigRefMismatch,
    ConfigGenerationMismatch,
    SourceMapVersionMismatch,
    KeyEpochMismatch,
    UnknownSourceRef,
    ConfigNotEffective,
    FrameGeometryMismatch,
    EncodingMismatch,
    FecPolicyMismatch,
    SourceSymbolOutOfRange,
    RepairSymbolOutOfRange,
    DatagramSizeMismatch,
    CarrierMtuExceeded,
    AuthenticationFailed,
    EpochGeometryMismatch,
    DuplicateConflict,
    LateAfterRelease,
    PendingEpochCapacity,
    ClockRegression,
    ArithmeticOverflow,
}

/// The stable wire name of each error code.
pub open spec fn error_code_name(code: StemErrorCode) -> &'static str {
    match code {
        StemErrorCode::InvalidConfig => "invalid_config",
        StemErrorCode::NonCanonicalSourceScope => "noncanonical_authorization_scope",
        StemErrorCode::RouteIdentityMismatch => "route_identity_mismatch",
        StemErrorCode::OperationNotAuthorized => "operation_not_authorized",
        StemErrorCode::MediaClassNotAuthorized => "media_class_not_authorized",
        StemErrorCode::SourceNotAuthorized => "source_not_authorized",
        StemErrorCode::TopologyAuthorizationMismatch => "topology_authorization_mismatch",
        StemErrorCode::BindingAuthorizationMismatch => "binding_authorization_mismatch",
        StemErrorCode::InvalidHeader => "invalid_header",
        StemErrorCode::TopologyGenerationMismatch => "topology_generation_mismatch",
        StemErrorCode::BindingGenerationMismatch => "binding_generation_mismatch",
        StemErrorCode::ConfigRefMismatch => "config_ref_mismatch",
        StemErrorCode::ConfigGenerationMismatch => "config_generation_mismatch",
        StemErrorCode::SourceMapVersionMismatch => "source_map_version_mismatch",
        StemErrorCode::KeyEpochMismatch => "key_epoch_mismatch",
        StemErrorCode::UnknownSourceRef => "unknown_source_ref",
        StemErrorCode::ConfigNotEffective => "config_not_effective",
        StemErrorCode::FrameGeometryMismatch => "frame_geometry_mismatch",
        StemErrorCode::EncodingMismatch => "encoding_mismatch",
        StemErrorCode::FecPolicyMismatch => "fec_policy_mismatch",
        StemErrorCode::SourceSymbolOutOfRange => "source_symbol_out_of_range",
        StemErrorCode::RepairSymbolOutOfRange => "repair_symbol_out_of_range",
        StemErrorCode::DatagramSizeMismatch => "datagram_size_mismatch",
        StemErrorCode::CarrierMtuExceeded => "carrier_mtu_exceeded",
        StemErrorCode::AuthenticationFailed => "authentication_failed",
        StemErrorCode::EpochGeometryMismatch => "epoch_geometry_mismatch",
        StemErrorCode::DuplicateConflict => "duplicate_conflict",
        StemErrorCode::LateAfterRelease => "late_after_release",
        StemErrorCode::PendingEpochCapacity => "pending_epoch_capacity",
        StemErrorCode::ClockRegression => "clock_regression",
        StemErrorCode::ArithmeticOverflow => "arithmetic_overflow",
    }
}

impl StemErrorCode {
    pub fn as_str(self) -> (res: &'static str)
        ensures
            res == error_code_name(self),
    {
        match self {
            StemErrorCode::InvalidConfig => "invalid_config",
            StemErrorCode::NonCanonicalSourceScope => "noncanonical_authorization_scope",
            StemErrorCode::RouteIdentityMismatch => "route_identity_mismatch",
            StemErrorCode::OperationNotAuthorized => "operation_not_authorized",
            StemErrorCode::MediaClassNotAuthorized => "media_class_not_authorized",
            StemErrorCode::SourceNotAuthorized => "source_not_authorized",
            StemErrorCode::TopologyAuthorizationMismatch => "topology_authorization_mismatch",
            StemErrorCode::BindingAuthorizationMismatch => "binding_authorization_mismatch",
            StemErrorCode::InvalidHeader => "invalid_header",
            StemErrorCode::TopologyGenerationMismatch => "topology_generation_mismatch",
            StemErrorCode::BindingGenerationMismatch => "binding_generation_mismatch",
            StemErrorCode::ConfigRefMismatch => "config_ref_mismatch",
            StemErrorCode::ConfigGenerationMismatch => "config_generation_mismatch",
            StemErrorCode::SourceMapVersionMismatch => "source_map_version_mismatch",
            StemErrorCode::KeyEpochMismatch => "key_epoch_mismatch",
            StemErrorCode::UnknownSourceRef => "unknown_source_ref",
            StemErrorCode::ConfigNotEffective => "config_not_effective",
            StemErrorCode::FrameGeometryMismatch => "frame_geometry_mismatch",
            StemErrorCode::EncodingMismatch => "encoding_mismatch",
            StemErrorCode::FecPolicyMismatch => "fec_policy_mismatch",
            StemErrorCode::SourceSymbolOutOfRange => "source_symbol_out_of_range",
            StemErrorCode::RepairSymbolOutOfRange => "repair_symbol_out_of_range",
            StemErrorCode::DatagramSizeMismatch => "datagram_size_mismatch",
            StemErrorCode::CarrierMtuExceeded => "carrier_mtu_exceeded",
            StemErrorCode::AuthenticationFailed => "authentication_failed",
            StemErrorCode::EpochGeometryMismatch => "epoch_geometry_mismatch",
            StemErrorCode::DuplicateConflict => "duplicate_conflict",
            StemErrorCode::LateAfterRelease => "late_after_release",
            StemErrorCode::PendingEpochCapacity => "pending_epoch_capacity",
            StemErrorCode::ClockRegression => "clock_regression",
            StemErrorCode::ArithmeticOverflow => "arithmetic_overflow",
        }
    }
}

/// A stem protocol error: a closed code plus the name of the offending field.
#[derive(Clone, Copy, Debug, PartialEq, Eq)]
pub struct StemError {
    pub code: StemErrorCode,
    pub field: &'static str,
}

/// The error value with the given code and field.
pub open spec fn stem_error(code: StemErrorCode, field: &'static str) -> StemError {
    StemError { code, field }
}

impl StemError {
    pub fn new(code: StemErrorCode, field: &'static str) -> (res: Self)
        ensures
            res == stem_error(code, field),
    {
        StemError { code, field }
    }

    pub fn code(&self) -> (res: StemErrorCode)
        ensures
            res == self.code,
    {
        self.code
    }

    pub fn field(&self) -> (res: &'static str)
        ensures
            res == self.field,
    {
        self.field
    }

    /// The display form `"<code name>: <field>"`.
    pub fn to_string(&self) -> (res: String)
        ensures
            res@ == error_code_name(self.code)@ + ": "@ + self.field@,
    {
        let name = self.code.as_str();
        let text = String::from_str(name);
        let text = text.concat(": ");
        text.concat(self.field)
    }
}

/// The `invalid_config` error for a field.
pub fn invalid(field: &'static str) -> (res: StemError)
    ensures
        res == stem_error(StemErrorCode::InvalidConfig, field),
{
    StemError::new(StemErrorCode::InvalidConfig, field)
}

/// A wire name: lowercase ASCII letters and `_`, not empty.
pub open spec fn snake_case_name(name: Seq<char>) -> bool {
    &&& name.len() >= 1
    &&& forall|i: int| 0 <= i < name.len() ==> ('a' <= #[trigger] name[i] <= 'z' || name[i] == '_')
}

/// The length, first and last character of a name: they tell the wire names
/// of the error codes apart.
pub open spec fn name_key(name: Seq<char>) -> (int, char, char) {
    (name.len() as int, name[0], name[name.len() - 1])
}

/// The error code whose wire name has the given key.
pub open spec fn code_of_name_key(key: (int, char, char)) -> Option<StemErrorCode> {
    if key == (14int, 'i', 'g') {
        Some(StemErrorCode::InvalidConfig)
    } else if key == (32int, 'n', 'e') {
        Some(StemErrorCode::NonCanonicalSourceScope)
    } else if key == (23int, 'r', 'h') {
        Some(StemErrorCode::RouteIdentityMismatch)
    } else if key == (24int, 'o', 'd') {
        Some(StemErrorCode::OperationNotAuthorized)
    } else if key == (26int, 'm', 'd') {
        Some(StemErrorCode::MediaClassNotAuthorized)
    } else if key == (21int, 's', 'd') {
        Some(StemErrorCode::SourceNotAuthorized)
    } else if key == (31int, 't', 'h') {
        Some(StemErrorCode::TopologyAuthorizationMismatch)
    } else if key == (30int, 'b', 'h') {
        Some(StemErrorCode::BindingAuthorizationMismatch)
    } else if key == (14int, 'i', 'r') {
        Some(StemErrorCode::InvalidHeader)
    } else if key == (28int, 't', 'h') {
        Some(StemErrorCode::TopologyGenerationMismatch)
    } else if key == (27int, 'b', 'h') {
        Some(StemErrorCode::BindingGenerationMismatch)
    } else if key == (19int, 'c', 'h') {
        Some(StemErrorCode::ConfigRefMismatch)
    } else if key == (26int, 'c', 'h') {
        Some(StemErrorCode::ConfigGenerationMismatch)
    } else if key == (27int, 's', 'h') {
        Some(StemErrorCode::SourceMapVersionMismatch)
    } else if key == (18int, 'k', 'h') {
        Some(StemErrorCode::KeyEpochMismatch)
    } else if key == (18int, 'u', 'f') {
        Some(StemErrorCode::UnknownSourceRef)
    } else if key == (20int, 'c', 'e') {
        Some(StemErrorCode::ConfigNotEffective)
    } else if key == (23int, 'f', 'h') {
        Some(StemErrorCode::FrameGeometryMismatch)
    } else if key == (17int, 'e', 'h') {
        Some(StemErrorCode::EncodingMismatch)
    } else if key == (19int, 'f', 'h') {
        Some(StemErrorCode::FecPolicyMismatch)
    } else if key == (26int, 's', 'e') {
        Some(StemErrorCode::SourceSymbolOutOfRange)
    } else if key == (26int, 'r', 'e') {
        Some(StemErrorCode::RepairSymbolOutOfRange)
    } else if key == (22int, 'd', 'h') {
        Some(StemErrorCode::DatagramSizeMismatch)
    } else if key == (20int, 'c', 'd') {
        Some(StemErrorCode::CarrierMtuExceeded)
    } else if key == (21int, 'a', 'd') {
        Some(StemErrorCode::AuthenticationFailed)
    } else if key == (23int, 'e', 'h') {
        Some(StemErrorCode::EpochGeometryMismatch)
    } else if key == (18int, 'd', 't') {
        Some(StemErrorCode::DuplicateConflict)
    } else if key == (18int, 'l', 'e') {
        Some(StemErrorCode::LateAfterRelease)
    } else if key == (22int, 'p', 'y') {
        Some(StemErrorCode::PendingEpochCapacity)
    } else if key == (16int, 'c', 'n') {
        Some(StemErrorCode::ClockRegression)
    } else if key == (19int, 'a', 'w') {
        Some(StemErrorCode::ArithmeticOverflow)
    } else {
        None
    }
}

proof fn lemma_name_key(code: StemErrorCode)
    ensures
        code_of_name_key(name_key(error_code_name(code)@)) == Some(code),
{
    match code {
        StemErrorCode::InvalidConfig => {
            reveal_strlit("invalid_config");
        },
        StemErrorCode::NonCanonicalSourceScope => {
            reveal_strlit("noncanonical_authorization_scope");
        },
        StemErrorCode::RouteIdentityMismatch => {
            reveal_strlit("route_identity_mismatch");
        },
        StemErrorCode::OperationNotAuthorized => {
            reveal_strlit("operation_not_authorized");
        },
        StemErrorCode::MediaClassNotAuthorized => {
            reveal_strlit("media_class_not_authorized");
        },
        StemErrorCode::SourceNotAuthorized => {
            reveal_strlit("source_not_authorized");
        },
        StemErrorCode::TopologyAuthorizationMismatch => {
            reveal_strlit("topology_authorization_mismatch");
        },
        StemErrorCode::BindingAuthorizationMismatch => {
            reveal_strlit("binding_authorization_mismatch");
        },
        StemErrorCode::InvalidHeader => {
            reveal_strlit("invalid_header");
        },
        StemErrorCode::TopologyGenerationMismatch => {
            reveal_strlit("topology_generation_mismatch");
        },
        StemErrorCode::BindingGenerationMismatch => {
            reveal_strlit("binding_generation_mismatch");
        },
        StemErrorCode::ConfigRefMismatch => {
            reveal_strlit("config_ref_mismatch");
        },
        StemErrorCode::ConfigGenerationMismatch => {
            reveal_strlit("config_generation_mismatch");
        },
        StemErrorCode::SourceMapVersionMismatch => {
            reveal_strlit("source_map_version_mismatch");
        },
        StemErrorCode::KeyEpochMismatch => {
            reveal_strlit("key_epoch_mismatch");
        },
        StemErrorCode::UnknownSourceRef => {
            reveal_strlit("unknown_source_ref");
        },
        StemErrorCode::ConfigNotEffective => {
            reveal_strlit("config_not_effective");
        },
        StemErrorCode::FrameGeometryMismatch => {
            reveal_strlit("frame_geometry_mismatch");
        },
        StemErrorCode::EncodingMismatch => {
            reveal_strlit("encoding_mismatch");
        },
        StemErrorCode::FecPolicyMismatch => {
            reveal_strlit("fec_policy_mismatch");
        },
        StemErrorCode::SourceSymbolOutOfRange => {
            reveal_strlit("source_symbol_out_of_range");
        },
        StemErrorCode::RepairSymbolOutOfRange => {
            reveal_strlit("repair_symbol_out_of_range");
        },
        StemErrorCode::DatagramSizeMismatch => {
            reveal_strlit("datagram_size_mismatch");
        },
        StemErrorCode::CarrierMtuExceeded => {
            reveal_strlit("carrier_mtu_exceeded");
        },
        StemErrorCode::AuthenticationFailed => {
            reveal_strlit("authentication_failed");
        },
        StemErrorCode::EpochGeometryMismatch => {
            reveal_strlit("epoch_geometry_mismatch");
        },
        StemErrorCode::DuplicateConflict => {
            reveal_strlit("duplicate_conflict");
        },
        StemErrorCode::LateAfterRelease => {
            reveal_strlit("late_after_release");
        },
        StemErrorCode::PendingEpochCapacity => {
            reveal_strlit("pending_epoch_capacity");
        },
        StemErrorCode::ClockRegression => {
            reveal_strlit("clock_regression");
        },
        StemErrorCode::ArithmeticOverflow => {
            reveal_strlit("arithmetic_overflow");
        },
    }
}

/// Every error code has its own wire name, made of lowercase ASCII letters
/// and `_`.
#[verifier::rlimit(100)]
pub proof fn law_error_code_names_are_distinct(a: StemErrorCode, b: StemErrorCode)
    ensures
        snake_case_name(error_code_name(a)@),
        a != b ==> error_code_name(a)@ != error_code_name(b)@,
{
    lemma_name_key(a);
    lemma_name_key(b);
    assert(snake_case_name(error_code_name(a)@)) by {
    reveal_strlit("invalid_config");
    reveal_strlit("noncanonical_authorization_scope");
    reveal_strlit("route_identity_mismatch");
    reveal_strlit("operation_not_authorized");
    reveal_strlit("media_class_not_authorized");
    reveal_strlit("source_not_authorized");
    reveal_strlit("topology_authorization_mismatch");
    reveal_strlit("binding_authorization_mismatch");
    reveal_strlit("invalid_header");
    reveal_strlit("topology_generation_mismatch");
    reveal_strlit("binding_generation_mismatch");
    reveal_strlit("config_ref_mismatch");
    reveal_strlit("config_generation_mismatch");
    reveal_strlit("source_map_version_mismatch");
    reveal_strlit("key_epoch_mismatch");
    reveal_strlit("unknown_source_ref");
    reveal_strlit("config_not_effective");
    reveal_strlit("frame_geometry_mismatch");
    reveal_strlit("encoding_mismatch");
    reveal_strlit("fec_policy_mismatch");
    reveal_strlit("source_symbol_out_of_range");
    reveal_strlit("repair_symbol_out_of_range");
    reveal_strlit("datagram_size_mismatch");
    reveal_strlit("carrier_mtu_exceeded");
    reveal_strlit("authentication_failed");
    reveal_strlit("epoch_geometry_mismatch");
    reveal_strlit("duplicate_conflict");
    reveal_strlit("late_after_release");
    reveal_strlit("pending_epoch_capacity");
    reveal_strlit("clock_regression");
    reveal_strlit("arithmetic_overflow");
    }
}

} // verus!
