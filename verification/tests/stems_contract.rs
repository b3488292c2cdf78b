use av_api::config::{
    AuthoritativeStemConfig, CarrierProfile, ChannelDefinition, ChannelLayout, ChannelLayoutName,
    ChannelRole, CompositeIdentity, FecPolicy, FecStrategy, LatencyPolicy, PcmFormat,
    ceiling_in_range, RepairOverheadCeiling, Representation, RepresentationMode, SourceDefinition,
    SourceMap,
    StemConfigParts, StemEncoding, TransportProfile,
};
use av_api::epoch::{EpochAssembler, EpochInsert, MissingReason, ReleaseReason, SourceStatus};
use av_api::wire::{
    group_from_payload, open_authenticated_datagram, recover_authenticated_group, symbol_from_opened,
    AeadOpenError,
    AuthenticatedStemSymbol, AuthorizationMediaClass, AuthorizationOperation, FecRecoveryError,
    RecoveredStemGroup, StemAeadOpener, StemAuthorization, StemDatagramHeader, StemFecRecoverer,
    SymbolKind, SST1_AEAD_TAG_BYTES, SST1_HEADER_BYTES,
};
use av_api::StemErrorCode;

fn mono_layout(channel_id: &str) -> ChannelLayout {
    ChannelLayout::new(
        1,
        ChannelLayoutName::Mono,
        1,
        vec![ChannelDefinition {
            channel_id: channel_id.to_string(),
            order: 0,
            role: ChannelRole::Mono,
            label: None,
        }],
    )
}

fn identity(session_id: &str) -> CompositeIdentity {
    CompositeIdentity::new(
        "ten_demo".to_string(),
        session_id.to_string(),
        1,
        "con_demo".to_string(),
    )
    .unwrap()
}

/// The authoritative demo config: two mono PCM sources, Reed-Solomon 8+2.
fn config_parts(session_id: &str, topology_generation: u64) -> StemConfigParts {
    StemConfigParts {
        schema_version: 1,
        talkback_included: false,
        identity: identity(session_id),
        topology_generation,
        binding_generation: 13,
        config_ref: 41,
        config_generation: 7,
        effective_epoch: 100,
        source_map: SourceMap {
            schema_version: 1,
            talkback_included: false,
            identity: identity(session_id),
            version: 4,
            config_generation: 7,
            effective_epoch: 100,
            source_clock_id: "clk_demo".to_string(),
            sample_rate: 48_000,
            frame_samples: 240,
            sources: vec![
                SourceDefinition::new(
                    "src_vocal".to_string(),
                    1,
                    "Vocal".to_string(),
                    0,
                    true,
                    None,
                    mono_layout("ch_vocal"),
                ),
                SourceDefinition::new(
                    "src_guitar".to_string(),
                    2,
                    "Guitar".to_string(),
                    1,
                    false,
                    None,
                    mono_layout("ch_guitar"),
                ),
            ],
        },
        representation: Representation {
            mode: RepresentationMode::PcmS24le,
            sample_rate: 48_000,
            frame_samples: 240,
            independently_decodable_per_source: true,
            pcm_format: Some(PcmFormat::S24leInterleavedV1),
            opus_frame_duration_microseconds: None,
            priority_encoding: None,
            priority_source_ids: None,
        },
        latency_policy: LatencyPolicy {
            aggregation_deadline_microseconds: 1_000,
            receiver_allowance_milliseconds: 20,
            released_epoch_mutable: false,
        },
        fec_policy: FecPolicy {
            strategy: FecStrategy::ReedSolomon,
            same_deadline_epoch_only: true,
            max_repair_overhead: RepairOverheadCeiling {
                percent_bits: 25.0f64.to_bits(),
                admits_configured_symbols: true,
            },
            source_symbols: Some(8),
            repair_symbols: Some(2),
        },
        carrier: CarrierProfile::new(TransportProfile::NativeDatagram, 1_200, false),
        key_epoch: 3,
        admission_decision_id: "adm_demo".to_string(),
    }
}

fn config() -> AuthoritativeStemConfig {
    AuthoritativeStemConfig::from_parts(config_parts("ses_demo", 11)).expect("valid demo config")
}

fn authorization(
    config: &AuthoritativeStemConfig,
    operation: AuthorizationOperation,
    media_class: AuthorizationMediaClass,
    allowed_source_ids: Vec<&str>,
) -> StemAuthorization {
    StemAuthorization::new(
        config.identity().clone(),
        config.topology_generation(),
        config.binding_generation(),
        operation,
        media_class,
        allowed_source_ids.into_iter().map(str::to_string).collect(),
    )
}

#[derive(Clone, Copy)]
struct TestAead {
    accept: bool,
}

impl StemAeadOpener for TestAead {
    fn open(
        &self,
        key_epoch: u32,
        associated_data: &[u8; SST1_HEADER_BYTES],
        ciphertext: &[u8],
        tag: &[u8; SST1_AEAD_TAG_BYTES],
    ) -> Result<Vec<u8>, AeadOpenError> {
        if self.accept
            && key_epoch == 3
            && associated_data[..4] == *b"SST1"
            && tag.iter().all(|byte| *byte == 0xa5)
        {
            Ok(ciphertext.to_vec())
        } else {
            Err(AeadOpenError)
        }
    }
}

struct OrderedSourceRecoverer;

impl StemFecRecoverer for OrderedSourceRecoverer {
    fn recover(
        &self,
        strategy: FecStrategy,
        source_symbol_count: u16,
        _repair_symbol_count: u16,
        symbols: &[AuthenticatedStemSymbol],
    ) -> Result<Vec<u8>, FecRecoveryError> {
        if strategy != FecStrategy::ReedSolomon {
            return Err(FecRecoveryError);
        }
        let mut source = symbols
            .iter()
            .filter(|symbol| symbol.header().symbol_kind == SymbolKind::Source)
            .collect::<Vec<_>>();
        source.sort_by_key(|symbol| symbol.header().symbol_index);
        if source.len() != usize::from(source_symbol_count) {
            return Err(FecRecoveryError);
        }
        Ok(source[0].payload().to_vec())
    }
}

fn header(source_ref: u16, symbol_index: u16, epoch: u64, pts: u64) -> StemDatagramHeader {
    StemDatagramHeader {
        topology_generation: 11,
        binding_generation: 13,
        config_ref: 41,
        config_generation: 7,
        source_map_version: 4,
        key_epoch: 3,
        source_ref,
        symbol_kind: SymbolKind::Source,
        symbol_index,
        source_symbol_count: 8,
        repair_symbol_count: 2,
        epoch_number: epoch,
        remote_pts: pts,
        group_sequence: epoch,
        frame_samples: 240,
        encoding: StemEncoding::PcmS24le,
        payload_byte_count: 1,
        datagram_byte_count: 101,
    }
}

fn datagram(header: StemDatagramHeader, payload: &[u8], valid_tag: bool) -> Vec<u8> {
    assert_eq!(usize::from(header.payload_byte_count), payload.len());
    let mut output = header.encode().expect("valid test header").to_vec();
    output.extend_from_slice(payload);
    output.extend(std::iter::repeat_n(
        if valid_tag { 0xa5 } else { 0x5a },
        SST1_AEAD_TAG_BYTES,
    ));
    output
}

fn open_symbol(
    config: &AuthoritativeStemConfig,
    mut header: StemDatagramHeader,
    payload: &[u8],
) -> AuthenticatedStemSymbol {
    let authorization = authorization(
        config,
        AuthorizationOperation::Publish,
        AuthorizationMediaClass::Program,
        vec!["src_guitar", "src_vocal"],
    );
    header.payload_byte_count = u16::try_from(payload.len()).unwrap();
    header.datagram_byte_count =
        u16::try_from(SST1_HEADER_BYTES + payload.len() + SST1_AEAD_TAG_BYTES).unwrap();
    open_authenticated_datagram(
        &datagram(header, payload, true),
        config,
        &authorization,
        &TestAead { accept: true },
    )
    .expect("authenticated symbol")
}

fn recovered_group(
    config: &AuthoritativeStemConfig,
    source_ref: u16,
    epoch: u64,
    pts: u64,
    payload_seed: u8,
) -> RecoveredStemGroup {
    let symbols = (0..8)
        .map(|index| {
            let payload = vec![payload_seed.wrapping_add(u8::try_from(index).unwrap()); 720];
            open_symbol(config, header(source_ref, index, epoch, pts), &payload)
        })
        .collect::<Vec<_>>();
    recover_authenticated_group(&symbols, config, &OrderedSourceRecoverer)
        .expect("recovered stem group")
}

fn decode_hex(value: &str) -> Vec<u8> {
    value
        .as_bytes()
        .chunks_exact(2)
        .map(|pair| {
            let digit = |byte: u8| match byte {
                b'0'..=b'9' => byte - b'0',
                b'a'..=b'f' => byte - b'a' + 10,
                _ => panic!("invalid hex"),
            };
            digit(pair[0]) * 16 + digit(pair[1])
        })
        .collect()
}

#[test]
fn sst1_header_matches_the_frozen_84_byte_big_endian_vector() {
    let expected = decode_hex(
        "5353543101000100000000000000000b000000000000000d0000002900000000000000070000000400000003000100000008000200000000000000640000000000005dc00000000000000064000000f002d00334",
    );
    assert_eq!(expected.len(), SST1_HEADER_BYTES);
    let decoded = StemDatagramHeader::decode(&expected).unwrap();
    assert_eq!(decoded.topology_generation, 11);
    assert_eq!(decoded.binding_generation, 13);
    assert_eq!(decoded.config_ref, 41);
    assert_eq!(decoded.source_ref, 1);
    assert_eq!(decoded.epoch_number, 100);
    assert_eq!(decoded.remote_pts, 24_000);
    assert_eq!(decoded.payload_byte_count, 720);
    assert_eq!(decoded.datagram_byte_count, 820);
    assert_eq!(decoded.encode().unwrap().as_slice(), expected);
}

#[test]
fn exact_generation_geometry_fec_and_mtu_mismatches_are_closed() {
    let config = config();
    let authorization = authorization(
        &config,
        AuthorizationOperation::Publish,
        AuthorizationMediaClass::Program,
        vec!["src_guitar", "src_vocal"],
    );
    let open = |header: StemDatagramHeader, payload: Vec<u8>| {
        open_authenticated_datagram(
            &datagram(header, &payload, true),
            &config,
            &authorization,
            &TestAead { accept: true },
        )
        .map(|_| ())
        .map_err(|error| error.code())
    };
    let base = header(1, 0, 100, 24_000);
    let with = |change: &dyn Fn(&mut StemDatagramHeader)| {
        let mut h = base;
        change(&mut h);
        h
    };
    for (mut candidate, expected) in [
        (with(&|h| h.topology_generation = 10), StemErrorCode::TopologyGenerationMismatch),
        (with(&|h| h.binding_generation = 12), StemErrorCode::BindingGenerationMismatch),
        (with(&|h| h.config_ref = 42), StemErrorCode::ConfigRefMismatch),
        (with(&|h| h.config_generation = 8), StemErrorCode::ConfigGenerationMismatch),
        (with(&|h| h.source_map_version = 5), StemErrorCode::SourceMapVersionMismatch),
        (with(&|h| h.key_epoch = 4), StemErrorCode::KeyEpochMismatch),
        (with(&|h| h.source_ref = 3), StemErrorCode::UnknownSourceRef),
        (with(&|h| h.epoch_number = 99), StemErrorCode::ConfigNotEffective),
        (with(&|h| h.frame_samples = 480), StemErrorCode::FrameGeometryMismatch),
        (with(&|h| h.encoding = StemEncoding::Opus), StemErrorCode::EncodingMismatch),
        (with(&|h| h.source_symbol_count = 9), StemErrorCode::FecPolicyMismatch),
        (with(&|h| h.symbol_index = 8), StemErrorCode::SourceSymbolOutOfRange),
        (
            with(&|h| {
                h.symbol_kind = SymbolKind::Repair;
                h.symbol_index = 10;
            }),
            StemErrorCode::RepairSymbolOutOfRange,
        ),
    ] {
        candidate.datagram_byte_count = 101;
        assert_eq!(open(candidate, vec![0]), Err(expected));
    }

    let mut over_mtu = base;
    over_mtu.payload_byte_count = 1_101;
    over_mtu.datagram_byte_count = 1_201;
    assert_eq!(
        open(over_mtu, vec![0; 1_101]),
        Err(StemErrorCode::CarrierMtuExceeded)
    );

    let mut wrong_size = datagram(base, &[0], true);
    wrong_size.push(0);
    assert_eq!(
        open_authenticated_datagram(
            &wrong_size,
            &config,
            &authorization,
            &TestAead { accept: true }
        )
        .unwrap_err()
        .code(),
        StemErrorCode::DatagramSizeMismatch
    );
}

#[test]
fn route_operation_media_generation_and_source_scopes_are_enforced() {
    let config = config();
    let wire = datagram(header(1, 0, 100, 24_000), &[7], true);
    let attempt = |authorization: StemAuthorization| {
        open_authenticated_datagram(&wire, &config, &authorization, &TestAead { accept: true })
            .unwrap_err()
            .code()
    };
    assert_eq!(
        attempt(authorization(
            &config,
            AuthorizationOperation::Subscribe,
            AuthorizationMediaClass::Program,
            vec!["src_guitar", "src_vocal"]
        )),
        StemErrorCode::OperationNotAuthorized
    );
    assert_eq!(
        attempt(authorization(
            &config,
            AuthorizationOperation::Publish,
            AuthorizationMediaClass::Talkback,
            vec!["src_guitar", "src_vocal"]
        )),
        StemErrorCode::MediaClassNotAuthorized
    );
    assert_eq!(
        attempt(authorization(
            &config,
            AuthorizationOperation::Publish,
            AuthorizationMediaClass::Program,
            vec!["src_guitar"]
        )),
        StemErrorCode::SourceNotAuthorized
    );
    assert_eq!(
        attempt(authorization(
            &config,
            AuthorizationOperation::Publish,
            AuthorizationMediaClass::Program,
            vec!["src_vocal", "src_guitar"]
        )),
        StemErrorCode::NonCanonicalSourceScope
    );

    let other_config = AuthoritativeStemConfig::from_parts(config_parts("ses_demo", 10)).unwrap();
    let stale_topology = StemAuthorization::new(
        config.identity().clone(),
        other_config.topology_generation(),
        config.binding_generation(),
        AuthorizationOperation::Publish,
        AuthorizationMediaClass::Program,
        vec!["src_guitar".to_string(), "src_vocal".to_string()],
    );
    assert_eq!(
        attempt(stale_topology),
        StemErrorCode::TopologyAuthorizationMismatch
    );

    let other_identity =
        AuthoritativeStemConfig::from_parts(config_parts("ses_other", 11)).unwrap();
    let wrong_route = StemAuthorization::new(
        other_identity.identity().clone(),
        config.topology_generation(),
        config.binding_generation(),
        AuthorizationOperation::Publish,
        AuthorizationMediaClass::Program,
        vec!["src_guitar".to_string(), "src_vocal".to_string()],
    );
    assert_eq!(attempt(wrong_route), StemErrorCode::RouteIdentityMismatch);
}

#[test]
fn payload_never_becomes_authenticated_when_the_tag_fails() {
    let config = config();
    let authorization = authorization(
        &config,
        AuthorizationOperation::Publish,
        AuthorizationMediaClass::Program,
        vec!["src_guitar", "src_vocal"],
    );
    let error = open_authenticated_datagram(
        &datagram(header(1, 0, 100, 24_000), &[42], false),
        &config,
        &authorization,
        &TestAead { accept: true },
    )
    .unwrap_err();
    assert_eq!(error.code(), StemErrorCode::AuthenticationFailed);
}

#[test]
fn authenticated_symbols_must_form_one_group_before_fec_recovery() {
    let config = config();
    let symbols = (0..8)
        .map(|index| {
            open_symbol(
                &config,
                header(1, index, 100, 24_000),
                &vec![u8::try_from(index).unwrap(); 720],
            )
        })
        .collect::<Vec<_>>();
    let recovered =
        recover_authenticated_group(&symbols, &config, &OrderedSourceRecoverer).unwrap();
    assert_eq!(recovered.source_id(), "src_vocal");
    assert_eq!(recovered.payload(), &[0; 720]);

    let mut mixed = symbols.clone();
    mixed[7] = open_symbol(&config, header(2, 7, 100, 24_000), &[7; 720]);
    assert_eq!(
        recover_authenticated_group(&mixed, &config, &OrderedSourceRecoverer)
            .unwrap_err()
            .code(),
        StemErrorCode::FecPolicyMismatch
    );
}

#[test]
fn complete_epoch_releases_in_source_map_order_after_reordered_arrival() {
    let config = config();
    let mut assembler = EpochAssembler::new(self::config()).unwrap();
    let guitar = recovered_group(&config, 2, 100, 24_000, 20);
    let vocal = recovered_group(&config, 1, 100, 24_000, 10);
    assert_eq!(
        assembler.insert(guitar, 1_000_000).unwrap(),
        EpochInsert::Accepted
    );
    let EpochInsert::Released(released) = assembler.insert(vocal, 1_000_100).unwrap() else {
        panic!("complete epoch should release");
    };
    assert_eq!(released.release_reason(), ReleaseReason::Complete);
    assert!(released.is_safe_complete());
    assert_eq!(released.remote_pts(), 24_000);
    assert_eq!(released.groups()[0].source_id(), "src_vocal");
    assert_eq!(released.groups()[1].source_id(), "src_guitar");
    assert!(released
        .groups()
        .iter()
        .all(|group| group.status() == SourceStatus::Present));
}

#[test]
fn deadline_release_is_immutable_and_late_optional_source_is_discarded() {
    let config = config();
    let mut assembler = EpochAssembler::new(self::config()).unwrap();
    let vocal = recovered_group(&config, 1, 100, 24_000, 10);
    assert_eq!(
        assembler.insert(vocal, 2_000_000).unwrap(),
        EpochInsert::Accepted
    );
    assert!(assembler.release_due(2_999_999).unwrap().is_empty());
    let released = assembler.release_due(3_000_000).unwrap();
    assert_eq!(released.len(), 1);
    assert_eq!(
        released[0].release_reason(),
        ReleaseReason::AggregationDeadline
    );
    assert_eq!(released[0].groups()[0].status(), SourceStatus::Present);
    assert_eq!(
        released[0].groups()[1].status(),
        SourceStatus::MissingOptional
    );
    assert_eq!(
        released[0].groups()[1].missing_reason(),
        Some(MissingReason::AggregationDeadline)
    );
    let guitar = recovered_group(&config, 2, 100, 24_000, 20);
    assert_eq!(
        assembler.insert(guitar, 3_000_001).unwrap(),
        EpochInsert::LateDiscarded
    );
}

#[test]
fn trusted_corruption_reason_survives_deadline_without_resetting_siblings() {
    let config = config();
    let mut assembler = EpochAssembler::new(self::config()).unwrap();
    assembler
        .record_missing_source(100, 24_000, "src_guitar", MissingReason::Corrupt, 4_000_000)
        .unwrap();
    assembler
        .insert(recovered_group(&config, 1, 100, 24_000, 10), 4_000_100)
        .unwrap();
    let released = assembler.release_due(5_000_000).unwrap();
    assert_eq!(released[0].groups()[0].status(), SourceStatus::Present);
    assert_eq!(
        released[0].groups()[1].missing_reason(),
        Some(MissingReason::Corrupt)
    );
}

#[test]
fn duplicate_is_idempotent_but_conflicting_group_is_rejected() {
    let config = config();
    let mut assembler = EpochAssembler::new(self::config()).unwrap();
    let first = recovered_group(&config, 1, 100, 24_000, 10);
    assert_eq!(
        assembler.insert(first.clone(), 6_000_000).unwrap(),
        EpochInsert::Accepted
    );
    assert_eq!(
        assembler.insert(first, 6_000_001).unwrap(),
        EpochInsert::DuplicateDiscarded
    );
    let conflict = recovered_group(&config, 1, 100, 24_000, 11);
    assert_eq!(
        assembler.insert(conflict, 6_000_002).unwrap_err().code(),
        StemErrorCode::DuplicateConflict
    );
}

#[test]
fn timeline_and_pending_capacity_are_bounded_before_state_growth() {
    let config = config();
    let mut assembler = EpochAssembler::with_pending_capacity(self::config(), 1).unwrap();
    assembler
        .insert(recovered_group(&config, 1, 100, 24_000, 10), 7_000_000)
        .unwrap();
    let wrong_pts = recovered_group(&config, 1, 101, 24_241, 10);
    assert_eq!(
        assembler.insert(wrong_pts, 7_000_001).unwrap_err().code(),
        StemErrorCode::EpochGeometryMismatch
    );
    let next = recovered_group(&config, 1, 101, 24_240, 10);
    assert_eq!(
        assembler.insert(next, 7_000_002).unwrap_err().code(),
        StemErrorCode::PendingEpochCapacity
    );
    assert_eq!(assembler.pending_epoch_count(), 1);
}

fn group_with_sequence(
    config: &AuthoritativeStemConfig,
    source_ref: u16,
    epoch: u64,
    pts: u64,
    group_sequence: u64,
) -> RecoveredStemGroup {
    let symbols = (0..8)
        .map(|index| {
            let mut h = header(source_ref, index, epoch, pts);
            h.group_sequence = group_sequence;
            open_symbol(config, h, &vec![3; 720])
        })
        .collect::<Vec<_>>();
    recover_authenticated_group(&symbols, config, &OrderedSourceRecoverer).unwrap()
}

#[test]
fn released_epoch_carries_the_config_and_group_facts() {
    let config = config();
    let mut assembler = EpochAssembler::new(self::config()).unwrap();
    assembler
        .insert(recovered_group(&config, 2, 100, 24_000, 20), 10)
        .unwrap();
    let EpochInsert::Released(released) = assembler
        .insert(recovered_group(&config, 1, 100, 24_000, 10), 20)
        .unwrap()
    else {
        panic!("complete epoch should release");
    };
    assert_eq!(released.identity().session_id(), "ses_demo");
    assert_eq!(released.config_generation(), 7);
    assert_eq!(released.source_map_version(), 4);
    assert_eq!(released.key_epoch(), 3);
    assert_eq!(released.source_clock_id(), "clk_demo");
    assert_eq!(released.epoch_number(), 100);
    assert_eq!(released.frame_samples(), 240);
    assert_eq!(released.released_at_host_time_nanoseconds(), 20);
    let vocal = &released.groups()[0];
    assert!(vocal.required());
    assert_eq!(vocal.channel_count(), 1);
    assert_eq!(vocal.encoding(), Some(StemEncoding::PcmS24le));
    assert_eq!(vocal.group_sequence(), Some(100));
    assert_eq!(vocal.payload(), Some(&[10u8; 720][..]));
    assert_eq!(vocal.missing_reason(), None);
    let guitar = &released.groups()[1];
    assert!(!guitar.required());
    assert_eq!(guitar.payload(), Some(&[20u8; 720][..]));
    assert_eq!(assembler.pending_epoch_count(), 0);
    assert_eq!(
        assembler
            .insert(recovered_group(&config, 1, 100, 24_000, 10), 30)
            .unwrap(),
        EpochInsert::LateDiscarded
    );
    assert_eq!(
        assembler
            .record_missing_source(100, 24_000, "src_vocal", MissingReason::Corrupt, 40)
            .unwrap(),
        EpochInsert::LateDiscarded
    );
}

#[test]
fn deadline_release_reports_missing_required_sources() {
    let config = config();
    let mut assembler = EpochAssembler::new(self::config()).unwrap();
    assembler
        .insert(recovered_group(&config, 2, 100, 24_000, 20), 1_000)
        .unwrap();
    assembler
        .record_missing_source(100, 24_000, "src_vocal", MissingReason::DecodeError, 1_500)
        .unwrap();
    assembler
        .insert(recovered_group(&config, 2, 101, 24_240, 20), 2_000)
        .unwrap();
    assert_eq!(assembler.pending_epoch_count(), 2);
    let released = assembler.release_due(1_001_000).unwrap();
    assert_eq!(released.len(), 1);
    assert!(!released[0].is_safe_complete());
    assert_eq!(released[0].groups()[0].status(), SourceStatus::MissingRequired);
    assert_eq!(
        released[0].groups()[0].missing_reason(),
        Some(MissingReason::DecodeError)
    );
    assert_eq!(released[0].groups()[0].payload(), None);
    assert_eq!(released[0].groups()[1].status(), SourceStatus::Present);
    let rest = assembler.release_due(5_000_000).unwrap();
    assert_eq!(rest.len(), 1);
    assert_eq!(rest[0].epoch_number(), 101);
    assert_eq!(rest[0].remote_pts(), 24_240);
    assert_eq!(assembler.pending_epoch_count(), 0);
}

#[test]
fn due_epochs_release_in_epoch_order() {
    let config = config();
    let mut assembler = EpochAssembler::new(self::config()).unwrap();
    assembler
        .insert(recovered_group(&config, 2, 102, 24_480, 20), 1_000)
        .unwrap();
    assembler
        .insert(recovered_group(&config, 2, 100, 24_000, 20), 1_001)
        .unwrap();
    assembler
        .insert(recovered_group(&config, 2, 101, 24_240, 20), 1_002)
        .unwrap();
    let released = assembler.release_due(2_000_000).unwrap();
    let epochs = released
        .iter()
        .map(|epoch| epoch.epoch_number())
        .collect::<Vec<_>>();
    assert_eq!(epochs, vec![100, 101, 102]);
}

#[test]
fn host_clock_must_be_safe_and_monotonic() {
    let config = config();
    let mut assembler = EpochAssembler::new(self::config()).unwrap();
    assembler
        .insert(recovered_group(&config, 2, 100, 24_000, 20), 5_000)
        .unwrap();
    let error = assembler
        .insert(recovered_group(&config, 1, 100, 24_000, 10), 4_999)
        .unwrap_err();
    assert_eq!(error.code(), StemErrorCode::ClockRegression);
    assert_eq!(error.field(), "hostTimeNanoseconds");
    assert_eq!(error.to_string(), "clock_regression: hostTimeNanoseconds");
    assert_eq!(
        assembler.release_due(9_007_199_254_740_992).unwrap_err().code(),
        StemErrorCode::ClockRegression
    );
    assert!(assembler.release_due(9_007_199_254_740_991).unwrap().len() == 1);
}

#[test]
fn assembler_capacity_is_bounded() {
    for capacity in [0usize, 1_025] {
        let error = EpochAssembler::with_pending_capacity(config(), capacity).unwrap_err();
        assert_eq!(error.code(), StemErrorCode::PendingEpochCapacity);
        assert_eq!(error.field(), "maxPendingEpochs");
    }
    assert!(EpochAssembler::with_pending_capacity(config(), 1_024).is_ok());
    let config = config();
    let mut assembler = EpochAssembler::with_pending_capacity(self::config(), 2).unwrap();
    assembler
        .record_missing_source(100, 24_000, "src_guitar", MissingReason::Unknown, 1)
        .unwrap();
    assembler
        .record_missing_source(101, 24_240, "src_guitar", MissingReason::Unknown, 2)
        .unwrap();
    let error = assembler
        .insert(recovered_group(&config, 1, 102, 24_480, 10), 3)
        .unwrap_err();
    assert_eq!(error.code(), StemErrorCode::PendingEpochCapacity);
    assert_eq!(error.field(), "pendingEpochs");
    assert_eq!(assembler.pending_epoch_count(), 2);
    assert_eq!(
        assembler
            .insert(recovered_group(&config, 1, 101, 24_240, 10), 4)
            .unwrap(),
        EpochInsert::Accepted
    );
}

#[test]
fn epochs_before_the_config_and_off_timeline_are_refused() {
    let config = config();
    let mut assembler = EpochAssembler::new(self::config()).unwrap();
    assert_eq!(
        assembler
            .record_missing_source(99, 23_760, "src_guitar", MissingReason::Corrupt, 1)
            .unwrap(),
        EpochInsert::LateDiscarded
    );
    assembler
        .record_missing_source(110, 26_400, "src_guitar", MissingReason::Corrupt, 2)
        .unwrap();
    let error = assembler
        .record_missing_source(111, 26_400, "src_guitar", MissingReason::Corrupt, 3)
        .unwrap_err();
    assert_eq!(error.code(), StemErrorCode::EpochGeometryMismatch);
    assert_eq!(error.field(), "remotePts");
    let error = assembler
        .record_missing_source(111, 26_640, "src_other", MissingReason::Corrupt, 4)
        .unwrap_err();
    assert_eq!(error.code(), StemErrorCode::SourceNotAuthorized);
    assert_eq!(
        assembler
            .insert(recovered_group(&config, 1, 100, 24_000, 10), 5)
            .unwrap(),
        EpochInsert::Accepted
    );
}

#[test]
fn group_sequence_advances_one_per_epoch() {
    let config = config();
    let mut assembler = EpochAssembler::new(self::config()).unwrap();
    assembler
        .insert(group_with_sequence(&config, 2, 100, 24_000, 7), 1)
        .unwrap();
    assert_eq!(
        assembler
            .insert(group_with_sequence(&config, 2, 102, 24_480, 9), 2)
            .unwrap(),
        EpochInsert::Accepted
    );
    let error = assembler
        .insert(group_with_sequence(&config, 2, 103, 24_720, 11), 3)
        .unwrap_err();
    assert_eq!(error.code(), StemErrorCode::EpochGeometryMismatch);
    assert_eq!(error.field(), "groupSequence");
    assert_eq!(
        assembler
            .insert(group_with_sequence(&config, 1, 103, 24_720, 0), 4)
            .unwrap(),
        EpochInsert::Accepted
    );
}

#[test]
fn invalid_configs_are_refused_with_the_first_failure() {
    let mut parts = config_parts("ses_demo", 11);
    parts.latency_policy.aggregation_deadline_microseconds = 99;
    let error = AuthoritativeStemConfig::from_parts(parts).unwrap_err();
    assert_eq!(error.code(), StemErrorCode::InvalidConfig);
    assert_eq!(error.field(), "latencyPolicy");

    let mut parts = config_parts("ses_demo", 11);
    parts.source_map.identity = identity("ses_other");
    assert_eq!(
        AuthoritativeStemConfig::from_parts(parts).unwrap_err().field(),
        "sourceMap"
    );

    let mut parts = config_parts("ses_demo", 11);
    parts.source_map.sources[1].source_ref = 1;
    assert_eq!(
        AuthoritativeStemConfig::from_parts(parts).unwrap_err().field(),
        "sourceMap.sources.unique"
    );

    let mut parts = config_parts("ses_demo", 11);
    parts.carrier = CarrierProfile::new(TransportProfile::NativeDatagram, 1_501, false);
    assert_eq!(
        AuthoritativeStemConfig::from_parts(parts).unwrap_err().field(),
        "carrier"
    );

    let mut parts = config_parts("ses_demo", 11);
    parts.fec_policy.repair_symbols = None;
    assert_eq!(
        AuthoritativeStemConfig::from_parts(parts).unwrap_err().field(),
        "fecPolicy.symbols"
    );

    let config = config();
    assert_eq!(config.source_map_version(), 4);
    assert_eq!(config.sources().len(), 2);
    assert_eq!(config.sources()[0].source_id(), "src_vocal");
    assert_eq!(config.sources()[1].source_ref(), 2);
    assert_eq!(config.expected_sources().len(), 2);
    assert_eq!(config.source_for_ref(2).unwrap().source_id(), "src_guitar");
    assert!(config.source_for_ref(3).is_none());
    assert_eq!(config.encoding_for_source("src_vocal"), Some(StemEncoding::PcmS24le));
    assert_eq!(config.encoding_for_source("src_none"), None);
}

#[test]
fn truncated_or_foreign_headers_are_invalid() {
    let header = header(1, 0, 100, 24_000).encode().unwrap();
    assert_eq!(
        StemDatagramHeader::decode(&header[..83]).unwrap_err().code(),
        StemErrorCode::InvalidHeader
    );
    let mut foreign = header;
    foreign[0] = b'X';
    assert_eq!(
        StemDatagramHeader::decode(&foreign).unwrap_err().code(),
        StemErrorCode::InvalidHeader
    );
    let decoded = StemDatagramHeader::decode(&header).unwrap();
    assert_eq!(decoded.encode().unwrap(), header);
}

#[test]
fn released_epochs_are_spaced_by_frame_samples_on_the_timeline() {
    let config = config();
    let mut assembler = EpochAssembler::new(self::config()).unwrap();
    assembler
        .insert(recovered_group(&config, 2, 100, 24_000, 20), 1_000)
        .unwrap();
    assembler
        .insert(recovered_group(&config, 2, 103, 24_720, 20), 1_001)
        .unwrap();
    let released = assembler.release_due(2_000_000).unwrap();
    assert_eq!(released.len(), 2);
    assert_eq!(assembler.pending_epoch_count(), 0);
    let spacing = released[1].remote_pts() - released[0].remote_pts();
    let epochs = released[1].epoch_number() - released[0].epoch_number();
    assert_eq!(spacing, epochs * u64::from(config.frame_samples()));
    let error = assembler
        .insert(recovered_group(&config, 2, 104, 24_000, 20), 2_000_001)
        .unwrap_err();
    assert_eq!(error.code(), StemErrorCode::EpochGeometryMismatch);
    assert_eq!(error.field(), "remotePts");
}

#[test]
fn refused_host_time_leaves_reports_and_sweeps_unchanged() {
    let config = config();
    let mut assembler = EpochAssembler::new(self::config()).unwrap();
    assert_eq!(
        assembler
            .record_missing_source(100, 24_000, "src_guitar", MissingReason::AggregationDeadline, 5_000)
            .unwrap(),
        EpochInsert::Accepted
    );
    assert_eq!(assembler.pending_epoch_count(), 1);
    let error = assembler
        .record_missing_source(101, 24_240, "src_guitar", MissingReason::AggregationDeadline, 4_999)
        .unwrap_err();
    assert_eq!(error.code(), StemErrorCode::ClockRegression);
    assert_eq!(error.field(), "hostTimeNanoseconds");
    assert_eq!(assembler.pending_epoch_count(), 1);
    assert_eq!(
        assembler.release_due(4_998).unwrap_err().code(),
        StemErrorCode::ClockRegression
    );
    assert_eq!(assembler.pending_epoch_count(), 1);
    let vocal = recovered_group(&config, 1, 100, 24_000, 10);
    assert_eq!(
        assembler.insert(vocal, 5_000).unwrap(),
        EpochInsert::Accepted
    );
}

#[test]
fn valid_config_finds_each_source_by_ref_and_by_id() {
    let config = config();
    let sources = config.sources();
    assert!(!sources.is_empty());
    for (position, source) in sources.iter().enumerate() {
        assert_eq!(usize::from(source.order()), position);
        let by_ref = config.source_for_ref(source.source_ref()).unwrap();
        assert_eq!(by_ref.source_id(), source.source_id());
        let by_id = config.source_for_id(source.source_id()).unwrap();
        assert_eq!(by_id.source_ref(), source.source_ref());
        assert_eq!(
            usize::from(source.channel_layout().channel_count()),
            source.channel_layout().channels.len()
        );
    }
    assert!(config.source_for_ref(999).is_none());
    assert!(config.source_for_id("src_missing").is_none());
}

#[test]
fn error_code_names_are_distinct_snake_case() {
    let codes = [
        StemErrorCode::InvalidConfig,
        StemErrorCode::NonCanonicalSourceScope,
        StemErrorCode::RouteIdentityMismatch,
        StemErrorCode::OperationNotAuthorized,
        StemErrorCode::MediaClassNotAuthorized,
        StemErrorCode::SourceNotAuthorized,
        StemErrorCode::TopologyAuthorizationMismatch,
        StemErrorCode::BindingAuthorizationMismatch,
        StemErrorCode::InvalidHeader,
        StemErrorCode::TopologyGenerationMismatch,
        StemErrorCode::BindingGenerationMismatch,
        StemErrorCode::ConfigRefMismatch,
        StemErrorCode::ConfigGenerationMismatch,
        StemErrorCode::SourceMapVersionMismatch,
        StemErrorCode::KeyEpochMismatch,
        StemErrorCode::UnknownSourceRef,
        StemErrorCode::ConfigNotEffective,
        StemErrorCode::FrameGeometryMismatch,
        StemErrorCode::EncodingMismatch,
        StemErrorCode::FecPolicyMismatch,
        StemErrorCode::SourceSymbolOutOfRange,
        StemErrorCode::RepairSymbolOutOfRange,
        StemErrorCode::DatagramSizeMismatch,
        StemErrorCode::CarrierMtuExceeded,
        StemErrorCode::AuthenticationFailed,
        StemErrorCode::EpochGeometryMismatch,
        StemErrorCode::DuplicateConflict,
        StemErrorCode::LateAfterRelease,
        StemErrorCode::PendingEpochCapacity,
        StemErrorCode::ClockRegression,
        StemErrorCode::ArithmeticOverflow,
    ];
    assert_eq!(StemErrorCode::InvalidConfig.as_str(), "invalid_config");
    assert_eq!(
        StemErrorCode::NonCanonicalSourceScope.as_str(),
        "noncanonical_authorization_scope"
    );
    assert_eq!(StemErrorCode::ArithmeticOverflow.as_str(), "arithmetic_overflow");
    for (i, a) in codes.iter().enumerate() {
        let name = a.as_str();
        assert!(!name.is_empty());
        assert!(name.bytes().all(|b| b.is_ascii_lowercase() || b == b'_'));
        for b in codes.iter().skip(i + 1) {
            assert_ne!(name, b.as_str());
        }
    }
}

#[test]
fn opener_and_recoverer_results_are_checked_before_use() {
    let config = config();
    let mut h = header(1, 0, 100, 24_000);
    h.payload_byte_count = 4;
    h.datagram_byte_count = u16::try_from(SST1_HEADER_BYTES + 4 + SST1_AEAD_TAG_BYTES).unwrap();
    let source = config.source_for_ref(1).unwrap();
    let refused = symbol_from_opened(h, source, Err(AeadOpenError)).unwrap_err();
    assert_eq!(refused.code(), StemErrorCode::AuthenticationFailed);
    assert_eq!(refused.field(), "aeadTag");
    let short = symbol_from_opened(h, source, Ok(vec![1; 3])).unwrap_err();
    assert_eq!(short.code(), StemErrorCode::AuthenticationFailed);
    assert_eq!(short.field(), "plaintextLength");
    let symbol = symbol_from_opened(h, source, Ok(vec![7; 4])).unwrap();
    assert_eq!(symbol.payload(), &[7, 7, 7, 7]);
    assert_eq!(symbol.source_id(), "src_vocal");
    let empty = group_from_payload(&symbol, Vec::new()).unwrap_err();
    assert_eq!(empty.code(), StemErrorCode::FecPolicyMismatch);
    assert_eq!(empty.field(), "recoveredPayload");
    let ragged = group_from_payload(&symbol, vec![0; 719]).unwrap_err();
    assert_eq!(ragged.code(), StemErrorCode::FrameGeometryMismatch);
    assert_eq!(ragged.field(), "pcmPayloadLength");
    let group = group_from_payload(&symbol, vec![5; 720]).unwrap();
    assert_eq!(group.payload(), vec![5u8; 720].as_slice());
    assert_eq!(group.source_id(), "src_vocal");
}

#[test]
fn repair_ceiling_must_be_a_finite_percentage() {
    for ceiling in [25.0f64, 100.0, 99.5] {
        let mut parts = config_parts("ses_demo", 11);
        parts.fec_policy.max_repair_overhead.percent_bits = ceiling.to_bits();
        assert!(AuthoritativeStemConfig::from_parts(parts).is_ok());
    }
    for ceiling in [100.5f64, -1.0, f64::NAN, -f64::NAN, f64::INFINITY, f64::NEG_INFINITY] {
        let mut parts = config_parts("ses_demo", 11);
        parts.fec_policy.max_repair_overhead.percent_bits = ceiling.to_bits();
        let error = AuthoritativeStemConfig::from_parts(parts).unwrap_err();
        assert_eq!(error.code(), StemErrorCode::InvalidConfig);
        assert_eq!(error.field(), "fecPolicy");
    }
    for ceiling in [0.0f64, -0.0] {
        let mut parts = config_parts("ses_demo", 11);
        parts.fec_policy.max_repair_overhead.percent_bits = ceiling.to_bits();
        parts.fec_policy.max_repair_overhead.admits_configured_symbols = false;
        let error = AuthoritativeStemConfig::from_parts(parts).unwrap_err();
        assert_eq!(error.field(), "fecPolicy.maxRepairOverheadPercent");
    }
}

#[test]
fn ceiling_range_on_bits_agrees_with_the_float_range() {
    let mut samples: Vec<u64> = vec![
        0,
        1,
        0x8000_0000_0000_0000,
        0x8000_0000_0000_0001,
        0x4059_0000_0000_0000,
        0x4059_0000_0000_0001,
        0x7ff0_0000_0000_0000,
        0x7ff8_0000_0000_0000,
        0xfff0_0000_0000_0000,
        u64::MAX,
    ];
    let mut x: u64 = 0x9e37_79b9_7f4a_7c15;
    for _ in 0..2_000 {
        x ^= x << 13;
        x ^= x >> 7;
        x ^= x << 17;
        samples.push(x);
        samples.push(x >> 2);
    }
    for bits in samples {
        let value = f64::from_bits(bits);
        let expected = value.is_finite() && (0.0..=100.0).contains(&value);
        assert_eq!(ceiling_in_range(bits), expected, "bits {bits:#x}");
    }
}
