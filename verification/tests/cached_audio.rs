use av_api::cached_audio::{
    apply_cached_pcm_descriptor_headers, cached_pcm_descriptor_from_headers, cached_pcm_slots,
    cached_slot_bytes, CachedPcmDescriptor, CachedPcmFormat, PCM_BITS_PER_SAMPLE_HEADER,
    PCM_CHANNELS_HEADER, PCM_FORMAT_F32LE_INTERLEAVED, PCM_FORMAT_HEADER,
    PCM_FORMAT_S16LE_INTERLEAVED, PCM_SAMPLE_RATE_HEADER,
};
use http::{HeaderMap, HeaderValue};

#[test]
fn format_names_are_the_header_values() {
    assert_eq!(
        CachedPcmFormat::F32LeInterleaved.as_header_value(),
        "f32le-interleaved"
    );
    assert_eq!(
        CachedPcmFormat::S16LeInterleaved.as_header_value(),
        "s16le-interleaved"
    );
    assert_eq!(PCM_FORMAT_F32LE_INTERLEAVED, "f32le-interleaved");
    assert_eq!(PCM_FORMAT_S16LE_INTERLEAVED, "s16le-interleaved");
}

#[test]
fn format_parse_ignores_surrounding_space_and_ascii_case() {
    assert_eq!(
        CachedPcmFormat::parse("f32le-interleaved"),
        Ok(CachedPcmFormat::F32LeInterleaved)
    );
    assert_eq!(
        CachedPcmFormat::parse("  S16LE-Interleaved\t\n"),
        Ok(CachedPcmFormat::S16LeInterleaved)
    );
    assert_eq!(
        CachedPcmFormat::parse("\u{3000}F32LE-INTERLEAVED\u{a0}"),
        Ok(CachedPcmFormat::F32LeInterleaved)
    );
}

#[test]
fn unknown_format_is_refused_with_its_quoted_name() {
    assert_eq!(
        CachedPcmFormat::parse(" WAV "),
        Err("unsupported cached PCM format \"wav\"".to_string())
    );
    assert_eq!(
        CachedPcmFormat::parse(""),
        Err("unsupported cached PCM format \"\"".to_string())
    );
    assert_eq!(
        CachedPcmFormat::parse("f32le interleaved"),
        Err("unsupported cached PCM format \"f32le interleaved\"".to_string())
    );
}

#[test]
fn descriptor_headers_round_trip() {
    for descriptor in [
        CachedPcmDescriptor::new(CachedPcmFormat::F32LeInterleaved, 48_000, 1, 32),
        CachedPcmDescriptor::new(CachedPcmFormat::S16LeInterleaved, 16_000, 2, 16),
        CachedPcmDescriptor::new(CachedPcmFormat::S16LeInterleaved, u32::MAX, u8::MAX, 0),
        CachedPcmDescriptor::new(CachedPcmFormat::F32LeInterleaved, 0, 0, 255),
    ] {
        let mut headers = HeaderMap::new();
        headers.insert("x-other", HeaderValue::from_static("kept"));
        apply_cached_pcm_descriptor_headers(&mut headers, descriptor).unwrap();
        assert_eq!(cached_pcm_descriptor_from_headers(&headers), Ok(descriptor));
        assert_eq!(headers.get("x-other").unwrap(), "kept");
    }
}

#[test]
fn descriptor_headers_are_written_as_decimal_text() {
    let mut headers = HeaderMap::new();
    headers.insert(PCM_SAMPLE_RATE_HEADER, HeaderValue::from_static("1"));
    headers.append(PCM_SAMPLE_RATE_HEADER, HeaderValue::from_static("2"));
    let descriptor = CachedPcmDescriptor::new(CachedPcmFormat::F32LeInterleaved, 44_100, 2, 32);
    apply_cached_pcm_descriptor_headers(&mut headers, descriptor).unwrap();
    assert_eq!(headers.get(PCM_FORMAT_HEADER).unwrap(), "f32le-interleaved");
    assert_eq!(headers.get(PCM_SAMPLE_RATE_HEADER).unwrap(), "44100");
    assert_eq!(headers.get_all(PCM_SAMPLE_RATE_HEADER).iter().count(), 1);
    assert_eq!(headers.get(PCM_CHANNELS_HEADER).unwrap(), "2");
    assert_eq!(headers.get(PCM_BITS_PER_SAMPLE_HEADER).unwrap(), "32");
}

fn headers(format: &str, rate: &str, channels: &str, bits: &str) -> HeaderMap {
    let mut headers = HeaderMap::new();
    for (name, value) in [
        (PCM_FORMAT_HEADER, format),
        (PCM_SAMPLE_RATE_HEADER, rate),
        (PCM_CHANNELS_HEADER, channels),
        (PCM_BITS_PER_SAMPLE_HEADER, bits),
    ] {
        if !value.is_empty() {
            headers.insert(name, HeaderValue::from_str(value).unwrap());
        }
    }
    headers
}

#[test]
fn descriptor_is_read_with_the_first_failure_reported() {
    assert_eq!(
        cached_pcm_descriptor_from_headers(&headers(" S16LE-INTERLEAVED ", "+8000", "2", "16")),
        Ok(CachedPcmDescriptor::new(CachedPcmFormat::S16LeInterleaved, 8_000, 2, 16))
    );
    assert_eq!(
        cached_pcm_descriptor_from_headers(&headers("", "8000", "2", "16")),
        Err("missing cached PCM format header".to_string())
    );
    assert_eq!(
        cached_pcm_descriptor_from_headers(&headers("pcm", "8000", "2", "16")),
        Err("unsupported cached PCM format \"pcm\"".to_string())
    );
    assert_eq!(
        cached_pcm_descriptor_from_headers(&headers("f32le-interleaved", "", "2", "16")),
        Err("missing header x-av-pcm-sample-rate".to_string())
    );
    assert_eq!(
        cached_pcm_descriptor_from_headers(&headers("f32le-interleaved", "4294967296", "2", "16")),
        Err("invalid x-av-pcm-sample-rate header: number too large to fit in target type".to_string())
    );
    assert_eq!(
        cached_pcm_descriptor_from_headers(&headers("f32le-interleaved", "48000", "-1", "16")),
        Err("invalid x-av-pcm-channels header: invalid digit found in string".to_string())
    );
    assert_eq!(
        cached_pcm_descriptor_from_headers(&headers("f32le-interleaved", "48000", "+", "16")),
        Err("invalid x-av-pcm-channels header: invalid digit found in string".to_string())
    );
    assert_eq!(
        cached_pcm_descriptor_from_headers(&headers("f32le-interleaved", "48000", "1", "256")),
        Err("invalid x-av-pcm-bits header: number too large to fit in target type".to_string())
    );
    assert_eq!(
        cached_pcm_descriptor_from_headers(&headers("f32le-interleaved", "48000", "1", "")),
        Err("missing header x-av-pcm-bits".to_string())
    );
    let mut empty_bits = headers("f32le-interleaved", "48000", "1", "");
    empty_bits.insert(PCM_BITS_PER_SAMPLE_HEADER, HeaderValue::from_static(""));
    assert_eq!(
        cached_pcm_descriptor_from_headers(&empty_bits),
        Err("invalid x-av-pcm-bits header: cannot parse integer from empty string".to_string())
    );
    let mut opaque = headers("f32le-interleaved", "48000", "1", "16");
    opaque.insert(PCM_CHANNELS_HEADER, HeaderValue::from_bytes(b"\xff").unwrap());
    assert_eq!(
        cached_pcm_descriptor_from_headers(&opaque),
        Err("missing header x-av-pcm-channels".to_string())
    );
}

#[test]
fn slots_cut_the_body_in_order() {
    let body: Vec<u8> = (0u8..10).collect();
    let slots = cached_pcm_slots(&body, 4);
    assert_eq!(slots, vec![vec![0, 1, 2, 3], vec![4, 5, 6, 7], vec![8, 9]]);
    assert_eq!(slots.concat(), body);
    assert_eq!(cached_pcm_slots(&body, 5).len(), 2);
    assert_eq!(cached_pcm_slots(&body, 100), vec![body.clone()]);
    assert!(cached_pcm_slots(&[], 8).is_empty());
    assert_eq!(cached_slot_bytes(0), 1);
    assert_eq!(cached_slot_bytes(8), 8);
    assert_eq!(cached_pcm_slots(&[7, 8], 0), vec![vec![7], vec![8]]);
}

#[test]
fn descriptor_header_map_holds_just_the_four_headers() {
    let descriptor = CachedPcmDescriptor::new(CachedPcmFormat::S16LeInterleaved, 22_050, 1, 16);
    let headers = av_api::cached_audio::cached_pcm_descriptor_header_map(descriptor);
    assert_eq!(headers.keys_len(), 4);
    assert_eq!(headers.get(PCM_SAMPLE_RATE_HEADER).unwrap(), "22050");
    assert_eq!(cached_pcm_descriptor_from_headers(&headers), Ok(descriptor));
}

#[test]
fn parsing_a_parsed_format_header_value_gives_the_same_format() {
    for raw in ["  S16LE-Interleaved\t", "F32LE-INTERLEAVED", "\u{a0}f32le-interleaved"] {
        let format = CachedPcmFormat::parse(raw).unwrap();
        assert_eq!(CachedPcmFormat::parse(format.as_header_value()), Ok(format));
    }
}

#[test]
fn parsing_a_text_equals_parsing_its_trimmed_lowercase_form() {
    for raw in ["  F32LE-Interleaved ", "\tS16LE-INTERLEAVED\n", " WAV ", "F32LE interleaved"] {
        let normal = raw.trim().to_ascii_lowercase();
        assert_eq!(CachedPcmFormat::parse(raw), CachedPcmFormat::parse(&normal));
    }
}
