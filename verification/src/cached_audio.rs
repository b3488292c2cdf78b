//! The cached PCM descriptor: the format names, the four HTTP headers that
//! carry a descriptor, and the slots that a cached PCM body is written in.
use http::{HeaderMap, HeaderValue};
use vstd::prelude::*;
use vstd::string::{StrSliceExecFns, StringExecFns};
use vstd::utf8::{encode_utf8, encode_utf8_decode_utf8};

verus! {

pub const PCM_FORMAT_HEADER: &'static str = "x-av-pcm-format";

pub const PCM_SAMPLE_RATE_HEADER: &'static str = "x-av-pcm-sample-rate";

pub const PCM_CHANNELS_HEADER: &'static str = "x-av-pcm-channels";

pub const PCM_BITS_PER_SAMPLE_HEADER: &'static str = "x-av-pcm-bits";

pub const PCM_FORMAT_F32LE_INTERLEAVED: &'static str = "f32le-interleaved";

pub const PCM_FORMAT_S16LE_INTERLEAVED: &'static str = "s16le-interleaved";

#[verifier::external_type_specification]
#[verifier::external_body]
#[verifier::reject_recursive_types(T)]
pub struct ExHeaderMap<T>(http::HeaderMap<T>);

#[verifier::external_type_specification]
#[verifier::external_body]
pub struct ExHeaderValue(http::HeaderValue);

#[verifier::external_type_specification]
#[verifier::external_body]
pub struct ExInvalidHeaderValue(http::header::InvalidHeaderValue);

#[verifier::external_type_specification]
#[verifier::external_body]
pub struct ExToStrError(http::header::ToStrError);

/// The bytes that a header value holds.
pub uninterp spec fn header_value_bytes(v: HeaderValue) -> Seq<u8>;

/// For each header name in the map, the bytes of its first value.
pub uninterp spec fn header_first_values(h: HeaderMap<HeaderValue>) -> Map<Seq<char>, Seq<u8>>;

/// The number of distinct header names in the map.
pub uninterp spec fn header_key_count(h: HeaderMap<HeaderValue>) -> nat;

/// Below this many names, one more `insert` stays clear of the map's
/// maximum table size, where `insert` panics.
pub const HEADER_MAP_INSERT_LIMIT: u64 = 6_553;

/// A byte that `HeaderValue::to_str` and `HeaderValue::from_static` accept.
pub open spec fn visible_ascii(b: u8) -> bool {
    (32 <= b < 127) || b == 9
}

/// A byte that `HeaderValue::from_str` accepts.
pub open spec fn header_value_byte(b: u8) -> bool {
    (b >= 32 && b != 127) || b == 9
}

pub open spec fn all_visible_ascii(bytes: Seq<u8>) -> bool {
    forall|i: int| 0 <= i < bytes.len() ==> visible_ascii(#[trigger] bytes[i])
}

pub open spec fn all_header_value_bytes(bytes: Seq<u8>) -> bool {
    forall|i: int| 0 <= i < bytes.len() ==> header_value_byte(#[trigger] bytes[i])
}

/// A header name that `HeaderMap::insert` takes as it is: 1 to 65535
/// lowercase letters, digits and `-`.
pub open spec fn plain_header_name(name: Seq<char>) -> bool {
    &&& 1 <= name.len() <= 65535
    &&& forall|i: int| 0 <= i < name.len() ==> {
        let c = #[trigger] name[i];
        ('a' <= c <= 'z') || ('0' <= c <= '9') || c == '-'
    }
}

/// `HeaderValue::from_static`: a value holding the text's bytes.
#[verifier::external_body]
fn value_from_static(text: &'static str) -> (res: HeaderValue)
    requires
        all_visible_ascii(encode_utf8(text@)),
    ensures
        header_value_bytes(res) == encode_utf8(text@),
{
    HeaderValue::from_static(text)
}

/// `HeaderValue::from_str`: a value holding the text's bytes, when each is a
/// valid header value byte.
#[verifier::external_body]
fn value_from_str(text: &str) -> (res: Result<HeaderValue, http::header::InvalidHeaderValue>)
    ensures
        match res {
            Ok(v) => all_header_value_bytes(encode_utf8(text@)) && header_value_bytes(v) == encode_utf8(text@),
            Err(_) => !all_header_value_bytes(encode_utf8(text@)),
        },
{
    HeaderValue::from_str(text)
}

/// `HeaderValue::to_str`: the value as text, when each byte is visible ASCII.
#[verifier::external_body]
fn value_to_str(value: &HeaderValue) -> (res: Result<&str, http::header::ToStrError>)
    ensures
        match res {
            Ok(text) => all_visible_ascii(header_value_bytes(*value)) && encode_utf8(text@) == header_value_bytes(
                *value,
            ),
            Err(_) => !all_visible_ascii(header_value_bytes(*value)),
        },
{
    value.to_str()
}

/// `HeaderMap::insert`: the name then has the value as its only value; the
/// other names keep theirs, and at most one name is added.
#[verifier::external_body]
fn map_insert(headers: &mut HeaderMap<HeaderValue>, name: &'static str, value: HeaderValue)
    requires
        plain_header_name(name@),
        header_key_count(*old(headers)) < HEADER_MAP_INSERT_LIMIT,
    ensures
        header_first_values(*final(headers)) == header_first_values(*old(headers)).insert(
            name@,
            header_value_bytes(value),
        ),
        header_key_count(*final(headers)) <= header_key_count(*old(headers)) + 1,
{
    headers.insert(name, value);
}

/// The header values of an empty map.
pub open spec fn no_header_values() -> Map<Seq<char>, Seq<u8>> {
    Map::empty()
}

/// `HeaderMap::new`: an empty map.
#[verifier::external_body]
fn new_header_map() -> (res: HeaderMap<HeaderValue>)
    ensures
        header_first_values(res) == no_header_values(),
        header_key_count(res) == 0,
{
    HeaderMap::new()
}

/// `HeaderMap::get`: the first value of the name, if it has one.
#[verifier::external_body]
fn map_get<'a>(headers: &'a HeaderMap<HeaderValue>, name: &str) -> (res: Option<&'a HeaderValue>)
    requires
        plain_header_name(name@),
    ensures
        match res {
            Some(v) => header_first_values(*headers).contains_key(name@) && header_value_bytes(*v)
                == header_first_values(*headers)[name@],
            None => !header_first_values(*headers).contains_key(name@),
        },
{
    headers.get(name)
}

/// The Unicode `White_Space` characters, which `str::trim` removes.
pub open spec fn is_white_space(c: char) -> bool {
    ||| ('\u{9}' <= c <= '\u{d}')
    ||| c == ' '
    ||| c == '\u{85}'
    ||| c == '\u{a0}'
    ||| c == '\u{1680}'
    ||| ('\u{2000}' <= c <= '\u{200a}')
    ||| c == '\u{2028}'
    ||| c == '\u{2029}'
    ||| c == '\u{202f}'
    ||| c == '\u{205f}'
    ||| c == '\u{3000}'
}

/// The text without leading and trailing white space.
pub open spec fn trim_chars(s: Seq<char>) -> Seq<char>
    decreases s.len(),
{
    if s.len() > 0 && is_white_space(s[0]) {
        trim_chars(s.drop_first())
    } else if s.len() > 0 && is_white_space(s.last()) {
        trim_chars(s.drop_last())
    } else {
        s
    }
}

/// ASCII `A`..`Z` to lowercase; every other character as it is.
pub open spec fn ascii_lower(c: char) -> char {
    if 'A' <= c <= 'Z' {
        ((c as u32) + 32) as char
    } else {
        c
    }
}

pub open spec fn ascii_lower_text(s: Seq<char>) -> Seq<char> {
    s.map_values(|c: char| ascii_lower(c))
}

/// What `{:?}` prints for a string: the text quoted, with its escapes.
pub uninterp spec fn debug_quoted(text: Seq<char>) -> Seq<char>;

/// `str::to_ascii_lowercase`: each ASCII capital letter lowered.
#[verifier::external_body]
fn ascii_lowercase(text: &str) -> (res: String)
    ensures
        res@ == ascii_lower_text(text@),
{
    text.to_ascii_lowercase()
}

/// The `Debug` form of a string.
#[verifier::external_body]
fn debug_text(text: &str) -> (res: String)
    ensures
        res@ == debug_quoted(text@),
{
    format!("{:?}", text)
}

fn white_space(c: char) -> (res: bool)
    ensures
        res == is_white_space(c),
{
    ('\u{9}' <= c && c <= '\u{d}') || c == ' ' || c == '\u{85}' || c == '\u{a0}' || c == '\u{1680}' || ('\u{2000}'
        <= c && c <= '\u{200a}') || c == '\u{2028}' || c == '\u{2029}' || c == '\u{202f}' || c == '\u{205f}' || c
        == '\u{3000}'
}

proof fn lemma_trim_chars(s: Seq<char>, i: int, j: int)
    requires
        0 <= i <= j <= s.len(),
        forall|k: int| 0 <= k < i ==> is_white_space(#[trigger] s[k]),
        forall|k: int| j <= k < s.len() ==> is_white_space(#[trigger] s[k]),
        i < j ==> !is_white_space(s[i]) && !is_white_space(s[j - 1]),
    ensures
        trim_chars(s) == s.subrange(i, j),
    decreases s.len(),
{
    if s.len() > 0 && is_white_space(s[0]) {
        let t = s.drop_first();
        if i > 0 {
            assert forall|k: int| 0 <= k < i - 1 implies is_white_space(#[trigger] t[k]) by {
                assert(t[k] == s[k + 1]);
            }
            assert forall|k: int| j - 1 <= k < t.len() implies is_white_space(#[trigger] t[k]) by {
                assert(t[k] == s[k + 1]);
            }
            if i < j {
                assert(t[i - 1] == s[i]);
                assert(t[j - 2] == s[j - 1]);
            }
            lemma_trim_chars(t, i - 1, j - 1);
            assert(t.subrange(i - 1, j - 1) =~= s.subrange(i, j));
        } else {
            assert forall|k: int| 0 <= k < t.len() implies is_white_space(#[trigger] t[k]) by {
                assert(t[k] == s[k + 1]);
            }
            lemma_trim_chars(t, 0, 0);
            assert(t.subrange(0, 0) =~= s.subrange(i, j));
        }
    } else if s.len() > 0 && is_white_space(s.last()) {
        let t = s.drop_last();
        if j == s.len() {
            assert(is_white_space(s[0]));
        }
        assert forall|k: int| 0 <= k < i implies is_white_space(#[trigger] t[k]) by {
            assert(t[k] == s[k]);
        }
        assert forall|k: int| j <= k < t.len() implies is_white_space(#[trigger] t[k]) by {
            assert(t[k] == s[k]);
        }
        if i < j {
            assert(t[i] == s[i]);
            assert(t[j - 1] == s[j - 1]);
        }
        lemma_trim_chars(t, i, j);
        assert(t.subrange(i, j) =~= s.subrange(i, j));
    } else {
        if i > 0 {
            assert(is_white_space(s[0]));
        }
        if j < s.len() {
            assert(is_white_space(s[s.len() - 1]));
        }
        assert(s.subrange(i, j) =~= s);
    }
}

/// `str::trim`, over characters.
fn trim_text(text: &str) -> (res: &str)
    ensures
        res@ == trim_chars(text@),
{
    let n = text.unicode_len();
    let mut i: usize = 0;
    while i < n && white_space(text.get_char(i))
        invariant
            n == text@.len(),
            0 <= i <= n,
            forall|k: int| 0 <= k < i ==> is_white_space(#[trigger] text@[k]),
        decreases n - i,
    {
        i = i + 1;
    }
    let mut j: usize = n;
    while j > i && white_space(text.get_char(j - 1))
        invariant
            n == text@.len(),
            0 <= i <= j <= n,
            forall|k: int| 0 <= k < i ==> is_white_space(#[trigger] text@[k]),
            i < n ==> !is_white_space(text@[i as int]),
            forall|k: int| j <= k < n ==> is_white_space(#[trigger] text@[k]),
        decreases j - i,
    {
        j = j - 1;
    }
    proof {
        lemma_trim_chars(text@, i as int, j as int);
    }
    text.substring_char(i, j)
}

#[derive(Clone, Copy, Debug, PartialEq, Eq, Structural)]
pub enum CachedPcmFormat {
    F32LeInterleaved,
    S16LeInterleaved,
}

/// The header text of a format.
pub open spec fn format_header_text(format: CachedPcmFormat) -> Seq<char> {
    match format {
        CachedPcmFormat::F32LeInterleaved => PCM_FORMAT_F32LE_INTERLEAVED@,
        CachedPcmFormat::S16LeInterleaved => PCM_FORMAT_S16LE_INTERLEAVED@,
    }
}

/// The format that a text names, read without surrounding white space and
/// without regard to ASCII case.
pub open spec fn format_of_text(raw: Seq<char>) -> Option<CachedPcmFormat> {
    let t = ascii_lower_text(trim_chars(raw));
    if t == PCM_FORMAT_F32LE_INTERLEAVED@ {
        Some(CachedPcmFormat::F32LeInterleaved)
    } else if t == PCM_FORMAT_S16LE_INTERLEAVED@ {
        Some(CachedPcmFormat::S16LeInterleaved)
    } else {
        None
    }
}

/// The error text for a format that is not known.
pub open spec fn unsupported_format_text(raw: Seq<char>) -> Seq<char> {
    "unsupported cached PCM format "@ + debug_quoted(ascii_lower_text(trim_chars(raw)))
}

impl CachedPcmFormat {
    pub fn as_header_value(self) -> (res: &'static str)
        ensures
            res@ == format_header_text(self),
    {
        match self {
            CachedPcmFormat::F32LeInterleaved => PCM_FORMAT_F32LE_INTERLEAVED,
            CachedPcmFormat::S16LeInterleaved => PCM_FORMAT_S16LE_INTERLEAVED,
        }
    }

    pub fn parse(raw: &str) -> (res: Result<Self, String>)
        ensures
            match format_of_text(raw@) {
                Some(format) => res == Ok::<Self, String>(format),
                None => res matches Err(message) && message@ == unsupported_format_text(raw@),
            },
    {
        let lowered = ascii_lowercase(trim_text(raw));
        if crate::common::str_equal(lowered.as_str(), PCM_FORMAT_F32LE_INTERLEAVED) {
            Ok(CachedPcmFormat::F32LeInterleaved)
        } else if crate::common::str_equal(lowered.as_str(), PCM_FORMAT_S16LE_INTERLEAVED) {
            Ok(CachedPcmFormat::S16LeInterleaved)
        } else {
            let message = String::from_str("unsupported cached PCM format ");
            Err(message.concat(debug_text(lowered.as_str()).as_str()))
        }
    }
}

/// How cached PCM bytes are laid out.
#[derive(Clone, Copy, Debug, PartialEq, Eq, Structural)]
pub struct CachedPcmDescriptor {
    pub format: CachedPcmFormat,
    pub sample_rate: u32,
    pub channels: u8,
    pub bits_per_sample: u8,
}

impl CachedPcmDescriptor {
    pub fn new(format: CachedPcmFormat, sample_rate: u32, channels: u8, bits_per_sample: u8) -> (res: Self)
        ensures
            res == (CachedPcmDescriptor { format, sample_rate, channels, bits_per_sample }),
    {
        CachedPcmDescriptor { format, sample_rate, channels, bits_per_sample }
    }
}

pub open spec fn digit_char(d: nat) -> char {
    (('0' as u32) + d) as char
}

/// The decimal form of a number, without sign or leading zeros.
pub open spec fn decimal_text(n: nat) -> Seq<char>
    decreases n,
{
    if n < 10 {
        seq![digit_char(n)]
    } else {
        decimal_text(n / 10).push(digit_char(n % 10))
    }
}

fn digit_str(d: u64) -> (res: &'static str)
    requires
        d < 10,
    ensures
        res@ == seq![digit_char(d as nat)],
{
    proof {
        reveal_strlit("0");
        reveal_strlit("1");
        reveal_strlit("2");
        reveal_strlit("3");
        reveal_strlit("4");
        reveal_strlit("5");
        reveal_strlit("6");
        reveal_strlit("7");
        reveal_strlit("8");
        reveal_strlit("9");
    }
    match d {
        0 => "0",
        1 => "1",
        2 => "2",
        3 => "3",
        4 => "4",
        5 => "5",
        6 => "6",
        7 => "7",
        8 => "8",
        _ => "9",
    }
}

/// The decimal form of a number, as `to_string` writes it.
pub fn decimal_string(n: u64) -> (res: String)
    ensures
        res@ == decimal_text(n as nat),
    decreases n,
{
    if n < 10 {
        String::from_str(digit_str(n))
    } else {
        let head = decimal_string(n / 10);
        let res = head.concat(digit_str(n % 10));
        assert(res@ =~= decimal_text(n as nat));
        res
    }
}

/// Why a text is not an unsigned integer.
#[derive(Clone, Copy, Debug, PartialEq, Eq, Structural)]
pub enum IntErrorKind {
    Empty,
    InvalidDigit,
    PosOverflow,
}

pub open spec fn is_digit(c: char) -> bool {
    '0' <= c <= '9'
}

pub open spec fn digit_value(c: char) -> nat {
    ((c as u32) - ('0' as u32)) as nat
}

/// Reading digits left to right onto `acc`: the first character that is not
/// a digit, or the first step past `max`, fails.
pub open spec fn accumulate_digits(ds: Seq<char>, acc: nat, max: nat) -> Result<nat, IntErrorKind>
    decreases ds.len(),
{
    if ds.len() == 0 {
        Ok(acc)
    } else if !is_digit(ds[0]) {
        Err(IntErrorKind::InvalidDigit)
    } else if acc * 10 + digit_value(ds[0]) > max {
        Err(IntErrorKind::PosOverflow)
    } else {
        accumulate_digits(ds.drop_first(), acc * 10 + digit_value(ds[0]), max)
    }
}

/// An unsigned integer up to `max` as `str::parse` reads it: an optional
/// `+`, then decimal digits only.
pub open spec fn parse_unsigned(text: Seq<char>, max: nat) -> Result<nat, IntErrorKind> {
    if text.len() == 0 {
        Err(IntErrorKind::Empty)
    } else if text.len() == 1 && (text[0] == '+' || text[0] == '-') {
        Err(IntErrorKind::InvalidDigit)
    } else if text[0] == '+' {
        accumulate_digits(text.drop_first(), 0, max)
    } else {
        accumulate_digits(text, 0, max)
    }
}

/// The message of an integer parse error.
pub open spec fn int_error_text(kind: IntErrorKind) -> Seq<char> {
    match kind {
        IntErrorKind::Empty => "cannot parse integer from empty string"@,
        IntErrorKind::InvalidDigit => "invalid digit found in string"@,
        IntErrorKind::PosOverflow => "number too large to fit in target type"@,
    }
}

fn int_error_message(kind: IntErrorKind) -> (res: &'static str)
    ensures
        res@ == int_error_text(kind),
{
    match kind {
        IntErrorKind::Empty => "cannot parse integer from empty string",
        IntErrorKind::InvalidDigit => "invalid digit found in string",
        IntErrorKind::PosOverflow => "number too large to fit in target type",
    }
}

/// `str::parse` for an unsigned integer type whose largest value is `max`.
fn parse_unsigned_text(text: &str, max: u64) -> (res: Result<u64, IntErrorKind>)
    requires
        max <= u32::MAX,
    ensures
        match parse_unsigned(text@, max as nat) {
            Ok(v) => v <= max && res == Ok::<u64, IntErrorKind>(v as u64),
            Err(k) => res == Err::<u64, IntErrorKind>(k),
        },
{
    let n = text.unicode_len();
    if n == 0 {
        return Err(IntErrorKind::Empty);
    }
    let first = text.get_char(0);
    if n == 1 && (first == '+' || first == '-') {
        return Err(IntErrorKind::InvalidDigit);
    }
    let start: usize = if first == '+' {
        1
    } else {
        0
    };
    let ghost ds = text@.skip(start as int);
    assert(ds =~= if first == '+' {
        text@.drop_first()
    } else {
        text@
    });
    let mut acc: u64 = 0;
    let mut k: usize = start;
    while k < n
        invariant
            n == text@.len(),
            start <= k <= n,
            ds == text@.skip(start as int),
            parse_unsigned(text@, max as nat) == accumulate_digits(ds, 0, max as nat),
            max <= u32::MAX,
            acc <= max,
            accumulate_digits(ds, 0, max as nat) == accumulate_digits(text@.skip(k as int), acc as nat, max as nat),
        decreases n - k,
    {
        let c = text.get_char(k);
        let ghost rest = text@.skip(k as int);
        assert(rest[0] == c);
        assert(rest.drop_first() =~= text@.skip(k + 1));
        if c < '0' || c > '9' {
            return Err(IntErrorKind::InvalidDigit);
        }
        let d = (c as u32 - '0' as u32) as u64;
        assert(d == digit_value(c));
        if acc * 10 + d > max {
            return Err(IntErrorKind::PosOverflow);
        }
        acc = acc * 10 + d;
        k = k + 1;
    }
    assert(text@.skip(k as int) =~= Seq::<char>::empty());
    Ok(acc)
}

/// The text of a header: its first value, when that value is visible ASCII.
pub open spec fn header_text(values: Map<Seq<char>, Seq<u8>>, name: Seq<char>) -> Option<Seq<char>> {
    if values.contains_key(name) && all_visible_ascii(values[name]) {
        Some(vstd::utf8::decode_utf8(values[name]))
    } else {
        None
    }
}

/// A numeric header up to `max`, or the message of why it is missing or invalid.
pub open spec fn header_number(values: Map<Seq<char>, Seq<u8>>, name: Seq<char>, max: nat) -> Result<nat, Seq<char>> {
    match header_text(values, name) {
        None => Err("missing header "@ + name),
        Some(text) => match parse_unsigned(text, max) {
            Ok(v) => Ok(v),
            Err(kind) => Err("invalid "@ + name + " header: "@ + int_error_text(kind)),
        },
    }
}

/// The descriptor that header values carry, or the message of the first
/// header that is missing or invalid.
pub open spec fn descriptor_of_header_values(values: Map<Seq<char>, Seq<u8>>) -> Result<CachedPcmDescriptor, Seq<char>> {
    match header_text(values, PCM_FORMAT_HEADER@) {
        None => Err("missing cached PCM format header"@),
        Some(text) => match format_of_text(text) {
            None => Err(unsupported_format_text(text)),
            Some(format) => match header_number(values, PCM_SAMPLE_RATE_HEADER@, u32::MAX as nat) {
                Err(m) => Err(m),
                Ok(sample_rate) => match header_number(values, PCM_CHANNELS_HEADER@, u8::MAX as nat) {
                    Err(m) => Err(m),
                    Ok(channels) => match header_number(values, PCM_BITS_PER_SAMPLE_HEADER@, u8::MAX as nat) {
                        Err(m) => Err(m),
                        Ok(bits_per_sample) => Ok(
                            CachedPcmDescriptor {
                                format,
                                sample_rate: sample_rate as u32,
                                channels: channels as u8,
                                bits_per_sample: bits_per_sample as u8,
                            },
                        ),
                    },
                },
            },
        },
    }
}

/// The header values after writing a descriptor's four headers.
pub open spec fn with_descriptor_headers(values: Map<Seq<char>, Seq<u8>>, d: CachedPcmDescriptor) -> Map<Seq<char>, Seq<u8>> {
    values.insert(PCM_FORMAT_HEADER@, encode_utf8(format_header_text(d.format))).insert(
        PCM_SAMPLE_RATE_HEADER@,
        encode_utf8(decimal_text(d.sample_rate as nat)),
    ).insert(PCM_CHANNELS_HEADER@, encode_utf8(decimal_text(d.channels as nat))).insert(
        PCM_BITS_PER_SAMPLE_HEADER@,
        encode_utf8(decimal_text(d.bits_per_sample as nat)),
    )
}

pub open spec fn descriptor_result_view(res: Result<CachedPcmDescriptor, String>) -> Result<CachedPcmDescriptor, Seq<char>> {
    match res {
        Ok(d) => Ok(d),
        Err(m) => Err(m@),
    }
}

pub open spec fn number_result_view(res: Result<u64, String>) -> Result<nat, Seq<char>> {
    match res {
        Ok(v) => Ok(v as nat),
        Err(m) => Err(m@),
    }
}

proof fn lemma_header_names()
    ensures
        plain_header_name(PCM_FORMAT_HEADER@),
        plain_header_name(PCM_SAMPLE_RATE_HEADER@),
        plain_header_name(PCM_CHANNELS_HEADER@),
        plain_header_name(PCM_BITS_PER_SAMPLE_HEADER@),
        PCM_FORMAT_HEADER@ != PCM_SAMPLE_RATE_HEADER@,
        PCM_FORMAT_HEADER@ != PCM_CHANNELS_HEADER@,
        PCM_FORMAT_HEADER@ != PCM_BITS_PER_SAMPLE_HEADER@,
        PCM_SAMPLE_RATE_HEADER@ != PCM_CHANNELS_HEADER@,
        PCM_SAMPLE_RATE_HEADER@ != PCM_BITS_PER_SAMPLE_HEADER@,
        PCM_CHANNELS_HEADER@ != PCM_BITS_PER_SAMPLE_HEADER@,
{
    reveal_strlit("x-av-pcm-format");
    reveal_strlit("x-av-pcm-sample-rate");
    reveal_strlit("x-av-pcm-channels");
    reveal_strlit("x-av-pcm-bits");
}

proof fn lemma_decimal_digits(n: nat)
    ensures
        decimal_text(n).len() >= 1,
        forall|i: int| 0 <= i < decimal_text(n).len() ==> is_digit(#[trigger] decimal_text(n)[i]),
    decreases n,
{
    if n >= 10 {
        lemma_decimal_digits(n / 10);
    }
}

/// The bytes of an ASCII text are its characters, one byte each.
proof fn lemma_ascii_bytes(text: Seq<char>)
    requires
        vstd::utf8::is_ascii_chars(text),
    ensures
        encode_utf8(text).len() == text.len(),
        forall|i: int| 0 <= i < text.len() ==> #[trigger] encode_utf8(text)[i] == text[i] as u8,
{
    vstd::utf8::is_ascii_chars_encode_utf8(text);
}

proof fn lemma_decimal_bytes(n: nat)
    ensures
        all_header_value_bytes(encode_utf8(decimal_text(n))),
        all_visible_ascii(encode_utf8(decimal_text(n))),
{
    lemma_decimal_digits(n);
    let t = decimal_text(n);
    assert(vstd::utf8::is_ascii_chars(t)) by {
        assert forall|i: int| 0 <= i < t.len() implies '\0' <= #[trigger] t[i] <= '\u{7f}' by {
            assert(is_digit(t[i]));
        }
    }
    lemma_ascii_bytes(t);
    assert forall|i: int| 0 <= i < encode_utf8(t).len() implies header_value_byte(#[trigger] encode_utf8(t)[i]) && visible_ascii(encode_utf8(t)[i]) by {
        assert(is_digit(t[i]));
        assert(encode_utf8(t)[i] == t[i] as u8);
    }
}

proof fn lemma_format_text(format: CachedPcmFormat)
    ensures
        vstd::utf8::is_ascii_chars(format_header_text(format)),
        all_visible_ascii(encode_utf8(format_header_text(format))),
        format_of_text(format_header_text(format)) == Some(format),
{
    reveal_strlit("f32le-interleaved");
    reveal_strlit("s16le-interleaved");
    let t = format_header_text(format);
    assert(vstd::utf8::is_ascii_chars(t));
    lemma_ascii_bytes(t);
    assert forall|i: int| 0 <= i < encode_utf8(t).len() implies visible_ascii(#[trigger] encode_utf8(t)[i]) by {
        assert(encode_utf8(t)[i] == t[i] as u8);
    }
    assert(!is_white_space(t[0]) && !is_white_space(t[t.len() - 1]));
    lemma_trim_chars(t, 0, t.len() as int);
    assert(t.subrange(0, t.len() as int) =~= t);
    assert(ascii_lower_text(t) =~= t);
    assert(PCM_FORMAT_F32LE_INTERLEAVED@ != PCM_FORMAT_S16LE_INTERLEAVED@);
}

proof fn lemma_accumulate_push(a: Seq<char>, c: char, acc: nat, max: nat)
    requires
        accumulate_digits(a, acc, max) is Ok,
    ensures
        accumulate_digits(a.push(c), acc, max) == accumulate_digits(seq![c], accumulate_digits(a, acc, max)->Ok_0, max),
    decreases a.len(),
{
    if a.len() > 0 {
        assert(a.push(c)[0] == a[0]);
        assert(a.push(c).drop_first() =~= a.drop_first().push(c));
        if is_digit(a[0]) && acc * 10 + digit_value(a[0]) <= max {
            lemma_accumulate_push(a.drop_first(), c, acc * 10 + digit_value(a[0]), max);
        }
    } else {
        assert(a.push(c) =~= seq![c]);
    }
}

proof fn lemma_decimal_accumulates(n: nat, max: nat)
    requires
        n <= max,
    ensures
        accumulate_digits(decimal_text(n), 0, max) == Ok::<nat, IntErrorKind>(n),
    decreases n,
{
    if n < 10 {
        assert(seq![digit_char(n)].drop_first() =~= Seq::<char>::empty());
        assert(is_digit(digit_char(n)));
        assert(digit_value(digit_char(n)) == n);
        assert(accumulate_digits(Seq::<char>::empty(), n, max) == Ok::<nat, IntErrorKind>(n));
    } else {
        lemma_decimal_accumulates(n / 10, max);
        lemma_accumulate_push(decimal_text(n / 10), digit_char(n % 10), 0, max);
        assert(is_digit(digit_char(n % 10)));
        assert(digit_value(digit_char(n % 10)) == n % 10);
        assert(seq![digit_char(n % 10)].drop_first() =~= Seq::<char>::empty());
        assert((n / 10) * 10 + n % 10 == n);
    }
}

/// `str::parse` reads back the decimal form of every number up to `max`.
pub proof fn law_decimal_round_trip(n: nat, max: nat)
    requires
        n <= max,
    ensures
        parse_unsigned(decimal_text(n), max) == Ok::<nat, IntErrorKind>(n),
{
    lemma_decimal_accumulates(n, max);
    lemma_decimal_digits(n);
    assert(is_digit(decimal_text(n)[0]));
}

/// A format's header text parses back to the format.
pub proof fn law_format_round_trip(format: CachedPcmFormat)
    ensures
        format_of_text(format_header_text(format)) == Some(format),
{
    lemma_format_text(format);
}

/// Parsing is idempotent: the header text of a parsed format parses to the
/// same format.
pub proof fn law_format_parse_idempotent(raw: Seq<char>)
    ensures
        format_of_text(raw) matches Some(f) ==> format_of_text(format_header_text(f)) == Some(f),
{
    if let Some(f) = format_of_text(raw) {
        law_format_round_trip(f);
    }
}

proof fn lemma_trim_ends(s: Seq<char>)
    ensures
        trim_chars(s).len() > 0 ==> !is_white_space(trim_chars(s)[0]) && !is_white_space(trim_chars(s).last()),
    decreases s.len(),
{
    if s.len() > 0 && is_white_space(s[0]) {
        lemma_trim_ends(s.drop_first());
    } else if s.len() > 0 && is_white_space(s.last()) {
        lemma_trim_ends(s.drop_last());
    }
}

proof fn lemma_ascii_lower_char(c: char)
    ensures
        is_white_space(ascii_lower(c)) == is_white_space(c),
        ascii_lower(ascii_lower(c)) == ascii_lower(c),
{
    if 'A' <= c <= 'Z' {
        let x = (c as u32) + 32;
        assert(97 <= x <= 122);
        assert((x as char) as u32 == x);
    }
}

/// The normal form in which a format name is compared: trimmed, then lowered.
pub open spec fn normal_format_text(raw: Seq<char>) -> Seq<char> {
    ascii_lower_text(trim_chars(raw))
}

/// The normal form of a format text is its own normal form, so parsing a
/// text and parsing its trimmed, ASCII-lowered form give the same format,
/// or the same refusal.
pub proof fn law_format_parse_normalizes(raw: Seq<char>)
    ensures
        normal_format_text(normal_format_text(raw)) == normal_format_text(raw),
        format_of_text(normal_format_text(raw)) == format_of_text(raw),
        unsupported_format_text(normal_format_text(raw)) == unsupported_format_text(raw),
{
    let t = trim_chars(raw);
    let l = ascii_lower_text(t);
    lemma_trim_ends(raw);
    if l.len() > 0 {
        lemma_ascii_lower_char(t[0]);
        lemma_ascii_lower_char(t.last());
        assert(l[0] == ascii_lower(t[0]));
        assert(l.last() == ascii_lower(t.last()));
    }
    assert(trim_chars(l) == l);
    assert forall|i: int| 0 <= i < l.len() implies #[trigger] ascii_lower_text(l)[i] == l[i] by {
        lemma_ascii_lower_char(t[i]);
    }
    assert(ascii_lower_text(l) =~= l);
}

/// Reading the four descriptor headers back gives the descriptor that was
/// written, whatever other headers the map holds.
pub proof fn law_descriptor_headers_round_trip(values: Map<Seq<char>, Seq<u8>>, d: CachedPcmDescriptor)
    ensures
        descriptor_of_header_values(with_descriptor_headers(values, d)) == Ok::<CachedPcmDescriptor, Seq<char>>(d),
{
    lemma_header_names();
    let m = with_descriptor_headers(values, d);
    lemma_format_text(d.format);
    vstd::utf8::encode_utf8_decode_utf8(format_header_text(d.format));
    assert(header_text(m, PCM_FORMAT_HEADER@) == Some(format_header_text(d.format)));
    lemma_decimal_bytes(d.sample_rate as nat);
    lemma_decimal_bytes(d.channels as nat);
    lemma_decimal_bytes(d.bits_per_sample as nat);
    vstd::utf8::encode_utf8_decode_utf8(decimal_text(d.sample_rate as nat));
    vstd::utf8::encode_utf8_decode_utf8(decimal_text(d.channels as nat));
    vstd::utf8::encode_utf8_decode_utf8(decimal_text(d.bits_per_sample as nat));
    law_decimal_round_trip(d.sample_rate as nat, u32::MAX as nat);
    law_decimal_round_trip(d.channels as nat, u8::MAX as nat);
    law_decimal_round_trip(d.bits_per_sample as nat, u8::MAX as nat);
    assert(header_text(m, PCM_SAMPLE_RATE_HEADER@) == Some(decimal_text(d.sample_rate as nat)));
    assert(header_text(m, PCM_CHANNELS_HEADER@) == Some(decimal_text(d.channels as nat)));
    assert(header_text(m, PCM_BITS_PER_SAMPLE_HEADER@) == Some(decimal_text(d.bits_per_sample as nat)));
}

/// The text of a header, when its first value is visible ASCII.
fn header_text_of<'a>(headers: &'a HeaderMap<HeaderValue>, name: &str) -> (res: Option<&'a str>)
    requires
        plain_header_name(name@),
    ensures
        match res {
            Some(text) => header_text(header_first_values(*headers), name@) == Some(text@),
            None => header_text(header_first_values(*headers), name@) is None,
        },
{
    match map_get(headers, name) {
        None => None,
        Some(value) => match value_to_str(value) {
            Ok(text) => {
                proof {
                    encode_utf8_decode_utf8(text@);
                }
                Some(text)
            },
            Err(_) => None,
        },
    }
}

/// A numeric header up to `max`.
fn parse_number_header(headers: &HeaderMap<HeaderValue>, name: &str, max: u64) -> (res: Result<u64, String>)
    requires
        plain_header_name(name@),
        max <= u32::MAX,
    ensures
        number_result_view(res) == header_number(header_first_values(*headers), name@, max as nat),
{
    let text = match header_text_of(headers, name) {
        Some(text) => text,
        None => {
            let message = String::from_str("missing header ");
            return Err(message.concat(name));
        },
    };
    match parse_unsigned_text(text, max) {
        Ok(value) => Ok(value),
        Err(kind) => {
            let message = String::from_str("invalid ");
            let message = message.concat(name);
            let message = message.concat(" header: ");
            Err(message.concat(int_error_message(kind)))
        },
    }
}

fn parse_u32_header(headers: &HeaderMap<HeaderValue>, name: &str) -> (res: Result<u32, String>)
    requires
        plain_header_name(name@),
    ensures
        match header_number(header_first_values(*headers), name@, u32::MAX as nat) {
            Ok(v) => res == Ok::<u32, String>(v as u32),
            Err(m) => res matches Err(message) && message@ == m,
        },
{
    match parse_number_header(headers, name, u32::MAX as u64) {
        Ok(value) => Ok(value as u32),
        Err(message) => Err(message),
    }
}

fn parse_u8_header(headers: &HeaderMap<HeaderValue>, name: &str) -> (res: Result<u8, String>)
    requires
        plain_header_name(name@),
    ensures
        match header_number(header_first_values(*headers), name@, u8::MAX as nat) {
            Ok(v) => res == Ok::<u8, String>(v as u8),
            Err(m) => res matches Err(message) && message@ == m,
        },
{
    match parse_number_header(headers, name, u8::MAX as u64) {
        Ok(value) => Ok(value as u8),
        Err(message) => Err(message),
    }
}

/// Read a cached PCM descriptor from its four headers.
pub fn cached_pcm_descriptor_from_headers(headers: &HeaderMap<HeaderValue>) -> (res: Result<CachedPcmDescriptor, String>)
    ensures
        descriptor_result_view(res) == descriptor_of_header_values(header_first_values(*headers)),
{
    proof {
        lemma_header_names();
    }
    let text = match header_text_of(headers, PCM_FORMAT_HEADER) {
        Some(text) => text,
        None => return Err(String::from_str("missing cached PCM format header")),
    };
    let format = CachedPcmFormat::parse(text)?;
    let sample_rate = parse_u32_header(headers, PCM_SAMPLE_RATE_HEADER)?;
    let channels = parse_u8_header(headers, PCM_CHANNELS_HEADER)?;
    let bits_per_sample = parse_u8_header(headers, PCM_BITS_PER_SAMPLE_HEADER)?;
    Ok(CachedPcmDescriptor::new(format, sample_rate, channels, bits_per_sample))
}

/// Write a cached PCM descriptor as its four headers, replacing any values
/// those headers had.
pub fn apply_cached_pcm_descriptor_headers(headers: &mut HeaderMap<HeaderValue>, descriptor: CachedPcmDescriptor) -> (res: Result<(), String>)
    requires
        header_key_count(*old(headers)) + 4 <= HEADER_MAP_INSERT_LIMIT,
    ensures
        res is Ok,
        header_first_values(*final(headers)) == with_descriptor_headers(header_first_values(*old(headers)), descriptor),
        header_key_count(*final(headers)) <= header_key_count(*old(headers)) + 4,
{
    proof {
        lemma_header_names();
        lemma_format_text(descriptor.format);
        lemma_decimal_bytes(descriptor.sample_rate as nat);
        lemma_decimal_bytes(descriptor.channels as nat);
        lemma_decimal_bytes(descriptor.bits_per_sample as nat);
    }
    map_insert(headers, PCM_FORMAT_HEADER, value_from_static(descriptor.format.as_header_value()));
    let sample_rate = decimal_string(descriptor.sample_rate as u64);
    match value_from_str(sample_rate.as_str()) {
        Ok(value) => map_insert(headers, PCM_SAMPLE_RATE_HEADER, value),
        Err(_) => return Err(String::from_str("invalid sample rate header: failed to parse header value")),
    }
    let channels = decimal_string(descriptor.channels as u64);
    match value_from_str(channels.as_str()) {
        Ok(value) => map_insert(headers, PCM_CHANNELS_HEADER, value),
        Err(_) => return Err(String::from_str("invalid channel header: failed to parse header value")),
    }
    let bits_per_sample = decimal_string(descriptor.bits_per_sample as u64);
    match value_from_str(bits_per_sample.as_str()) {
        Ok(value) => map_insert(headers, PCM_BITS_PER_SAMPLE_HEADER, value),
        Err(_) => return Err(String::from_str("invalid bits-per-sample header: failed to parse header value")),
    }
    Ok(())
}

/// The slot size that a cached PCM writer uses: the one asked for, at least 1.
pub open spec fn spec_slot_bytes(slot_bytes: usize) -> usize {
    if slot_bytes == 0 {
        1
    } else {
        slot_bytes
    }
}

pub fn cached_slot_bytes(slot_bytes: usize) -> (res: usize)
    ensures
        res == spec_slot_bytes(slot_bytes),
{
    if slot_bytes == 0 {
        1
    } else {
        slot_bytes
    }
}

/// A body cut into slots of `slot` bytes; the last slot holds the rest.
pub open spec fn slot_chunks(bytes: Seq<u8>, slot: nat) -> Seq<Seq<u8>>
    decreases bytes.len(),
{
    if bytes.len() == 0 || slot == 0 {
        Seq::empty()
    } else if bytes.len() <= slot {
        seq![bytes]
    } else {
        seq![bytes.take(slot as int)] + slot_chunks(bytes.skip(slot as int), slot)
    }
}

/// The slots of a cached PCM body, in order: each `slot_bytes` long (at
/// least 1) but the last, which holds the rest; no slot is empty.
pub fn cached_pcm_slots(bytes: &[u8], slot_bytes: usize) -> (res: Vec<Vec<u8>>)
    ensures
        res@.map_values(|chunk: Vec<u8>| chunk@) == slot_chunks(bytes@, spec_slot_bytes(slot_bytes) as nat),
{
    let slot = cached_slot_bytes(slot_bytes);
    let ghost target = slot_chunks(bytes@, slot as nat);
    let mut res: Vec<Vec<u8>> = Vec::new();
    let mut k: usize = 0;
    assert(bytes@.skip(0) =~= bytes@);
    assert(res@.map_values(|c: Vec<u8>| c@) + target =~= target);
    while k < bytes.len()
        invariant
            slot >= 1,
            0 <= k <= bytes@.len(),
            target == slot_chunks(bytes@, slot as nat),
            res@.map_values(|chunk: Vec<u8>| chunk@) + slot_chunks(bytes@.skip(k as int), slot as nat) == target,
        decreases bytes@.len() - k,
    {
        let rest = bytes.len() - k;
        let take = if rest <= slot {
            rest
        } else {
            slot
        };
        let mut chunk: Vec<u8> = Vec::new();
        let mut i: usize = 0;
        while i < take
            invariant
                0 <= i <= take,
                k + take <= bytes@.len(),
                k + take <= bytes.len(),
                chunk@ == bytes@.subrange(k as int, (k + i) as int),
            decreases take - i,
        {
            chunk.push(bytes[k + i]);
            i = i + 1;
            assert(chunk@ =~= bytes@.subrange(k as int, (k + i) as int));
        }
        let ghost tail = bytes@.skip(k as int);
        let ghost before = res@.map_values(|c: Vec<u8>| c@);
        if rest <= slot {
            assert(tail =~= chunk@);
            assert(slot_chunks(bytes@.skip((k + take) as int), slot as nat) =~= Seq::<Seq<u8>>::empty());
            assert(slot_chunks(tail, slot as nat) == seq![chunk@]);
        } else {
            assert(tail.take(slot as int) =~= chunk@);
            assert(tail.skip(slot as int) =~= bytes@.skip((k + take) as int));
        }
        res.push(chunk);
        assert(res@.map_values(|c: Vec<u8>| c@) =~= before.push(chunk@));
        assert(before.push(chunk@) + slot_chunks(bytes@.skip((k + take) as int), slot as nat) =~= before + (seq![chunk@]
            + slot_chunks(bytes@.skip((k + take) as int), slot as nat)));
        k = k + take;
    }
    assert(slot_chunks(bytes@.skip(k as int), slot as nat) =~= Seq::<Seq<u8>>::empty());
    assert(res@.map_values(|c: Vec<u8>| c@) + Seq::<Seq<u8>>::empty() =~= res@.map_values(|c: Vec<u8>| c@));
    res
}

/// Cutting a body into slots loses nothing: the slots, joined, are the body,
/// none is empty or longer than the slot size, and all but the last are
/// exactly the slot size.
pub proof fn law_slots_join_to_body(bytes: Seq<u8>, slot: nat)
    requires
        slot >= 1,
    ensures
        slot_chunks(bytes, slot).flatten() == bytes,
        forall|i: int|
            0 <= i < slot_chunks(bytes, slot).len() ==> 1 <= (#[trigger] slot_chunks(bytes, slot)[i]).len() <= slot,
        forall|i: int|
            0 <= i < slot_chunks(bytes, slot).len() - 1 ==> (#[trigger] slot_chunks(bytes, slot)[i]).len() == slot,
    decreases bytes.len(),
{
    if bytes.len() == 0 {
    } else if bytes.len() <= slot {
        seq![bytes].lemma_flatten_one_element();
    } else {
        let rest = slot_chunks(bytes.skip(slot as int), slot);
        law_slots_join_to_body(bytes.skip(slot as int), slot);
        assert((seq![bytes.take(slot as int)] + rest).drop_first() =~= rest);
        assert(bytes.take(slot as int) + bytes.skip(slot as int) =~= bytes);
        assert forall|i: int| 0 <= i < slot_chunks(bytes, slot).len() implies 1 <= (
        #[trigger] slot_chunks(bytes, slot)[i]).len() <= slot by {
            if i > 0 {
                assert(slot_chunks(bytes, slot)[i] == rest[i - 1]);
            }
        }
        assert forall|i: int| 0 <= i < slot_chunks(bytes, slot).len() - 1 implies (#[trigger] slot_chunks(
            bytes,
            slot,
        )[i]).len() == slot by {
            if i > 0 {
                assert(slot_chunks(bytes, slot)[i] == rest[i - 1]);
            }
        }
    }
}

/// A new header map that holds just the four headers of a descriptor.
pub fn cached_pcm_descriptor_header_map(descriptor: CachedPcmDescriptor) -> (res: HeaderMap<HeaderValue>)
    ensures
        header_first_values(res) == with_descriptor_headers(no_header_values(), descriptor),
        header_key_count(res) <= 4,
{
    let mut headers = new_header_map();
    let applied = apply_cached_pcm_descriptor_headers(&mut headers, descriptor);
    assert(applied is Ok);
    headers
}


/// A slot size of zero is taken as one byte; any other is kept.
pub proof fn law_slot_size(slot_bytes: usize)
    ensures
        spec_slot_bytes(slot_bytes) == if slot_bytes == 0 { 1 } else { slot_bytes },
        spec_slot_bytes(slot_bytes) >= 1,
{
}


/// A descriptor is written as four headers, named `x-av-pcm-format`,
/// `x-av-pcm-sample-rate`, `x-av-pcm-channels` and `x-av-pcm-bits`, holding
/// the format's name and the three numbers in decimal; other headers stay.
pub proof fn law_descriptor_header_names(values: Map<Seq<char>, Seq<u8>>, d: CachedPcmDescriptor)
    ensures
        ({
            let w = with_descriptor_headers(values, d);
            &&& w.contains_key("x-av-pcm-format"@) && w["x-av-pcm-format"@] == encode_utf8(format_header_text(d.format))
            &&& w.contains_key("x-av-pcm-sample-rate"@) && w["x-av-pcm-sample-rate"@] == encode_utf8(
                decimal_text(d.sample_rate as nat),
            )
            &&& w.contains_key("x-av-pcm-channels"@) && w["x-av-pcm-channels"@] == encode_utf8(
                decimal_text(d.channels as nat),
            )
            &&& w.contains_key("x-av-pcm-bits"@) && w["x-av-pcm-bits"@] == encode_utf8(
                decimal_text(d.bits_per_sample as nat),
            )
            &&& w.dom() == values.dom().insert("x-av-pcm-format"@).insert("x-av-pcm-sample-rate"@).insert(
                "x-av-pcm-channels"@,
            ).insert("x-av-pcm-bits"@)
        }),
{
    lemma_header_names();
    reveal_strlit("x-av-pcm-format");
    reveal_strlit("x-av-pcm-sample-rate");
    reveal_strlit("x-av-pcm-channels");
    reveal_strlit("x-av-pcm-bits");
    assert(with_descriptor_headers(values, d).dom() =~= values.dom().insert("x-av-pcm-format"@).insert(
        "x-av-pcm-sample-rate"@,
    ).insert("x-av-pcm-channels"@).insert("x-av-pcm-bits"@));
}

/// The two formats are named `f32le-interleaved` and `s16le-interleaved`.
pub proof fn law_format_names(format: CachedPcmFormat)
    ensures
        format_header_text(format) == match format {
            CachedPcmFormat::F32LeInterleaved => "f32le-interleaved"@,
            CachedPcmFormat::S16LeInterleaved => "s16le-interleaved"@,
        },
{
}

} // verus!
