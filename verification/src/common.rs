use vstd::prelude::*;
use vstd::utf8::{encode_utf8, encode_utf8_decode_utf8};

verus! {

/// The largest integer that a JSON peer represents exactly (2^53 - 1).
pub const MAX_SAFE_INTEGER: u64 = 9_007_199_254_740_991;

pub open spec fn spec_safe(value: u64) -> bool {
    value <= MAX_SAFE_INTEGER
}

pub open spec fn spec_positive_safe(value: u64) -> bool {
    1 <= value <= MAX_SAFE_INTEGER
}

pub fn safe(value: u64) -> (res: bool)
    ensures
        res == spec_safe(value),
{
    value <= MAX_SAFE_INTEGER
}

pub fn positive_safe(value: u64) -> (res: bool)
    ensures
        res == spec_positive_safe(value),
{
    1 <= value && value <= MAX_SAFE_INTEGER
}

pub open spec fn is_ascii_alphanumeric(b: u8) -> bool {
    (0x30 <= b <= 0x39) || (0x41 <= b <= 0x5a) || (0x61 <= b <= 0x7a)
}

/// Bytes allowed after the first one of an identifier: ASCII alphanumerics and `._:-`.
pub open spec fn is_id_tail_byte(b: u8) -> bool {
    is_ascii_alphanumeric(b) || b == 0x2e || b == 0x5f || b == 0x3a || b == 0x2d
}

/// An identifier: 1 to 128 bytes, an ASCII alphanumeric first, then alphanumerics or `._:-`.
pub open spec fn valid_id_bytes(bytes: Seq<u8>) -> bool {
    &&& 1 <= bytes.len() <= 128
    &&& is_ascii_alphanumeric(bytes[0])
    &&& forall|i: int| 1 <= i < bytes.len() ==> #[trigger] is_id_tail_byte(bytes[i])
}

/// `valid_id_bytes` of the UTF-8 encoding of a string.
pub open spec fn valid_id_chars(value: Seq<char>) -> bool {
    valid_id_bytes(encode_utf8(value))
}

fn ascii_alphanumeric(b: u8) -> (res: bool)
    ensures
        res == is_ascii_alphanumeric(b),
{
    (0x30 <= b && b <= 0x39) || (0x41 <= b && b <= 0x5a) || (0x61 <= b && b <= 0x7a)
}

pub fn valid_id(value: &str) -> (res: bool)
    ensures
        res == valid_id_chars(value@),
{
    let bytes = value.as_bytes();
    assert(bytes@ == encode_utf8(value@));
    let len = bytes.len();
    if len == 0 || len > 128 || !ascii_alphanumeric(bytes[0]) {
        return false;
    }
    let mut i: usize = 1;
    while i < len
        invariant
            1 <= i <= len,
            len == bytes@.len(),
            bytes@ == encode_utf8(value@),
            forall|j: int| 1 <= j < i ==> #[trigger] is_id_tail_byte(bytes@[j]),
        decreases len - i,
    {
        let b = bytes[i];
        if !(ascii_alphanumeric(b) || b == 0x2e || b == 0x5f || b == 0x3a || b == 0x2d) {
            assert(!is_id_tail_byte(bytes@[i as int]));
            return false;
        }
        i = i + 1;
    }
    true
}


/// Lexicographic byte order (the order of `str` and `String`).
pub open spec fn bytes_lt(a: Seq<u8>, b: Seq<u8>) -> bool
    decreases a.len(),
{
    if a.len() == 0 {
        b.len() > 0
    } else if b.len() == 0 {
        false
    } else if a[0] != b[0] {
        a[0] < b[0]
    } else {
        bytes_lt(a.drop_first(), b.drop_first())
    }
}

/// `a < b` for strings: byte order of the UTF-8 encodings.
pub open spec fn str_lt(a: Seq<char>, b: Seq<char>) -> bool {
    bytes_lt(encode_utf8(a), encode_utf8(b))
}

pub fn bytes_equal(a: &[u8], b: &[u8]) -> (res: bool)
    ensures
        res == (a@ == b@),
{
    if a.len() != b.len() {
        return false;
    }
    let mut i: usize = 0;
    while i < a.len()
        invariant
            a@.len() == b@.len(),
            0 <= i <= a@.len(),
            forall|j: int| 0 <= j < i ==> a@[j] == b@[j],
        decreases a@.len() - i,
    {
        if a[i] != b[i] {
            return false;
        }
        i = i + 1;
    }
    assert(a@ =~= b@);
    true
}

pub fn bytes_less(a: &[u8], b: &[u8]) -> (res: bool)
    ensures
        res == bytes_lt(a@, b@),
{
    let mut i: usize = 0;
    assert(a@.skip(0) =~= a@);
    assert(b@.skip(0) =~= b@);
    while i < a.len() && i < b.len()
        invariant
            0 <= i <= a@.len(),
            i <= b@.len(),
            bytes_lt(a@, b@) == bytes_lt(a@.skip(i as int), b@.skip(i as int)),
        decreases a@.len() - i,
    {
        if a[i] != b[i] {
            return a[i] < b[i];
        }
        assert(a@.skip(i as int).drop_first() =~= a@.skip(i + 1));
        assert(b@.skip(i as int).drop_first() =~= b@.skip(i + 1));
        i = i + 1;
    }
    i == a.len() && i < b.len()
}

pub fn str_equal(a: &str, b: &str) -> (res: bool)
    ensures
        res == (a@ == b@),
{
    let r = bytes_equal(a.as_bytes(), b.as_bytes());
    proof {
        encode_utf8_decode_utf8(a@);
        encode_utf8_decode_utf8(b@);
    }
    r
}

pub fn str_less(a: &str, b: &str) -> (res: bool)
    ensures
        res == str_lt(a@, b@),
{
    bytes_less(a.as_bytes(), b.as_bytes())
}

/// Whether some string of `ids` equals `id`.
pub open spec fn contains_text(ids: Seq<String>, id: Seq<char>) -> bool {
    exists|i: int| 0 <= i < ids.len() && #[trigger] ids[i]@ == id
}

pub fn contains_str(ids: &Vec<String>, id: &str) -> (res: bool)
    ensures
        res == contains_text(ids@, id@),
{
    let mut i: usize = 0;
    while i < ids.len()
        invariant
            0 <= i <= ids@.len(),
            forall|j: int| 0 <= j < i ==> #[trigger] ids@[j]@ != id@,
        decreases ids@.len() - i,
    {
        if str_equal(ids[i].as_str(), id) {
            return true;
        }
        i = i + 1;
    }
    false
}

/// Strictly increasing in string order.
pub open spec fn strictly_sorted(ids: Seq<String>) -> bool {
    forall|i: int| 0 <= i < ids.len() - 1 ==> #[trigger] str_lt(ids[i]@, ids[i + 1]@)
}

pub fn is_strictly_sorted(ids: &Vec<String>) -> (res: bool)
    ensures
        res == strictly_sorted(ids@),
{
    let n = ids.len();
    if n < 2 {
        return true;
    }
    let mut i: usize = 0;
    while i + 1 < n
        invariant
            n == ids@.len(),
            n >= 2,
            0 <= i <= n - 1,
            forall|j: int| 0 <= j < i ==> #[trigger] str_lt(ids@[j]@, ids@[j + 1]@),
        decreases n - i,
    {
        if !str_less(ids[i].as_str(), ids[i + 1].as_str()) {
            return false;
        }
        i = i + 1;
    }
    true
}


/// The first index of `s` whose element satisfies `pred`.
pub open spec fn find_first<A>(s: Seq<A>, pred: spec_fn(A) -> bool) -> Option<int>
    decreases s.len(),
{
    if s.len() == 0 {
        None
    } else if pred(s[0]) {
        Some(0)
    } else {
        match find_first(s.drop_first(), pred) {
            Some(i) => Some(i + 1),
            None => None,
        }
    }
}

/// `find_first` gives the least index that satisfies the predicate, or none when none does.
pub proof fn lemma_find_first<A>(s: Seq<A>, pred: spec_fn(A) -> bool)
    ensures
        match find_first(s, pred) {
            Some(i) => 0 <= i < s.len() && pred(s[i]) && forall|k: int| 0 <= k < i ==> !pred(#[trigger] s[k]),
            None => forall|k: int| 0 <= k < s.len() ==> !pred(#[trigger] s[k]),
        },
    decreases s.len(),
{
    if s.len() > 0 && !pred(s[0]) {
        lemma_find_first(s.drop_first(), pred);
        assert forall|k: int| 1 <= k < s.len() implies #[trigger] s[k] == s.drop_first()[k - 1] by {}
        match find_first(s.drop_first(), pred) {
            Some(i) => {
                assert forall|k: int| 0 <= k < i + 1 implies !pred(#[trigger] s[k]) by {
                    if k > 0 {
                        assert(s[k] == s.drop_first()[k - 1]);
                    }
                }
            },
            None => {
                assert forall|k: int| 0 <= k < s.len() implies !pred(#[trigger] s[k]) by {
                    if k > 0 {
                        assert(s[k] == s.drop_first()[k - 1]);
                    }
                }
            },
        }
    }
}

/// An index that satisfies the characterization of `find_first` is its result.
pub proof fn lemma_find_first_is<A>(s: Seq<A>, pred: spec_fn(A) -> bool, i: int)
    requires
        0 <= i <= s.len(),
        forall|k: int| 0 <= k < i ==> !pred(#[trigger] s[k]),
        i < s.len() ==> pred(s[i]),
    ensures
        find_first(s, pred) == (if i < s.len() { Some(i) } else { None::<int> }),
{
    lemma_find_first(s, pred);
    match find_first(s, pred) {
        Some(j) => {
            if j < i {
                assert(!pred(s[j]));
            } else if j > i {
                assert(!pred(s[i]));
            }
        },
        None => {
            if i < s.len() {
                assert(!pred(s[i]));
            }
        },
    }
}

} // verus!


