use vstd::prelude::*;

use crate::text::push_char;

verus! {

// ---------------------------------------------------------------------------
// Percent-encoding
// ---------------------------------------------------------------------------

/// A byte that percent-encoding leaves as it is: an ASCII letter or digit, `-`, `.`, `_` or `~`.
pub open spec fn is_unreserved(b: u8) -> bool {
    (48 <= b <= 57) || (65 <= b <= 90) || (97 <= b <= 122) || b == 45 || b == 46 || b == 95 || b
        == 126
}

/// The upper-case hex digit for `d`, for `d` below sixteen.
pub open spec fn upper_hex_digit(d: u8) -> char {
    if d < 10 {
        ((48 + d) as u8) as char
    } else {
        ((55 + d) as u8) as char
    }
}

/// The lower-case hex digit for `d`, for `d` below sixteen.
pub open spec fn lower_hex_digit(d: u8) -> char {
    if d < 10 {
        ((48 + d) as u8) as char
    } else {
        ((87 + d) as u8) as char
    }
}

/// Percent-encoding of a byte string: each unreserved byte stands for itself, every other
/// byte becomes `%` and its value in two upper-case hex digits.
pub open spec fn percent_encode(bytes: Seq<u8>) -> Seq<char>
    decreases bytes.len(),
{
    if bytes.len() == 0 {
        Seq::empty()
    } else {
        let b = bytes[0];
        let head = if is_unreserved(b) {
            seq![b as char]
        } else {
            seq!['%', upper_hex_digit(b / 16), upper_hex_digit(b % 16)]
        };
        head + percent_encode(bytes.drop_first())
    }
}

/// Percent-encoding of the UTF-8 form of a text.
pub open spec fn url_encoded(s: Seq<char>) -> Seq<char> {
    percent_encode(vstd::utf8::encode_utf8(s))
}

/// `urlencoding::encode`. Its source percent-encodes every byte of the text's UTF-8 form
/// except ASCII letters, digits and `-`, `.`, `_`, `~`, with upper-case hex digits; that is
/// what the contract states.
#[verifier::external_body]
pub(crate) fn url_encode(s: &str) -> (r: String)
    ensures
        r@ == url_encoded(s@),
{
    urlencoding::encode(s).into_owned()
}

// ---------------------------------------------------------------------------
// Hashing and hex
// ---------------------------------------------------------------------------

/// The SHA-256 digest of `data`.
pub uninterp spec fn sha256(data: Seq<u8>) -> Seq<u8>;

/// `sha2::Sha256::digest`. The contract names its result, `sha256(data)`, and states the
/// digest's length, 32 bytes, which the output type `GenericArray<u8, U32>` fixes.
#[verifier::external_body]
pub(crate) fn sha256_digest(data: &[u8]) -> (r: Vec<u8>)
    ensures
        r@ == sha256(data@),
        r@.len() == 32,
{
    <sha2::Sha256 as sha2::Digest>::digest(data).to_vec()
}

/// Hex writing of a byte string, two lower-case digits per byte.
pub open spec fn hex_lower(bytes: Seq<u8>) -> Seq<char>
    decreases bytes.len(),
{
    if bytes.len() == 0 {
        Seq::empty()
    } else {
        seq![lower_hex_digit(bytes[0] / 16), lower_hex_digit(bytes[0] % 16)] + hex_lower(
            bytes.drop_first(),
        )
    }
}

/// `hex::encode`. Its source writes each byte as two digits from `0123456789abcdef`,
/// high half first; that is what the contract states.
#[verifier::external_body]
pub(crate) fn hex_encode(bytes: &[u8]) -> (r: String)
    ensures
        r@ == hex_lower(bytes@),
{
    hex::encode(bytes)
}

/// `c` is one of `0123456789abcdef`.
pub open spec fn is_lower_hex(c: char) -> bool {
    ('0' <= c && c <= '9') || ('a' <= c && c <= 'f')
}

/// The hex writing of `n` bytes has `2n` characters, all lower-case hex digits.
pub proof fn lemma_hex_lower_shape(bytes: Seq<u8>)
    ensures
        hex_lower(bytes).len() == 2 * bytes.len(),
        forall|i: int| 0 <= i < hex_lower(bytes).len() ==> #[trigger] is_lower_hex(hex_lower(bytes)[i]),
    decreases bytes.len(),
{
    if bytes.len() > 0 {
        lemma_hex_lower_shape(bytes.drop_first());
        let b = bytes[0];
        assert(is_lower_hex(lower_hex_digit(b / 16)));
        assert(is_lower_hex(lower_hex_digit(b % 16)));
        let h = seq![lower_hex_digit(b / 16), lower_hex_digit(b % 16)];
        let t = hex_lower(bytes.drop_first());
        assert forall|i: int| 0 <= i < hex_lower(bytes).len() implies #[trigger] is_lower_hex(
            hex_lower(bytes)[i],
        ) by {
            if i >= 2 {
                assert(hex_lower(bytes)[i] == t[i - 2]);
            }
        }
    }
}

// ---------------------------------------------------------------------------
// Cache keys
// ---------------------------------------------------------------------------

/// The cache key for a request: the prefix, `:`, and the lower-case hex SHA-256 digest of
/// the request's JSON text.
pub open spec fn cache_key(prefix: Seq<char>, payload: Seq<char>) -> Seq<char> {
    prefix + seq![':'] + hex_lower(sha256(vstd::utf8::encode_utf8(payload)))
}

/// The cache key under `prefix` for a request whose JSON text has the SHA-256 digest `digest`.
pub fn cache_key_from_digest(prefix: &str, digest: &[u8]) -> (r: String)
    ensures
        r@ == prefix@ + seq![':'] + hex_lower(digest@),
{
    let hex = hex_encode(digest);
    let mut key = prefix.to_owned();
    push_char(&mut key, ':');
    key.append(hex.as_str());
    key
}

/// The cache key under `prefix` for a request whose JSON text is `payload`.
pub fn build_cache_key(prefix: &str, payload: &str) -> (r: String)
    ensures
        r@ == cache_key(prefix@, payload@),
        r@.len() == prefix@.len() + 65,
        forall|i: int| prefix@.len() < i < r@.len() ==> #[trigger] is_lower_hex(r@[i]),
{
    let digest = sha256_digest(payload.as_bytes());
    let key = cache_key_from_digest(prefix, digest.as_slice());
    proof {
        lemma_cache_key_shape(prefix@, payload@);
    }
    key
}

/// Every cache key is its prefix, `:` and 64 lower-case hex digits (given a 32-byte digest,
/// which is what `sha256_digest` gives).
pub proof fn lemma_cache_key_shape(prefix: Seq<char>, payload: Seq<char>)
    requires
        sha256(vstd::utf8::encode_utf8(payload)).len() == 32,
    ensures
        cache_key(prefix, payload).len() == prefix.len() + 65,
        cache_key(prefix, payload).subrange(0, prefix.len() as int) == prefix,
        cache_key(prefix, payload)[prefix.len() as int] == ':',
        forall|i: int|
            prefix.len() < i < prefix.len() + 65 ==> #[trigger] is_lower_hex(
                cache_key(prefix, payload)[i],
            ),
{
    let bytes = vstd::utf8::encode_utf8(payload);
    lemma_hex_lower_shape(sha256(bytes));
    let k = cache_key(prefix, payload);
    assert(k.subrange(0, prefix.len() as int) =~= prefix);
    assert forall|i: int| prefix.len() < i < prefix.len() + 65 implies #[trigger] is_lower_hex(
        k[i],
    ) by {
        assert(k[i] == hex_lower(sha256(bytes))[i - prefix.len() - 1]);
    }
}

/// Keys under different prefixes never collide, whatever the requests.
pub proof fn lemma_cache_key_prefixes_apart(p1: Seq<char>, p2: Seq<char>, a: Seq<char>, b: Seq<char>)
    requires
        p1 != p2,
        sha256(vstd::utf8::encode_utf8(a)).len() == 32,
        sha256(vstd::utf8::encode_utf8(b)).len() == 32,
    ensures
        cache_key(p1, a) != cache_key(p2, b),
{
    lemma_cache_key_shape(p1, a);
    lemma_cache_key_shape(p2, b);
    if cache_key(p1, a) == cache_key(p2, b) {
        assert(p1.len() == p2.len());
        assert(p1 =~= p2);
    }
}


/// A character that can stand in a URL query value as it is: an unreserved ASCII character
/// or `%`.
pub open spec fn url_safe(c: char) -> bool {
    ('0' <= c && c <= '9') || ('A' <= c && c <= 'Z') || ('a' <= c && c <= 'z') || c == '-' || c
        == '.' || c == '_' || c == '~' || c == '%'
}

/// Percent-encoding writes only URL-safe characters.
pub proof fn lemma_percent_encode_safe(bytes: Seq<u8>)
    ensures
        forall|i: int|
            0 <= i < percent_encode(bytes).len() ==> #[trigger] url_safe(percent_encode(bytes)[i]),
    decreases bytes.len(),
{
    if bytes.len() > 0 {
        lemma_percent_encode_safe(bytes.drop_first());
        let b = bytes[0];
        let head = if is_unreserved(b) {
            seq![b as char]
        } else {
            seq!['%', upper_hex_digit(b / 16), upper_hex_digit(b % 16)]
        };
        let tail = percent_encode(bytes.drop_first());
        assert forall|i: int| 0 <= i < head.len() implies #[trigger] url_safe(head[i]) by {
            if is_unreserved(b) {
                assert(head[i] == b as char);
            }
        }
        assert forall|i: int| 0 <= i < percent_encode(bytes).len() implies #[trigger] url_safe(
            percent_encode(bytes)[i],
        ) by {
            if i < head.len() {
                assert(percent_encode(bytes)[i] == head[i]);
            } else {
                assert(percent_encode(bytes)[i] == tail[i - head.len()]);
            }
        }
    }
}

/// Bytes that are all unreserved are written as they are.
pub proof fn lemma_percent_encode_unreserved(bytes: Seq<u8>)
    requires
        forall|i: int| 0 <= i < bytes.len() ==> #[trigger] is_unreserved(bytes[i]),
    ensures
        percent_encode(bytes) == bytes.map_values(|b: u8| b as char),
    decreases bytes.len(),
{
    if bytes.len() > 0 {
        let rest = bytes.drop_first();
        assert forall|i: int| 0 <= i < rest.len() implies #[trigger] is_unreserved(rest[i]) by {
            assert(rest[i] == bytes[i + 1]);
        }
        lemma_percent_encode_unreserved(rest);
        assert(percent_encode(bytes) =~= bytes.map_values(|b: u8| b as char));
    } else {
        assert(percent_encode(bytes) =~= bytes.map_values(|b: u8| b as char));
    }
}

} // verus!
