//! Device keys and private feed links: making a new key, the stored one-way
//! hash of a key, reading the key from an `Authorization` header, and what a
//! key lookup is answered with.

use vstd::prelude::*;
use crate::error::{AppError, ErrorKind};
use crate::text::{push_char, spec_starts_with, starts_with};

verus! {

/// What `sha2::Sha256::digest` returns for these bytes.
pub uninterp spec fn sha256_digest(data: Seq<u8>) -> Seq<u8>;

/// Hashes bytes with SHA-256 (`sha2::Sha256::digest`).
///
/// Trusted: the contract names the digest as a function of the bytes alone,
/// and states its length, 32 bytes, which is `Sha256`'s output size (`U32`
/// in the `sha2` source).
#[verifier::external_body]
pub(crate) fn sha256(data: &[u8]) -> (digest: Vec<u8>)
    ensures
        digest@ == sha256_digest(data@),
        digest@.len() == 32,
{
    <sha2::Sha256 as sha2::Digest>::digest(data).to_vec()
}

/// The character of the URL-safe base64 alphabet for a six-bit value
/// (`A`-`Z`, `a`-`z`, `0`-`9`, `-`, `_`).
pub open spec fn base64_char(v: int) -> char {
    if v < 26 {
        (65 + v) as char
    } else if v < 52 {
        (97 + (v - 26)) as char
    } else if v < 62 {
        (48 + (v - 52)) as char
    } else if v == 62 {
        '-'
    } else {
        '_'
    }
}

/// The six-bit value a URL-safe base64 character stands for.
pub open spec fn base64_value(c: char) -> int {
    if 'A' <= c && c <= 'Z' {
        (c as int) - 65
    } else if 'a' <= c && c <= 'z' {
        (c as int) - 97 + 26
    } else if '0' <= c && c <= '9' {
        (c as int) - 48 + 52
    } else if c == '-' {
        62
    } else {
        63
    }
}

/// Bytes in URL-safe base64 without padding (RFC 4648, section 5): each
/// group of three bytes becomes four characters of six bits each, high bits
/// first; a last group of one or two bytes becomes two or three characters.
pub open spec fn base64_url_no_pad(data: Seq<u8>) -> Seq<char>
    decreases data.len(),
{
    if data.len() == 0 {
        Seq::empty()
    } else if data.len() == 1 {
        let b0 = data[0] as int;
        seq![base64_char(b0 / 4), base64_char((b0 % 4) * 16)]
    } else if data.len() == 2 {
        let b0 = data[0] as int;
        let b1 = data[1] as int;
        seq![base64_char(b0 / 4), base64_char((b0 % 4) * 16 + b1 / 16), base64_char((b1 % 16) * 4)]
    } else {
        let b0 = data[0] as int;
        let b1 = data[1] as int;
        let b2 = data[2] as int;
        seq![
            base64_char(b0 / 4),
            base64_char((b0 % 4) * 16 + b1 / 16),
            base64_char((b1 % 16) * 4 + b2 / 64),
            base64_char(b2 % 64),
        ] + base64_url_no_pad(data.skip(3))
    }
}

/// Reads URL-safe base64 without padding back into bytes.
pub open spec fn base64_url_decode(text: Seq<char>) -> Seq<u8>
    decreases text.len(),
{
    if text.len() < 2 {
        Seq::empty()
    } else if text.len() == 2 {
        let v0 = base64_value(text[0]);
        let v1 = base64_value(text[1]);
        seq![(v0 * 4 + v1 / 16) as u8]
    } else if text.len() == 3 {
        let v0 = base64_value(text[0]);
        let v1 = base64_value(text[1]);
        let v2 = base64_value(text[2]);
        seq![(v0 * 4 + v1 / 16) as u8, ((v1 % 16) * 16 + v2 / 4) as u8]
    } else {
        let v0 = base64_value(text[0]);
        let v1 = base64_value(text[1]);
        let v2 = base64_value(text[2]);
        let v3 = base64_value(text[3]);
        seq![(v0 * 4 + v1 / 16) as u8, ((v1 % 16) * 16 + v2 / 4) as u8, ((v2 % 4) * 64 + v3) as u8]
            + base64_url_decode(text.skip(4))
    }
}

/// A character of the URL-safe base64 alphabet.
pub open spec fn is_url_safe_base64_char(c: char) -> bool {
    ('A' <= c && c <= 'Z') || ('a' <= c && c <= 'z') || ('0' <= c && c <= '9') || c == '-' || c == '_'
}

proof fn lemma_base64_char(v: int)
    requires
        0 <= v < 64,
    ensures
        is_url_safe_base64_char(base64_char(v)),
        base64_value(base64_char(v)) == v,
{
}

proof fn lemma_group_split(b0: int, b1: int, b2: int)
    by (nonlinear_arith)
    requires
        0 <= b0 < 256,
        0 <= b1 < 256,
        0 <= b2 < 256,
    ensures
        0 <= b0 / 4 < 64,
        0 <= (b0 % 4) * 16 + b1 / 16 < 64,
        0 <= (b1 % 16) * 4 + b2 / 64 < 64,
        0 <= b2 % 64 < 64,
        ((b0 % 4) * 16 + b1 / 16) / 16 == b0 % 4,
        ((b0 % 4) * 16 + b1 / 16) % 16 == b1 / 16,
        ((b1 % 16) * 4 + b2 / 64) / 4 == b1 % 16,
        ((b1 % 16) * 4 + b2 / 64) % 4 == b2 / 64,
        (b0 / 4) * 4 + b0 % 4 == b0,
        (b1 / 16) * 16 + b1 % 16 == b1,
        (b2 / 64) * 64 + b2 % 64 == b2,
{
}

/// URL-safe base64 without padding is made only of its alphabet, has four
/// characters per three bytes plus two or three for a last group of one or
/// two bytes, and reads back to exactly the bytes it was made from.
pub proof fn lemma_base64_round_trip(data: Seq<u8>)
    ensures
        base64_url_no_pad(data).len() == (4 * data.len() + 2) / 3,
        forall|i: int| 0 <= i < base64_url_no_pad(data).len()
            ==> is_url_safe_base64_char(#[trigger] base64_url_no_pad(data)[i]),
        base64_url_decode(base64_url_no_pad(data)) == data,
    decreases data.len(),
{
    let t = base64_url_no_pad(data);
    if data.len() == 0 {
    } else if data.len() <= 2 {
        let b0 = data[0] as int;
        let b1 = if data.len() == 2 { data[1] as int } else { 0 };
        lemma_group_split(b0, b1, 0);
        lemma_base64_char(b0 / 4);
        lemma_base64_char((b0 % 4) * 16 + b1 / 16);
        lemma_base64_char((b1 % 16) * 4);
        if data.len() == 1 {
            assert(base64_url_decode(t) =~= data);
        } else {
            assert(base64_url_decode(t) =~= data);
        }
    } else {
        let b0 = data[0] as int;
        let b1 = data[1] as int;
        let b2 = data[2] as int;
        lemma_group_split(b0, b1, b2);
        let v1 = (b0 % 4) * 16 + b1 / 16;
        let v2 = (b1 % 16) * 4 + b2 / 64;
        lemma_base64_char(b0 / 4);
        lemma_base64_char(v1);
        lemma_base64_char(v2);
        lemma_base64_char(b2 % 64);
        let rest = base64_url_no_pad(data.skip(3));
        lemma_base64_round_trip(data.skip(3));
        let head = seq![base64_char(b0 / 4), base64_char(v1), base64_char(v2), base64_char(b2 % 64)];
        assert(t == head + rest);
        assert(t.skip(4) =~= rest);
        assert forall|i: int| 0 <= i < t.len() implies is_url_safe_base64_char(#[trigger] t[i]) by {
            if i >= 4 {
                assert(t[i] == rest[i - 4]);
            }
        }
        assert(base64_url_decode(t) =~= data.take(3) + data.skip(3));
        assert(data.take(3) + data.skip(3) =~= data);
    }
}

/// Encodes bytes as URL-safe base64 without padding
/// (`base64::engine::general_purpose::URL_SAFE_NO_PAD.encode`).
///
/// Trusted: the contract states the encoding that the `base64` crate
/// documents for this engine: the `URL_SAFE` alphabet of RFC 4648 and no
/// padding (`NO_PAD`), six bits per character, high bits first.
#[verifier::external_body]
pub(crate) fn encode_base64_url(data: &[u8]) -> (text: String)
    ensures
        text@ == base64_url_no_pad(data@),
{
    base64::Engine::encode(&base64::engine::general_purpose::URL_SAFE_NO_PAD, data)
}

/// Fills 32 bytes from the operating system's random source
/// (`rand::rngs::OsRng` through `TryRngCore::try_fill_bytes`).
///
/// Trusted: the contract states only that, when the source could be read,
/// there are 32 bytes; what they are is chance, and whether the source can
/// be read depends on the machine. `None` stands for the source's error.
#[verifier::external_body]
pub(crate) fn random_key_bytes() -> (bytes: Option<Vec<u8>>)
    ensures
        bytes matches Some(b) ==> b@.len() == 32,
{
    let mut bytes = [0u8; 32];
    match rand::TryRngCore::try_fill_bytes(&mut rand::rngs::OsRng, &mut bytes) {
        Ok(()) => Some(bytes.to_vec()),
        Err(_) => None,
    }
}

pub const NO_RANDOMNESS: &'static str = "A new key could not be made. Please try again.";

/// A key made from random bytes, in URL-safe base64 without padding; the
/// internal error when no random bytes could be had.
pub fn token_from_bytes(bytes: Option<Vec<u8>>) -> (r: Result<String, AppError>)
    ensures
        match bytes {
            Some(b) => r matches Ok(token) && {
                &&& token@ == base64_url_no_pad(b@)
                &&& base64_url_decode(token@) == b@
                &&& token@.len() == (4 * b@.len() + 2) / 3
                &&& forall|i: int| 0 <= i < token@.len() ==> is_url_safe_base64_char(#[trigger] token@[i])
            },
            None => r matches Err(e) && e.is(ErrorKind::Internal, NO_RANDOMNESS@),
        },
{
    match bytes {
        Some(b) => {
            proof {
                lemma_base64_round_trip(b@);
            }
            Ok(encode_base64_url(b.as_slice()))
        },
        None => Err(AppError::internal(NO_RANDOMNESS)),
    }
}

/// Whether `token` is a key as `random_token` makes them: the URL-safe
/// base64 text of 32 bytes, which it reads back to, 43 characters long.
pub open spec fn is_random_key(token: Seq<char>) -> bool {
    exists|bytes: Seq<u8>| #![trigger base64_url_no_pad(bytes)]
        bytes.len() == 32 && token == base64_url_no_pad(bytes) && base64_url_decode(token) == bytes
}

/// A new random key: 32 random bytes in URL-safe base64 without padding;
/// the internal error when the operating system's random source fails.
pub fn random_token() -> (r: Result<String, AppError>)
    ensures
        r matches Ok(token) ==> {
            &&& is_random_key(token@)
            &&& token@.len() == 43
            &&& forall|i: int| 0 <= i < token@.len() ==> is_url_safe_base64_char(#[trigger] token@[i])
        },
        r matches Err(e) ==> e.is(ErrorKind::Internal, NO_RANDOMNESS@),
{
    let bytes = random_key_bytes();
    let ghost drawn = bytes;
    let r = token_from_bytes(bytes);
    proof {
        if let Some(b) = drawn {
            assert(base64_url_no_pad(b@) == base64_url_no_pad(b@));
        }
    }
    r
}

/// The lower-case hexadecimal digit for `d` (`0 <= d < 16`).
pub open spec fn hex_digit_char(d: nat) -> char {
    if d < 10 {
        ((d + 48) as u8) as char
    } else {
        ((d + 87) as u8) as char
    }
}

/// Bytes as lower-case hexadecimal, two digits per byte, high digit first
/// (what `{:x}` writes for a digest).
pub open spec fn lower_hex(bytes: Seq<u8>) -> Seq<char>
    decreases bytes.len(),
{
    if bytes.len() == 0 {
        Seq::empty()
    } else {
        let b = bytes.last();
        lower_hex(bytes.drop_last()).push(hex_digit_char((b / 16) as nat)).push(hex_digit_char((b % 16) as nat))
    }
}

fn hex_digit(d: u8) -> (c: char)
    requires
        d < 16,
    ensures
        c == hex_digit_char(d as nat),
{
    if d < 10 {
        ((d + 48) as u8) as char
    } else {
        ((d + 87) as u8) as char
    }
}

/// Bytes as lower-case hexadecimal.
pub fn to_lower_hex(bytes: &[u8]) -> (hex: String)
    ensures
        hex@ == lower_hex(bytes@),
{
    let mut out = String::new();
    let mut i: usize = 0;
    while i < bytes.len()
        invariant
            i <= bytes.len(),
            out@ == lower_hex(bytes@.take(i as int)),
        decreases bytes.len() - i,
    {
        let b = bytes[i];
        push_char(&mut out, hex_digit(b / 16));
        push_char(&mut out, hex_digit(b % 16));
        assert(bytes@.take(i + 1).drop_last() == bytes@.take(i as int));
        i = i + 1;
    }
    assert(bytes@.take(bytes.len() as int) == bytes@);
    out
}

/// Whether `c` is a lower-case hexadecimal digit.
pub open spec fn is_lower_hex_digit(c: char) -> bool {
    ('0' <= c && c <= '9') || ('a' <= c && c <= 'f')
}

proof fn lemma_lower_hex_shape(bytes: Seq<u8>)
    ensures
        lower_hex(bytes).len() == 2 * bytes.len(),
        forall|i: int| 0 <= i < lower_hex(bytes).len() ==> is_lower_hex_digit(#[trigger] lower_hex(bytes)[i]),
    decreases bytes.len(),
{
    if bytes.len() > 0 {
        lemma_lower_hex_shape(bytes.drop_last());
        let b = bytes.last();
        let hi = hex_digit_char((b / 16) as nat);
        let lo = hex_digit_char((b % 16) as nat);
        let prev = lower_hex(bytes.drop_last());
        assert forall|i: int| 0 <= i < prev.push(hi).push(lo).len() implies is_lower_hex_digit(#[trigger] prev.push(hi).push(lo)[i]) by {
            if i < prev.len() {
                assert(prev.push(hi).push(lo)[i] == prev[i]);
            }
        }
    }
}

/// The stored form of a key: the SHA-256 digest of its UTF-8 bytes, in
/// lower-case hexadecimal.
pub open spec fn spec_token_hash(token: Seq<char>) -> Seq<char> {
    lower_hex(sha256_digest(vstd::utf8::encode_utf8(token)))
}

/// The one-way hash under which a key is stored; the key itself is never
/// stored.
pub fn token_hash(token: &str) -> (hash: String)
    ensures
        hash@ == spec_token_hash(token@),
        hash@.len() == 64,
        forall|i: int| 0 <= i < hash@.len() ==> is_lower_hex_digit(#[trigger] hash@[i]),
{
    let digest = sha256(token.as_bytes());
    proof {
        lemma_lower_hex_shape(digest@);
    }
    to_lower_hex(digest.as_slice())
}

/// What precedes the key in an `Authorization` header.
pub open spec fn bearer_prefix() -> Seq<char> {
    seq!['B', 'e', 'a', 'r', 'e', 'r', ' ']
}

/// The key an `Authorization` header value carries: the text after
/// `Bearer `, when there is any.
pub open spec fn spec_bearer(header: Option<Seq<char>>) -> Option<Seq<char>> {
    match header {
        Some(h) => if spec_starts_with(h, bearer_prefix()) && h.len() > bearer_prefix().len() {
            Some(h.skip(bearer_prefix().len() as int))
        } else {
            None
        },
        None => None,
    }
}

/// The key written into an `Authorization` header as `Bearer <key>` is the
/// key read back from it, for any non-empty key.
pub proof fn lemma_bearer_reads_back_key(key: Seq<char>)
    requires
        key.len() > 0,
    ensures
        spec_bearer(Some(bearer_prefix() + key)) == Some(key),
{
    let h = bearer_prefix() + key;
    assert(h.take(7) =~= bearer_prefix());
    assert(h.skip(7) =~= key);
}

pub const SIGN_IN: &'static str = "Sign in on this device to access your private queue.";
pub const KEY_INACTIVE: &'static str = "This device key is no longer active.";
pub const FEED_UNAVAILABLE: &'static str = "This private feed link is unavailable.";

/// Reads the device key from the `Authorization` header's value (`None`
/// when the header is absent or not visible ASCII text): it must be
/// `Bearer ` followed by a non-empty key.
pub fn bearer(header: Option<&str>) -> (r: Result<&str, AppError>)
    ensures
        match spec_bearer(match header { Some(h) => Some(h@), None => None }) {
            Some(key) => r matches Ok(k) && k@ == key,
            None => r matches Err(e) && e.is(ErrorKind::Unauthorized, SIGN_IN@),
        },
{
    match header {
        Some(h) => {
            proof {
                reveal_strlit("Bearer ");
                assert("Bearer "@ =~= bearer_prefix());
                assert(h@.skip(7) =~= h@.subrange(7, h@.len() as int));
            }
            let n = h.unicode_len();
            if starts_with(h, "Bearer ") && n > 7 {
                Ok(h.substring_char(7, n))
            } else {
                Err(AppError::unauthorized(SIGN_IN))
            }
        },
        None => Err(AppError::unauthorized(SIGN_IN)),
    }
}

/// The account a device key belongs to, if the lookup found one.
pub fn account_or_unauthorized(found: Option<i64>) -> (r: Result<i64, AppError>)
    ensures
        match found {
            Some(id) => r == Ok::<i64, AppError>(id),
            None => r matches Err(e) && e.is(ErrorKind::Unauthorized, KEY_INACTIVE@),
        },
{
    match found {
        Some(id) => Ok(id),
        None => Err(AppError::unauthorized(KEY_INACTIVE)),
    }
}

/// The account a private feed link belongs to, if the lookup found an
/// unrevoked one; otherwise the link is answered as missing.
pub fn feed_account_or_missing(found: Option<i64>) -> (r: Result<i64, AppError>)
    ensures
        match found {
            Some(id) => r == Ok::<i64, AppError>(id),
            None => r matches Err(e) && e.is(ErrorKind::Missing, FEED_UNAVAILABLE@),
        },
{
    match found {
        Some(id) => Ok(id),
        None => Err(AppError::not_found(FEED_UNAVAILABLE)),
    }
}

/// A newly issued key: the key handed to the device or feed reader, and
/// the hash under which it is stored.
#[derive(Debug, Clone)]
pub struct IssuedKey {
    pub token: String,
    pub hash: String,
}

/// Issues a new random key together with its stored hash; only the hash is
/// meant to be stored.
pub fn issue_key() -> (r: Result<IssuedKey, AppError>)
    ensures
        r matches Ok(key) ==> {
            &&& is_random_key(key.token@)
            &&& key.token@.len() == 43
            &&& forall|i: int| 0 <= i < key.token@.len() ==> is_url_safe_base64_char(#[trigger] key.token@[i])
            &&& key.hash@ == spec_token_hash(key.token@)
        },
        r matches Err(e) ==> e.is(ErrorKind::Internal, NO_RANDOMNESS@),
{
    let token = random_token()?;
    let hash = token_hash(token.as_str());
    Ok(IssuedKey { token, hash })
}

/// The stored hash to look an account up by, from the `Authorization`
/// header's value: the hash of the key it carries.
pub fn key_hash_from_header(header: Option<&str>) -> (r: Result<String, AppError>)
    ensures
        match spec_bearer(match header { Some(h) => Some(h@), None => None }) {
            Some(key) => r matches Ok(hash) && hash@ == spec_token_hash(key),
            None => r matches Err(e) && e.is(ErrorKind::Unauthorized, SIGN_IN@),
        },
{
    let key = bearer(header)?;
    Ok(token_hash(key))
}

/// A device that presents the key it was issued, as `Bearer <key>`, is
/// looked up by exactly the hash that was stored when the key was issued.
pub proof fn lemma_issued_key_opens_its_account(token: Seq<char>, stored_hash: Seq<char>)
    requires
        token.len() > 0,
        stored_hash == spec_token_hash(token),
    ensures
        spec_bearer(Some(bearer_prefix() + token)) matches Some(key)
            && spec_token_hash(key) == stored_hash,
{
    lemma_bearer_reads_back_key(token);
}

} // verus!
