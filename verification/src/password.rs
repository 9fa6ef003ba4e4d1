//! Passwords, random tokens and identifiers.

use vstd::prelude::*;
use argon2::password_hash::SaltString;
use argon2::password_hash::PasswordHasher;
use argon2::password_hash::PasswordVerifier;
use base64::Engine;
use vstd::string::StringSliceAdditionalSpecFns;

verus! {

/// Why a password or token operation failed; each variant carries the
/// underlying error's text.
#[derive(Debug, Clone, PartialEq, Eq)]
pub enum PasswordError {
    /// Hashing a password failed.
    HashFailed(String),
    /// A stored hash is not a valid PHC hash string.
    InvalidHash(String),
    /// The system random number generator failed.
    RandomUnavailable(String),
}

// ---------------------------------------------------------------------------
// Names for what outside functions compute
// ---------------------------------------------------------------------------

/// The unpadded URL-safe base64 text of `bytes`
/// (`base64::engine::general_purpose::URL_SAFE_NO_PAD.encode`).
pub uninterp spec fn base64_url_encoded(bytes: Seq<u8>) -> Seq<char>;

/// The bytes that an unpadded URL-safe base64 text decodes to, if it decodes
/// (`base64::engine::general_purpose::URL_SAFE_NO_PAD.decode`).
pub uninterp spec fn base64_url_decoded(text: Seq<char>) -> Option<Seq<u8>>;

/// Whether `hash` parses as a PHC password hash string
/// (`password_hash::PasswordHash::new`).
pub uninterp spec fn phc_hash_parses(hash: Seq<char>) -> bool;

/// The PHC string of the Argon2 hash (default parameters) of `password` with
/// the salt made from `salt` (`SaltString::encode_b64`, then
/// `PasswordHasher::hash_password` of the default `argon2::Argon2`).
pub uninterp spec fn argon2_phc_hash(password: Seq<char>, salt: Seq<u8>) -> Seq<char>;

/// Whether `password` verifies against the parsed PHC hash `hash` with the
/// default Argon2 instance (`PasswordVerifier::verify_password` returns `Ok`).
pub uninterp spec fn argon2_verifies(password: Seq<char>, hash: Seq<char>) -> bool;

/// A character of the URL-safe base64 alphabet: `A`-`Z`, `a`-`z`, `0`-`9`,
/// `-` and `_`.
pub open spec fn is_url_safe_b64_char(c: char) -> bool {
    let n = c as u32;
    ||| 0x41 <= n <= 0x5a
    ||| 0x61 <= n <= 0x7a
    ||| 0x30 <= n <= 0x39
    ||| c == '-'
    ||| c == '_'
}

/// `$argon2id$`, the start of the PHC string of an Argon2id hash.
pub open spec fn argon2id_prefix() -> Seq<char> {
    seq!['$', 'a', 'r', 'g', 'o', 'n', '2', 'i', 'd', '$']
}

/// The length of the unpadded base64 text of `n` bytes: four characters per
/// three bytes, plus two or three for a trailing one or two bytes.
pub open spec fn base64_unpadded_len(n: nat) -> nat {
    (n / 3) * 4 + if n % 3 == 1 {
        2nat
    } else if n % 3 == 2 {
        3nat
    } else {
        0nat
    }
}

// ---------------------------------------------------------------------------
// Trusted wrappers
// ---------------------------------------------------------------------------

/// Calls `URL_SAFE_NO_PAD.encode` of the `base64` crate. Claimed: the result
/// is the named encoding of the bytes, of the length that `encoded_len`
/// computes without padding, written in the URL-safe alphabet; and
/// `URL_SAFE_NO_PAD.decode` gives the bytes back from it (the engine's
/// round trip: unpadded output, which the same engine's `RequireNone`
/// padding mode accepts). The length bound keeps `encoded_len` from
/// overflowing, where `encode` would panic.
#[verifier::external_body]
fn b64_url_encode(bytes: &[u8]) -> (r: String)
    requires
        bytes@.len() <= usize::MAX / 2,
    ensures
        r@ == base64_url_encoded(bytes@),
        r@.len() == base64_unpadded_len(bytes@.len()),
        forall|i: int| 0 <= i < r@.len() ==> is_url_safe_b64_char(#[trigger] r@[i]),
        base64_url_decoded(r@) == Some(bytes@),
{
    base64::engine::general_purpose::URL_SAFE_NO_PAD.encode(bytes)
}

/// Calls `URL_SAFE_NO_PAD.decode` of the `base64` crate on the text's bytes.
/// Claimed: it succeeds exactly when the named decoding exists, and then
/// returns it; on failure, the error's text.
#[verifier::external_body]
pub(crate) fn b64_url_decode(text: &str) -> (r: Result<Vec<u8>, String>)
    ensures
        match r {
            Ok(v) => base64_url_decoded(text@) == Some(v@),
            Err(_) => base64_url_decoded(text@).is_none(),
        },
{
    base64::engine::general_purpose::URL_SAFE_NO_PAD.decode(text).map_err(|e| e.to_string())
}

/// Calls `getrandom::getrandom` on the vector's bytes. Claimed: the length is
/// unchanged; the contents (random, or anything on error) are not stated.
#[verifier::external_body]
fn fill_random(dest: &mut Vec<u8>) -> (r: Result<(), String>)
    ensures
        final(dest)@.len() == old(dest)@.len(),
{
    getrandom::getrandom(dest.as_mut_slice()).map_err(|e| e.to_string())
}

/// Calls `PasswordHasher::hash_password` of the default `argon2::Argon2` with
/// the salt made from `salt_bytes` by `SaltString::encode_b64`, and renders
/// the PHC string. Claimed: the result is the named hash of the password and
/// the salt bytes (the default instance hashes deterministically); it parses
/// as a PHC string and verifies the password it was made from (the round
/// trip that `PasswordHasher` and `PasswordVerifier` of the same instance
/// document); it starts with `$argon2id$` (the default algorithm's
/// identifier, which the PHC string writes first); and, with a 16-byte salt (22 characters, within the salt limits
/// of both crates), the call succeeds exactly when the password has at most
/// `0xFFFF_FFFF` bytes (Argon2's limit), the only other input that the
/// default parameters check. On failure, the error's text.
#[verifier::external_body]
fn argon2_hash(password: &str, salt_bytes: &[u8]) -> (r: Result<String, String>)
    ensures
        r matches Ok(h) ==> h@ == argon2_phc_hash(password@, salt_bytes@),
        r matches Ok(h) ==> phc_hash_parses(h@) && argon2_verifies(password@, h@),
        r matches Ok(h) ==> crate::text::starts_with(h@, argon2id_prefix()),
        salt_bytes@.len() == 16 ==> (r is Ok <==> password.spec_bytes().len() <= 0xFFFF_FFFF),
{
    let salt = match SaltString::encode_b64(salt_bytes) {
        Ok(salt) => salt,
        Err(e) => return Err(e.to_string()),
    };
    match argon2::Argon2::default().hash_password(password.as_bytes(), &salt) {
        Ok(h) => Ok(h.to_string()),
        Err(e) => Err(e.to_string()),
    }
}

/// Calls `PasswordHash::new` on `hash` and, when it parses,
/// `PasswordVerifier::verify_password` of the default `argon2::Argon2`.
/// Claimed: `Ok` exactly when the hash parses, holding whether the password
/// verifies; on a parse failure, the error's text.
#[verifier::external_body]
fn argon2_check(password: &str, hash: &str) -> (r: Result<bool, String>)
    ensures
        r is Ok <==> phc_hash_parses(hash@),
        r matches Ok(b) ==> b == argon2_verifies(password@, hash@),
{
    argon2::PasswordHash::new(hash).map(
        |h| argon2::Argon2::default().verify_password(password.as_bytes(), &h).is_ok(),
    ).map_err(|e| e.to_string())
}

// ---------------------------------------------------------------------------
// Hex and UUID text
// ---------------------------------------------------------------------------

/// The lowercase hexadecimal digit for `d` (0 to 15).
pub open spec fn hex_digit(d: int) -> char {
    if d < 10 {
        crate::jobs::digit_char(d)
    } else if d == 10 {
        'a'
    } else if d == 11 {
        'b'
    } else if d == 12 {
        'c'
    } else if d == 13 {
        'd'
    } else if d == 14 {
        'e'
    } else {
        'f'
    }
}

/// The two lowercase hex digits of a byte (`{:02x}`).
pub open spec fn hex_byte(b: u8) -> Seq<char> {
    seq![hex_digit(b as int / 16), hex_digit(b as int % 16)]
}

/// The UUID text of the first `i` bytes of `v`: each byte as two lowercase
/// hex digits, with a `-` before bytes 4, 6, 8 and 10.
pub open spec fn uuid_chars(v: Seq<u8>, i: nat) -> Seq<char>
    decreases i,
{
    if i == 0 {
        Seq::empty()
    } else {
        let j = (i - 1) as nat;
        let dash = if j == 4 || j == 6 || j == 8 || j == 10 {
            seq!['-']
        } else {
            Seq::empty()
        };
        uuid_chars(v, j) + dash + hex_byte(v[j as int])
    }
}

/// The bytes of a version-4 UUID made from 16 random bytes: the version
/// nibble of byte 6 set to 4 and the variant bits of byte 8 set to `10`.
pub open spec fn uuid_v4_bytes(b: Seq<u8>) -> Seq<u8> {
    b.update(6, (b[6] & 0x0f) | 0x40).update(8, (b[8] & 0x3f) | 0x80)
}

/// The text of the version-4 UUID made from 16 random bytes.
pub open spec fn uuid_v4_text(b: Seq<u8>) -> Seq<char> {
    uuid_chars(uuid_v4_bytes(b), 16)
}

fn hex_digit_char(d: u8) -> (c: char)
    requires
        d < 16,
    ensures
        c == hex_digit(d as int),
{
    if d < 10 {
        let c = crate::jobs::decimal_digit(d as u64);
        c
    } else if d == 10 {
        'a'
    } else if d == 11 {
        'b'
    } else if d == 12 {
        'c'
    } else if d == 13 {
        'd'
    } else if d == 14 {
        'e'
    } else {
        'f'
    }
}

/// The text of the version-4 UUID made from 16 random bytes
/// (`xxxxxxxx-xxxx-4xxx-yxxx-xxxxxxxxxxxx`, lowercase).
pub fn format_uuid_v4(bytes: &Vec<u8>) -> (r: String)
    requires
        bytes@.len() == 16,
    ensures
        r@ == uuid_v4_text(bytes@),
{
    let mut b = bytes.clone();
    assert(b@ == bytes@);
    let b6 = (b[6] & 0x0f) | 0x40;
    let b8 = (b[8] & 0x3f) | 0x80;
    b.set(6, b6);
    b.set(8, b8);
    assert(b@ =~= uuid_v4_bytes(bytes@));
    let mut out: Vec<char> = Vec::new();
    let mut i: usize = 0;
    while i < 16
        invariant
            i <= 16,
            b@.len() == 16,
            b@ == uuid_v4_bytes(bytes@),
            out@ == uuid_chars(b@, i as nat),
        decreases 16 - i,
    {
        if i == 4 || i == 6 || i == 8 || i == 10 {
            out.push('-');
        }
        let byte = b[i];
        out.push(hex_digit_char(byte / 16));
        out.push(hex_digit_char(byte % 16));
        proof {
            let j = i as nat;
            let dash = if j == 4 || j == 6 || j == 8 || j == 10 {
                seq!['-']
            } else {
                Seq::<char>::empty()
            };
            assert(uuid_chars(b@, (i + 1) as nat) == uuid_chars(b@, j) + dash + hex_byte(b@[i as int]));
            assert(out@ =~= uuid_chars(b@, (i + 1) as nat));
        }
        i += 1;
    }
    crate::text::string_from_chars(&out)
}

/// The length of the UUID text of the first `i` bytes.
proof fn lemma_uuid_chars_len(v: Seq<u8>, i: nat)
    requires
        i <= v.len(),
    ensures
        uuid_chars(v, i).len() == 2 * i + if i > 10 {
            4int
        } else if i > 8 {
            3int
        } else if i > 6 {
            2int
        } else if i > 4 {
            1int
        } else {
            0int
        },
    decreases i,
{
    if i > 0 {
        lemma_uuid_chars_len(v, (i - 1) as nat);
    }
}

/// The UUID text of the first `j` bytes is a prefix of that of the first `i`.
proof fn lemma_uuid_chars_prefix(v: Seq<u8>, j: nat, i: nat, k: int)
    requires
        j <= i <= v.len(),
        0 <= k < uuid_chars(v, j).len(),
    ensures
        uuid_chars(v, i)[k] == uuid_chars(v, j)[k],
    decreases i,
{
    if i > j {
        lemma_uuid_chars_prefix(v, j, (i - 1) as nat, k);
        lemma_uuid_chars_len(v, (i - 1) as nat);
        lemma_uuid_chars_len(v, j);
        if j < i {
            lemma_uuid_chars_len_mono(v, j, (i - 1) as nat);
        }
    }
}

proof fn lemma_uuid_chars_len_mono(v: Seq<u8>, j: nat, i: nat)
    requires
        j <= i <= v.len(),
    ensures
        uuid_chars(v, j).len() <= uuid_chars(v, i).len(),
{
    lemma_uuid_chars_len(v, j);
    lemma_uuid_chars_len(v, i);
}

/// A generated UUID has the version-4 shape: 36 characters, dashes at
/// positions 8, 13, 18 and 23, the version digit `4` at position 14, and one
/// of `8`, `9`, `a`, `b` at position 19.
pub proof fn lemma_uuid_v4_shape(b: Seq<u8>)
    requires
        b.len() == 16,
    ensures
        uuid_v4_text(b).len() == 36,
        uuid_v4_text(b)[8] == '-',
        uuid_v4_text(b)[13] == '-',
        uuid_v4_text(b)[18] == '-',
        uuid_v4_text(b)[23] == '-',
        uuid_v4_text(b)[14] == '4',
        uuid_v4_text(b)[19] == '8' || uuid_v4_text(b)[19] == '9' || uuid_v4_text(b)[19] == 'a'
            || uuid_v4_text(b)[19] == 'b',
{
    let v = uuid_v4_bytes(b);
    lemma_uuid_chars_len(v, 16);
    lemma_uuid_chars_len(v, 4);
    lemma_uuid_chars_len(v, 5);
    lemma_uuid_chars_len(v, 6);
    lemma_uuid_chars_len(v, 7);
    lemma_uuid_chars_len(v, 8);
    lemma_uuid_chars_len(v, 9);
    lemma_uuid_chars_len(v, 10);
    lemma_uuid_chars_len(v, 11);
    lemma_uuid_chars_prefix(v, 5, 16, 8);
    lemma_uuid_chars_prefix(v, 7, 16, 13);
    lemma_uuid_chars_prefix(v, 7, 16, 14);
    lemma_uuid_chars_prefix(v, 9, 16, 18);
    lemma_uuid_chars_prefix(v, 9, 16, 19);
    lemma_uuid_chars_prefix(v, 11, 16, 23);
    let x6 = b[6];
    let x8 = b[8];
    assert(((x6 & 0x0f) | 0x40) / 16 == 4) by (bit_vector);
    assert(8 <= ((x8 & 0x3f) | 0x80) / 16 <= 11) by (bit_vector);
    assert(v[6] == (x6 & 0x0f) | 0x40);
    assert(v[8] == (x8 & 0x3f) | 0x80);
}

// ---------------------------------------------------------------------------
// Public operations
// ---------------------------------------------------------------------------

/// Generate a random (version 4) UUID.
pub fn generate_uuid() -> (r: Result<String, PasswordError>)
    ensures
        match r {
            Ok(u) => exists|b: Seq<u8>| b.len() == 16 && u@ == uuid_v4_text(b),
            Err(e) => e is RandomUnavailable,
        },
{
    let mut bytes: Vec<u8> = vec![0u8; 16];
    match fill_random(&mut bytes) {
        Err(msg) => Err(PasswordError::RandomUnavailable(msg)),
        Ok(()) => {
            let u = format_uuid_v4(&bytes);
            assert(bytes@.len() == 16 && u@ == uuid_v4_text(bytes@));
            Ok(u)
        },
    }
}

/// The text form of a token's random bytes: unpadded URL-safe base64.
pub fn token_text(bytes: &Vec<u8>) -> (r: String)
    requires
        bytes@.len() <= usize::MAX / 2,
    ensures
        r@ == base64_url_encoded(bytes@),
        r@.len() == base64_unpadded_len(bytes@.len()),
        forall|i: int| 0 <= i < r@.len() ==> is_url_safe_b64_char(#[trigger] r@[i]),
        base64_url_decoded(r@) == Some(bytes@),
{
    b64_url_encode(bytes.as_slice())
}

/// Generate a secure random token: 32 random bytes as unpadded URL-safe
/// base64 (43 characters).
pub fn generate_secure_token() -> (r: Result<String, PasswordError>)
    ensures
        match r {
            Ok(t) => t@.len() == 43 && (forall|i: int|
                0 <= i < t@.len() ==> is_url_safe_b64_char(#[trigger] t@[i])) && exists|b: Seq<u8>|
                b.len() == 32 && t@ == base64_url_encoded(b) && base64_url_decoded(t@) == Some(b),
            Err(e) => e is RandomUnavailable,
        },
{
    let mut bytes: Vec<u8> = vec![0u8; 32];
    match fill_random(&mut bytes) {
        Err(msg) => Err(PasswordError::RandomUnavailable(msg)),
        Ok(()) => {
            let t = token_text(&bytes);
            assert(bytes@.len() == 32 && t@ == base64_url_encoded(bytes@) && base64_url_decoded(t@)
                == Some(bytes@));
            Ok(t)
        },
    }
}

/// The deterministic lookup form of a token: its UTF-8 bytes as unpadded
/// URL-safe base64, from which the bytes decode back.
pub fn hash_token_for_lookup(token: &str) -> (r: String)
    requires
        token.spec_bytes().len() <= usize::MAX / 2,
    ensures
        r@ == base64_url_encoded(token.spec_bytes()),
        r@.len() == base64_unpadded_len(token.spec_bytes().len()),
        forall|i: int| 0 <= i < r@.len() ==> is_url_safe_b64_char(#[trigger] r@[i]),
        base64_url_decoded(r@) == Some(token.spec_bytes()),
{
    b64_url_encode(token.as_bytes())
}

/// Distinct tokens have distinct lookup keys: a key decodes back to the
/// token bytes it was made from, so one key never serves two tokens.
pub proof fn lemma_lookup_keys_distinct(a: Seq<u8>, b: Seq<u8>, key_a: Seq<char>, key_b: Seq<char>)
    requires
        base64_url_decoded(key_a) == Some(a),
        base64_url_decoded(key_b) == Some(b),
        a != b,
    ensures
        key_a != key_b,
{
}

/// What verifying `password` against `hash` gives: `None` when the hash does
/// not parse, else whether the password matches.
pub open spec fn verification_of(password: Seq<char>, hash: Seq<char>) -> Option<bool> {
    if phc_hash_parses(hash) {
        Some(argon2_verifies(password, hash))
    } else {
        None
    }
}

/// Hash a password with Argon2 (default parameters) and the given 16 salt
/// bytes, as a PHC string starting with `$argon2id$`. A hash it returns
/// verifies the password it was made from; it fails only on a password longer than `0xFFFF_FFFF` bytes.
pub fn hash_password_with_salt(password: &str, salt_bytes: &Vec<u8>) -> (r: Result<
    String,
    PasswordError,
>)
    requires
        salt_bytes@.len() == 16,
    ensures
        r matches Ok(h) ==> h@ == argon2_phc_hash(password@, salt_bytes@),
        r matches Ok(h) ==> verification_of(password@, h@) == Some(true),
        r matches Ok(h) ==> crate::text::starts_with(h@, argon2id_prefix()),
        r is Err <==> password.spec_bytes().len() > 0xFFFF_FFFF,
        r matches Err(e) ==> e is HashFailed,
{
    match argon2_hash(password, salt_bytes.as_slice()) {
        Ok(h) => Ok(h),
        Err(msg) => Err(PasswordError::HashFailed(msg)),
    }
}

/// Hash a password with Argon2 (default parameters) and a random 16-byte salt,
/// as a PHC string starting with `$argon2id$`. A hash it returns verifies the
/// password it was made from;
/// it fails only on a password longer than `0xFFFF_FFFF` bytes.
pub fn hash_password(password: &str) -> (r: Result<String, PasswordError>)
    ensures
        r matches Ok(h) ==> exists|salt: Seq<u8>|
            salt.len() == 16 && h@ == argon2_phc_hash(password@, salt),
        r matches Ok(h) ==> verification_of(password@, h@) == Some(true),
        r matches Ok(h) ==> crate::text::starts_with(h@, argon2id_prefix()),
        r is Err <==> password.spec_bytes().len() > 0xFFFF_FFFF,
        r matches Err(e) ==> e is HashFailed,
{
    let mut salt_bytes: Vec<u8> = vec![0u8; 16];
    // A failing random source is not an error for the salt: the bytes are
    // then used as they are.
    let _ = fill_random(&mut salt_bytes);
    let r = hash_password_with_salt(password, &salt_bytes);
    if let Ok(h) = &r {
        assert(salt_bytes@.len() == 16 && h@ == argon2_phc_hash(password@, salt_bytes@));
    }
    r
}

/// Verify a password against a stored hash: an error when the hash does not
/// parse, else whether the password matches.
pub fn verify_password(password: &str, hash: &str) -> (r: Result<bool, PasswordError>)
    ensures
        match verification_of(password@, hash@) {
            Some(b) => r matches Ok(v) && v == b,
            None => r matches Err(PasswordError::InvalidHash(_)),
        },
{
    match argon2_check(password, hash) {
        Ok(b) => Ok(b),
        Err(msg) => Err(PasswordError::InvalidHash(msg)),
    }
}

/// Whether a stored hash should be recomputed with newer parameters; no hash
/// needs it with the current parameters.
pub fn needs_rehash(_hash: &str) -> (r: bool)
    ensures
        !r,
{
    false
}

} // verus!
