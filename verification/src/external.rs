//! Calls into outside crates and into the parts of std that vstd does not
//! specify. Every item here is trusted: Verus believes its contract.
use vstd::prelude::*;

verus! {

// ---------------------------------------------------------------------------
// uuid
// ---------------------------------------------------------------------------

/// The version number (`Uuid::get_version_num`) of the UUID that
/// `uuid::Uuid::parse_str` parses from `s`, or `None` when it rejects `s`.
pub uninterp spec fn spec_uuid_version(s: Seq<char>) -> Option<usize>;

/// Calls `uuid::Uuid::parse_str` and, on success, `get_version_num`.
/// Claims only that the result is the named function of the input.
#[verifier::external_body]
pub(crate) fn uuid_version(s: &str) -> (r: Option<usize>)
    ensures
        r == spec_uuid_version(s@),
{
    match uuid::Uuid::parse_str(s) {
        Ok(u) => Some(u.get_version_num()),
        Err(_) => None,
    }
}

/// Calls `uuid::Uuid::now_v7` and formats it with `to_string`. Claims, as the
/// uuid documentation states, that the result parses back as a version-7
/// UUID; what the random and time bits are is left unsaid.
#[verifier::external_body]
pub(crate) fn new_uuid_v7() -> (r: String)
    ensures
        spec_uuid_version(r@) == Some(7usize),
{
    uuid::Uuid::now_v7().to_string()
}

// ---------------------------------------------------------------------------
// chrono
// ---------------------------------------------------------------------------

/// The instant that `chrono::DateTime::parse_from_rfc3339` parses from `s`,
/// as its Unix timestamp in whole seconds and the nanoseconds past that
/// second, or `None` when it rejects `s`.
pub uninterp spec fn spec_rfc3339_instant(s: Seq<char>) -> Option<(i64, u32)>;

/// Calls `chrono::DateTime::parse_from_rfc3339`, keeping the parsed
/// instant's `timestamp()` and `timestamp_subsec_nanos()`. Claims that the
/// result is the named function of the input, with nanoseconds below two
/// seconds: chrono reads a leap second (`:60`) as the 59th second plus one
/// second of nanoseconds, so `timestamp_subsec_nanos` may reach
/// 1_999_999_999, as its documentation says.
#[verifier::external_body]
pub(crate) fn rfc3339_instant(s: &str) -> (r: Option<(i64, u32)>)
    ensures
        r == spec_rfc3339_instant(s@),
        r matches Some(t) ==> t.1 < 2_000_000_000,
{
    match chrono::DateTime::parse_from_rfc3339(s) {
        Ok(d) => Some((d.timestamp(), d.timestamp_subsec_nanos())),
        Err(_) => None,
    }
}

/// Calls `chrono::Utc::now().to_rfc3339()`. Claims only that the text
/// parses back with `parse_from_rfc3339`, since `to_rfc3339` writes RFC 3339;
/// which instant it names depends on the clock.
#[verifier::external_body]
pub(crate) fn now_rfc3339() -> (r: String)
    ensures
        spec_rfc3339_instant(r@) is Some,
{
    chrono::Utc::now().to_rfc3339()
}

/// Calls `chrono::Utc::now()` and returns its `timestamp()` and
/// `timestamp_subsec_nanos()`. Claims only that the nanoseconds are below
/// one second, as chrono documents; the instant depends on the clock.
#[verifier::external_body]
pub(crate) fn now_utc() -> (r: (i64, u32))
    ensures
        r.1 < 1_000_000_000,
{
    let now = chrono::Utc::now();
    (now.timestamp(), now.timestamp_subsec_nanos())
}

// ---------------------------------------------------------------------------
// httpdate
// ---------------------------------------------------------------------------

/// The seconds since the Unix epoch of the instant that
/// `httpdate::parse_http_date` parses from `s`, or `None` when it rejects
/// `s`.
pub uninterp spec fn spec_http_date_seconds(s: Seq<char>) -> Option<u64>;

/// Calls `httpdate::parse_http_date`, keeping the seconds since the Unix
/// epoch (0 for an instant before it). Claims that the result is the named
/// function of the input and, since the crate accepts only the years 1970
/// to 9999, that it is before the year 10000.
#[verifier::external_body]
pub(crate) fn http_date_seconds(s: &str) -> (r: Option<u64>)
    ensures
        r == spec_http_date_seconds(s@),
        r matches Some(t) ==> t < 253_402_300_800,
{
    match httpdate::parse_http_date(s) {
        Ok(t) => Some(t.duration_since(std::time::UNIX_EPOCH).unwrap_or_default().as_secs()),
        Err(_) => None,
    }
}

/// Calls `httpdate::fmt_http_date(SystemTime::now())`. Claims only that
/// `parse_http_date` reads the text back: `fmt_http_date` writes an
/// IMF-fixdate of a year from 1970 to 9999 (it panics on any other clock
/// value), which the parser accepts. Which instant it names depends on the
/// clock.
#[verifier::external_body]
pub(crate) fn now_http_date() -> (r: String)
    ensures
        spec_http_date_seconds(r@) is Some,
{
    httpdate::fmt_http_date(std::time::SystemTime::now())
}

// ---------------------------------------------------------------------------
// bs58
// ---------------------------------------------------------------------------

/// The Bitcoin base58 alphabet's digit of value `d < 58`: `1`-`9`, then the
/// letters without `I`, `O` and `l`.
pub open spec fn base58_digit(d: nat) -> char {
    if d < 9 {
        ('1' as u32 + d) as char
    } else if d < 17 {
        ('A' as u32 + (d - 9)) as char
    } else if d < 22 {
        ('J' as u32 + (d - 17)) as char
    } else if d < 33 {
        ('P' as u32 + (d - 22)) as char
    } else if d < 44 {
        ('a' as u32 + (d - 33)) as char
    } else {
        ('m' as u32 + (d - 44)) as char
    }
}

/// The number that the bytes `b` write, most significant first.
pub open spec fn be_value(b: Seq<u8>) -> nat
    decreases b.len(),
{
    if b.len() == 0 {
        0
    } else {
        be_value(b.drop_last()) * 256 + b.last() as nat
    }
}

/// The base58 digits of `n`, most significant first, with no leading zero
/// digit (none at all for zero).
pub open spec fn base58_digits(n: nat) -> Seq<char>
    decreases n,
{
    if n == 0 {
        Seq::empty()
    } else {
        base58_digits(n / 58).push(base58_digit(n % 58))
    }
}

/// The number of zero bytes that `b` starts with.
pub open spec fn leading_zero_bytes(b: Seq<u8>) -> nat
    decreases b.len(),
{
    if b.len() > 0 && b[0] == 0 {
        1 + leading_zero_bytes(b.skip(1))
    } else {
        0
    }
}

/// The base58btc (Bitcoin alphabet) text of the bytes `b`, as
/// `bs58::encode(..).into_string()` writes it: one `1` for each leading zero
/// byte, then the base58 digits of the number the bytes write.
pub closed spec fn spec_bs58_encode(b: Seq<u8>) -> Seq<char> {
    Seq::new(leading_zero_bytes(b), |i: int| '1') + base58_digits(be_value(b))
}

/// Whether `c` is in the Bitcoin base58 alphabet: the ASCII digits and
/// letters without `0`, `O`, `I` and `l`.
pub open spec fn is_base58_char(c: char) -> bool {
    ||| ('1' <= c && c <= '9')
    ||| ('A' <= c && c <= 'H')
    ||| ('J' <= c && c <= 'N')
    ||| ('P' <= c && c <= 'Z')
    ||| ('a' <= c && c <= 'k')
    ||| ('m' <= c && c <= 'z')
}

/// Calls `bs58::encode(b).into_string()`. Claims that the result is the
/// base58 text of the input as stated above, and so made of base58
/// characters only.
#[verifier::external_body]
pub(crate) fn bs58_encode(b: &[u8]) -> (r: String)
    ensures
        r@ == spec_bs58_encode(b@),
        forall|i: int| 0 <= i < r@.len() ==> is_base58_char(#[trigger] r@[i]),
{
    bs58::encode(b).into_string()
}

/// The text of the error that `bs58::decode(s).into_vec()` reports for `s`.
pub uninterp spec fn spec_bs58_decode_error(s: Seq<char>) -> Seq<char>;

/// Calls `bs58::decode(s).into_vec()`, turning an error into its text.
/// Claims that decoding inverts encoding: it succeeds with `b` exactly when
/// `s` is the encoding of `b` (the decoder maps each leading `1` to a zero
/// byte and the remaining digits to the minimal big-endian bytes, so every
/// text of alphabet characters is the encoding of exactly one byte string),
/// and that it fails, with the named error text, when `s` is the encoding of
/// no byte string.
#[verifier::external_body]
pub(crate) fn bs58_decode(s: &str) -> (r: Result<Vec<u8>, String>)
    ensures
        match r {
            Ok(b) => spec_bs58_encode(b@) == s@ && forall|c: Seq<u8>|
                #[trigger] spec_bs58_encode(c) == s@ ==> c == b@,
            Err(e) => (forall|b: Seq<u8>| spec_bs58_encode(b) != s@) && e@ == spec_bs58_decode_error(
                s@,
            ),
        },
{
    match bs58::decode(s).into_vec() {
        Ok(b) => Ok(b),
        Err(e) => Err(e.to_string()),
    }
}

// ---------------------------------------------------------------------------
// ed25519-dalek
// ---------------------------------------------------------------------------

/// The Ed25519 public key (`SigningKey::from_bytes(seed).verifying_key()
/// .to_bytes()`) of the 32-byte secret seed `seed`.
pub uninterp spec fn spec_ed25519_public_key(seed: Seq<u8>) -> Seq<u8>;

/// The Ed25519 signature (`SigningKey::from_bytes(seed).sign(msg).to_bytes()`)
/// of `msg` under the secret seed `seed`.
pub uninterp spec fn spec_ed25519_sign(seed: Seq<u8>, msg: Seq<u8>) -> Seq<u8>;

/// Whether `VerifyingKey::from_bytes(pk)` accepts `pk` and the resulting
/// key's `verify(msg, Signature::from_bytes(sig))` succeeds.
pub uninterp spec fn spec_ed25519_verifies(pk: Seq<u8>, msg: Seq<u8>, sig: Seq<u8>) -> bool;

/// What `VerifyingKey::from_bytes(pk)` gives: `Ok` when the 32 bytes are
/// the compressed form of a usable curve point, otherwise the text of its
/// error.
pub uninterp spec fn spec_ed25519_key_check(pk: Seq<u8>) -> Result<(), Seq<char>>;

/// Calls `VerifyingKey::from_bytes(pk)`, keeping only whether it succeeded
/// and, if not, the text of its error. Claims only that the result is the
/// named function of the key bytes.
#[verifier::external_body]
pub(crate) fn ed25519_key_check(pk: &[u8; 32]) -> (r: Result<(), String>)
    ensures
        match (r, spec_ed25519_key_check(pk@)) {
            (Ok(()), Ok(())) => true,
            (Err(e), Err(f)) => e@ == f,
            _ => false,
        },
{
    match ed25519_dalek::VerifyingKey::from_bytes(pk) {
        Ok(_) => Ok(()),
        Err(e) => Err(e.to_string()),
    }
}

/// Calls `SigningKey::from_bytes(seed).verifying_key().to_bytes()`. Claims
/// that the result is the named function of the seed and, since it is the
/// compression of a point the crate computed, that `VerifyingKey::from_bytes`
/// accepts it.
#[verifier::external_body]
pub(crate) fn ed25519_public_key(seed: &[u8; 32]) -> (r: [u8; 32])
    ensures
        r@ == spec_ed25519_public_key(seed@),
        spec_ed25519_key_check(r@) is Ok,
{
    ed25519_dalek::SigningKey::from_bytes(seed).verifying_key().to_bytes()
}

/// Calls `SigningKey::from_bytes(seed).sign(msg).to_bytes()` (Ed25519 signing
/// is deterministic). Claims only that the result is the named function of
/// the seed and the message.
#[verifier::external_body]
pub(crate) fn ed25519_sign(seed: &[u8; 32], msg: &[u8]) -> (r: [u8; 64])
    ensures
        r@ == spec_ed25519_sign(seed@, msg@),
{
    ed25519_dalek::Signer::sign(&ed25519_dalek::SigningKey::from_bytes(seed), msg).to_bytes()
}

/// Calls `VerifyingKey::from_bytes(pk)` and, when it succeeds, `verify(msg,
/// &Signature::from_bytes(sig))`. Claims that the result is the named
/// function of its arguments, and that a signature made with a seed verifies
/// under that seed's public key (Ed25519 correctness, which the crate's
/// documentation demonstrates).
#[verifier::external_body]
pub(crate) fn ed25519_verify(pk: &[u8; 32], msg: &[u8], sig: &[u8; 64]) -> (r: bool)
    ensures
        r == spec_ed25519_verifies(pk@, msg@, sig@),
        (exists|seed: Seq<u8>|
            seed.len() == 32 && pk@ == spec_ed25519_public_key(seed) && sig@ == spec_ed25519_sign(
                seed,
                msg@,
            )) ==> r,
{
    match ed25519_dalek::VerifyingKey::from_bytes(pk) {
        Ok(k) => ed25519_dalek::Verifier::verify(
            &k,
            msg,
            &ed25519_dalek::Signature::from_bytes(sig),
        ).is_ok(),
        Err(_) => false,
    }
}

/// Calls `SigningKey::generate(&mut rand::rngs::OsRng).to_bytes()`: a fresh
/// random secret seed. Nothing is claimed of its bytes.
#[verifier::external_body]
pub(crate) fn random_seed() -> (r: [u8; 32]) {
    ed25519_dalek::SigningKey::generate(&mut rand::rngs::OsRng).to_bytes()
}

// ---------------------------------------------------------------------------
// hex
// ---------------------------------------------------------------------------

/// Calls `hex::encode(b)`. Claims what the crate documents: each byte
/// becomes two lowercase hexadecimal digits, high nibble first.
#[verifier::external_body]
pub(crate) fn hex_encode(b: &[u8]) -> (r: String)
    ensures
        r@ == crate::identity::hex_lower(b@),
{
    hex::encode(b)
}

/// The text of the error that `hex::decode(s)` reports for `s`.
pub uninterp spec fn spec_hex_decode_error(s: Seq<char>) -> Seq<char>;

/// Calls `hex::decode(s)`, turning an error into its text. Claims what the
/// crate documents: it succeeds exactly when `s` has an even number of
/// characters, all hexadecimal digits of either case, and then gives the
/// bytes they spell, two digits per byte, high nibble first.
#[verifier::external_body]
pub(crate) fn hex_decode(s: &str) -> (r: Result<Vec<u8>, String>)
    ensures
        match r {
            Ok(b) => crate::identity::hex_spells(s@, b@),
            Err(e) => !crate::identity::is_hex_text(s@) && e@ == spec_hex_decode_error(s@),
        },
{
    match hex::decode(s) {
        Ok(b) => Ok(b),
        Err(e) => Err(e.to_string()),
    }
}

// ---------------------------------------------------------------------------
// serde_json
// ---------------------------------------------------------------------------

/// What reading the JSON text `doc` with `serde_json::from_str::<Value>`
/// and then `.get(key)` and `.as_str()` gives: `Err` with the parse error's
/// message when `doc` is not JSON, otherwise `Ok` of the string member
/// `key` of the top-level object (absent when there is none or it is not a
/// string).
pub uninterp spec fn spec_json_string_member(doc: Seq<char>, key: Seq<char>) -> Result<
    Option<Seq<char>>,
    Seq<char>,
>;

/// Calls `serde_json::from_str::<serde_json::Value>(doc)`, then
/// `.get(key).and_then(Value::as_str)`. Claims only that the result is the
/// named function of its arguments.
#[verifier::external_body]
pub(crate) fn json_string_member(doc: &str, key: &str) -> (r: Result<Option<String>, String>)
    ensures
        match (r, spec_json_string_member(doc@, key@)) {
            (Ok(Some(v)), Ok(Some(w))) => v@ == w,
            (Ok(None), Ok(None)) => true,
            (Err(e), Err(f)) => e@ == f,
            _ => false,
        },
{
    match serde_json::from_str::<serde_json::Value>(doc) {
        Ok(v) => Ok(v.get(key).and_then(|x| x.as_str()).map(|x| x.to_string())),
        Err(e) => Err(e.to_string()),
    }
}

// ---------------------------------------------------------------------------
// reqwest (its re-export of the url crate's `Url`)
// ---------------------------------------------------------------------------

/// The host, path and query of `s` as `reqwest::Url::parse` reads it, or
/// `None` when it does not parse.
pub uninterp spec fn spec_url_parts(s: Seq<char>) -> Option<(Option<Seq<char>>, Seq<char>, Option<Seq<char>>)>;

/// The view of an optional string.
pub open spec fn opt_text(o: Option<String>) -> Option<Seq<char>> {
    match o {
        Some(t) => Some(t@),
        None => None,
    }
}

/// Calls `reqwest::Url::parse(s)` and, when it parses, `host_str`, `path`
/// and `query` of the result. Claims only that the result is the named
/// function of `s`: the URL grammar is not restated here.
#[verifier::external_body]
pub(crate) fn url_parts(s: &str) -> (r: Option<(Option<String>, String, Option<String>)>)
    ensures
        match r {
            Some((h, p, q)) => spec_url_parts(s@) == Some((opt_text(h), p@, opt_text(q))),
            None => spec_url_parts(s@) is None,
        },
{
    let u = match reqwest::Url::parse(s) {
        Ok(u) => u,
        Err(_) => return None,
    };
    let host = match u.host_str() {
        Some(h) => Some(h.to_string()),
        None => None,
    };
    let query = match u.query() {
        Some(q) => Some(q.to_string()),
        None => None,
    };
    Some((host, u.path().to_string(), query))
}

// ---------------------------------------------------------------------------
// urlencoding
// ---------------------------------------------------------------------------

/// Calls `urlencoding::encode(s)`. Claims what its documentation and source
/// state: every UTF-8 byte of `s` except ASCII letters, digits and `-`, `_`,
/// `.`, `~` becomes `%` and two uppercase hex digits; the others stay.
#[verifier::external_body]
pub(crate) fn url_encode(s: &str) -> (r: String)
    ensures
        r@ == crate::text::url_encoded(s@),
{
    urlencoding::encode(s).into_owned()
}

// ---------------------------------------------------------------------------
// regex
// ---------------------------------------------------------------------------

/// Whether `regex::Regex::new(pattern)` compiles (`Some`) and, if so, whether
/// the compiled expression's `is_match(s)` finds a match in `s`.
pub uninterp spec fn spec_regex_is_match(pattern: Seq<char>, s: Seq<char>) -> Option<bool>;

/// Calls `regex::Regex::new(pattern)` and, when it compiles, `is_match(s)`.
/// Claims that the result is the named function of its arguments and, for
/// the extension-name pattern, what the regex syntax documentation gives:
/// it compiles, and `^`/`$` anchor at the ends of the text, so it matches
/// exactly the names `x-` followed by two or more non-empty `[a-z0-9]` runs
/// joined by single dots.
#[verifier::external_body]
pub(crate) fn regex_is_match(pattern: &str, s: &str) -> (r: Option<bool>)
    ensures
        r == spec_regex_is_match(pattern@, s@),
        pattern@ == crate::validation::extension_pattern() ==> r == Some(
            crate::validation::is_extension_name(s@),
        ),
{
    match regex::Regex::new(pattern) {
        Ok(re) => Some(re.is_match(s)),
        Err(_) => None,
    }
}

// ---------------------------------------------------------------------------
// std::fmt
// ---------------------------------------------------------------------------

/// The text that `format!("{:?}", s)` gives for the string `s`: `s` in double
/// quotes with std's debug escapes.
pub uninterp spec fn spec_str_debug(s: Seq<char>) -> Seq<char>;

/// Calls `format!("{:?}", s)`. Claims only that the result is the named
/// function of the input.
#[verifier::external_body]
pub(crate) fn str_debug(s: &str) -> (r: String)
    ensures
        r@ == spec_str_debug(s@),
{
    format!("{:?}", s)
}

// ---------------------------------------------------------------------------
// std::time::Instant
// ---------------------------------------------------------------------------

#[verifier::external_type_specification]
#[verifier::external_body]
pub struct ExInstant(std::time::Instant);

/// Calls `std::time::Instant::now()`. Nothing is claimed of the result.
#[verifier::external_body]
pub(crate) fn instant_now() -> (r: std::time::Instant) {
    std::time::Instant::now()
}

/// Calls `origin.elapsed()` and returns its whole nanoseconds, saturated to
/// `u64`. Nothing is claimed of the result: it depends on the clock.
#[verifier::external_body]
pub(crate) fn nanos_since(origin: &std::time::Instant) -> (r: u64) {
    u64::try_from(origin.elapsed().as_nanos()).unwrap_or(u64::MAX)
}

} // verus!
