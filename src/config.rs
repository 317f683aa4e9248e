//! Startup configuration, as plain values. Reading and writing the file is the
//! server layer's part.
use vstd::prelude::*;
use vstd::string::*;

verus! {

/// The gateway's configuration.
pub struct Config {
    /// Whether to serve over TLS.
    pub tls: bool,
    /// Path of the TLS certificate.
    pub tls_cert: String,
    /// Path of the TLS private key.
    pub tls_key: String,
    /// The address to listen on, such as `0.0.0.0:10010`.
    pub listening: String,
    /// The bearer credential.
    pub token: String,
    /// An outbound HTTP proxy; empty for none.
    pub http_proxy: String,
    /// Whether to accept any TLS certificate from the origin.
    pub insecure_skip_verify: bool,
}

pub open spec fn default_listening_spec() -> Seq<char> {
    "0.0.0.0:10010"@
}

/// The listening address used when none is configured.
pub fn default_listening() -> (r: String)
    ensures
        r@ == default_listening_spec(),
{
    String::from_str("0.0.0.0:10010")
}

/// A lower-case hexadecimal digit.
pub open spec fn lower_hex(d: int) -> char {
    if d < 10 {
        ((48 + d) as u8) as char
    } else {
        ((87 + d) as u8) as char
    }
}

/// Two lower-case hexadecimal digits per byte, high digit first.
pub open spec fn hex_of(b: Seq<u8>) -> Seq<char>
    decreases b.len(),
{
    if b.len() == 0 {
        Seq::empty()
    } else {
        hex_of(b.drop_last()) + seq![lower_hex(b.last() as int / 16), lower_hex(b.last() as int % 16)]
    }
}

/// The 16 bytes with the version-4 and RFC 4122 variant bits set: the high
/// nibble of byte 6 becomes 4, and the two high bits of byte 8 become `10`.
pub open spec fn v4_bytes(b: Seq<u8>) -> Seq<u8> {
    b.update(6, (b[6] % 16 + 64) as u8).update(8, (b[8] % 64 + 128) as u8)
}

/// The hyphenated text of the version-4 UUID made of the 16 bytes `b`:
/// 8-4-4-4-12 lower-case hexadecimal digits.
pub open spec fn uuid_text_of(b: Seq<u8>) -> Seq<char> {
    let x = hex_of(v4_bytes(b));
    x.subrange(0, 8) + seq!['-'] + x.subrange(8, 12) + seq!['-'] + x.subrange(12, 16) + seq!['-']
        + x.subrange(16, 20) + seq!['-'] + x.subrange(20, 32)
}

/// Relies on `uuid::Builder::from_random_bytes` and the hyphenated `Display` of
/// `uuid::Uuid`: the version-4 UUID made of 16 random bytes, as 8-4-4-4-12
/// lower-case hexadecimal digits.
#[verifier::external_body]
pub(crate) fn token_from_bytes(random_bytes: [u8; 16]) -> (r: String)
    ensures
        r@ == uuid_text_of(random_bytes@),
{
    uuid::Builder::from_random_bytes(random_bytes).into_uuid().to_string()
}

impl Config {
    /// The default configuration, with a credential made of 16 random bytes
    /// drawn by the caller.
    pub fn default_with(random_bytes: [u8; 16]) -> (r: Self)
        ensures
            !r.tls,
            r.tls_cert@.len() == 0,
            r.tls_key@.len() == 0,
            r.listening@ == default_listening_spec(),
            r.token@ == uuid_text_of(random_bytes@),
            r.http_proxy@.len() == 0,
            r.insecure_skip_verify,
    {
        Config {
            tls: false,
            tls_cert: String::new(),
            tls_key: String::new(),
            listening: default_listening(),
            token: token_from_bytes(random_bytes),
            http_proxy: String::new(),
            insecure_skip_verify: true,
        }
    }

    /// The configuration written out as a template when none exists: the
    /// defaults, with a credential made of 16 random bytes drawn by the caller.
    pub fn create_template(random_bytes: [u8; 16]) -> (r: Config)
        ensures
            !r.tls,
            r.tls_cert@.len() == 0,
            r.tls_key@.len() == 0,
            r.listening@ == default_listening_spec(),
            r.token@ == uuid_text_of(random_bytes@),
            r.http_proxy@.len() == 0,
            r.insecure_skip_verify,
    {
        Config::default_with(random_bytes)
    }
}

} // verus!
