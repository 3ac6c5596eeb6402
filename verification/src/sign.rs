//! Request signing: process-wide configuration with layered defaults, the
//! 128-bit hash over `client identifier + word + timestamp + secret`, and the
//! assembly of the ordered POST form fields.

use vstd::prelude::*;

use md5::{Digest, Md5};

verus! {

/// The 16-byte MD5 digest of the given bytes, named: it depends on the input
/// bytes alone.
pub uninterp spec fn md5_of(bytes: Seq<u8>) -> Seq<u8>;

/// Relies on `md5::Md5` of the md-5 crate: `update` then `finalize` produces
/// the 128-bit (16-byte) MD5 digest of the input, a function of the input
/// bytes alone.
#[verifier::external_body]
fn md5_digest(bytes: &[u8]) -> (r: Vec<u8>)
    ensures
        r@ == md5_of(bytes@),
        r@.len() == 16,
{
    let mut hasher = Md5::new();
    hasher.update(bytes);
    hasher.finalize().to_vec()
}

/// Relies on `String::push`: appends the character to the end of the string.
#[verifier::external_body]
pub(crate) fn push_char(s: &mut String, c: char)
    ensures
        final(s)@ == old(s)@.push(c),
{
    s.push(c);
}

/// The lowercase hex character for a value below 16.
pub open spec fn hex_digit(d: int) -> char {
    if d < 10 {
        ((48 + d) as u8) as char
    } else {
        ((87 + d) as u8) as char
    }
}

/// Lowercase hex rendering of a byte string, two digits per byte, no
/// separators.
pub open spec fn hex_of(bytes: Seq<u8>) -> Seq<char>
    decreases bytes.len(),
{
    if bytes.len() == 0 {
        Seq::empty()
    } else {
        hex_of(bytes.drop_last()).push(hex_digit(bytes.last() as int / 16)).push(
            hex_digit(bytes.last() as int % 16),
        )
    }
}

fn to_hex(bytes: &Vec<u8>) -> (r: String)
    ensures
        r@ == hex_of(bytes@),
{
    let mut out = String::new();
    let mut i: usize = 0;
    while i < bytes.len()
        invariant
            i <= bytes@.len(),
            out@ == hex_of(bytes@.take(i as int)),
        decreases bytes@.len() - i,
    {
        let b = bytes[i];
        let hi = b / 16;
        let lo = b % 16;
        let hc: char = (if hi < 10 {
            48 + hi
        } else {
            87 + hi
        }) as char;
        let lc: char = (if lo < 10 {
            48 + lo
        } else {
            87 + lo
        }) as char;
        push_char(&mut out, hc);
        push_char(&mut out, lc);
        i = i + 1;
        proof {
            assert(bytes@.take(i as int).drop_last() =~= bytes@.take(i as int - 1));
            assert(bytes@.take(i as int).last() == bytes@[i as int - 1]);
        }
    }
    proof {
        assert(bytes@.take(bytes@.len() as int) =~= bytes@);
    }
    out
}

/// Lowercase hex MD5 digest of the UTF-8 bytes of a character string.
pub open spec fn md5_hex_of(s: Seq<char>) -> Seq<char> {
    hex_of(md5_of(vstd::utf8::encode_utf8(s)))
}

/// Lowercase hex MD5 digest of the input text.
pub fn md5_hex(input: &str) -> (r: String)
    ensures
        r@ == md5_hex_of(input@),
{
    let digest = md5_digest(input.as_bytes());
    to_hex(&digest)
}

/// The string that is hashed to form the request signature: the client
/// identifier, word, timestamp and secret concatenated with no delimiter.
pub open spec fn sign_input(api: Seq<char>, word: Seq<char>, timestamp: Seq<char>, key: Seq<char>) -> Seq<
    char,
> {
    api + word + timestamp + key
}

/// The request signature: lowercase hex MD5 of the concatenation.
pub open spec fn sign_of(api: Seq<char>, word: Seq<char>, timestamp: Seq<char>, key: Seq<char>) -> Seq<
    char,
> {
    md5_hex_of(sign_input(api, word, timestamp, key))
}

/// Computes the `sign` field for the given identifier, word, timestamp and
/// secret.
pub fn compute_sign(api: &str, word: &str, timestamp: &str, key: &str) -> (r: String)
    ensures
        r@ == sign_of(api@, word@, timestamp@, key@),
{
    let mut joined = String::from_str(api);
    joined.append(word);
    joined.append(timestamp);
    joined.append(key);
    proof {
        assert(joined@ =~= sign_input(api@, word@, timestamp@, key@));
    }
    md5_hex(joined.as_str())
}

/// Law: the signature is deterministic. Recomputing with an identical client
/// identifier, word, timestamp and secret yields an identical hex string.
pub proof fn lemma_sign_deterministic(
    api1: Seq<char>,
    word1: Seq<char>,
    ts1: Seq<char>,
    key1: Seq<char>,
    api2: Seq<char>,
    word2: Seq<char>,
    ts2: Seq<char>,
    key2: Seq<char>,
)
    requires
        api1 == api2,
        word1 == word2,
        ts1 == ts2,
        key1 == key2,
    ensures
        sign_of(api1, word1, ts1, key1) == sign_of(api2, word2, ts2, key2),
{
}

/// Read-only process-wide configuration: the API client identifier and the
/// API secret.
pub struct Config {
    pub api: String,
    pub api_key: String,
}

/// Layered resolution: the primary override wins, then the legacy override,
/// then the built-in default.
pub open spec fn resolved(primary: Option<Seq<char>>, legacy: Option<Seq<char>>, default: Seq<char>) -> Seq<
    char,
> {
    match primary {
        Some(p) => p,
        None => match legacy {
            Some(l) => l,
            None => default,
        },
    }
}

pub open spec fn opt_view(o: Option<String>) -> Option<Seq<char>> {
    match o {
        Some(s) => Some(s@),
        None => None,
    }
}

impl Config {
    /// Builds the configuration from the four optional overrides (primary and
    /// legacy, for the identifier and the secret respectively); an absent
    /// override falls back to the next layer, and absence of all four yields
    /// the built-in defaults.
    pub fn resolve(
        api_primary: Option<String>,
        api_legacy: Option<String>,
        key_primary: Option<String>,
        key_legacy: Option<String>,
    ) -> (r: Config)
        ensures
            r.api@ == resolved(opt_view(api_primary), opt_view(api_legacy), "fanyideskweb"@),
            r.api_key@ == resolved(
                opt_view(key_primary),
                opt_view(key_legacy),
                "Ygy_4c=r#e#4EX^NUGUc5"@,
            ),
    {
        let api = match api_primary {
            Some(s) => s,
            None => match api_legacy {
                Some(s) => s,
                None => String::from_str("fanyideskweb"),
            },
        };
        let api_key = match key_primary {
            Some(s) => s,
            None => match key_legacy {
                Some(s) => s,
                None => String::from_str("Ygy_4c=r#e#4EX^NUGUc5"),
            },
        };
        Config { api, api_key }
    }
}

/// The fixed `bv` field: lowercase hex MD5 of the constant browser version
/// string.
pub fn browser_version() -> (r: String)
    ensures
        r@ == md5_hex_of("5.0 (X11)"@),
{
    md5_hex("5.0 (X11)")
}

fn pair(k: &str, v: String) -> (r: (String, String))
    ensures
        r.0@ == k@,
        r.1 == v,
{
    (String::from_str(k), v)
}

/// Assembles the ordered POST form fields for a lookup: the word, the fixed
/// locale and protocol markers, the client identifier, the browser-version
/// hash, the timestamp (as both `lts` and `salt`) and the signature.
pub fn build_params(word: &str, cfg: &Config, timestamp: &str) -> (r: Vec<(String, String)>)
    ensures
        r@.len() == 13,
        r@[0].0@ == "i"@ && r@[0].1@ == word@,
        r@[1].0@ == "from"@ && r@[1].1@ == "AUTO"@,
        r@[2].0@ == "to"@ && r@[2].1@ == "AUTO"@,
        r@[3].0@ == "smartresult"@ && r@[3].1@ == "dict"@,
        r@[4].0@ == "client"@ && r@[4].1@ == cfg.api@,
        r@[5].0@ == "doctype"@ && r@[5].1@ == "json"@,
        r@[6].0@ == "version"@ && r@[6].1@ == "2.1"@,
        r@[7].0@ == "keyfrom"@ && r@[7].1@ == "fanyi.web"@,
        r@[8].0@ == "action"@ && r@[8].1@ == "FY_BY_DEFAULT"@,
        r@[9].0@ == "bv"@ && r@[9].1@ == md5_hex_of("5.0 (X11)"@),
        r@[10].0@ == "lts"@ && r@[10].1@ == timestamp@,
        r@[11].0@ == "salt"@ && r@[11].1@ == timestamp@,
        r@[12].0@ == "sign"@ && r@[12].1@ == sign_of(cfg.api@, word@, timestamp@, cfg.api_key@),
{
    let mut params: Vec<(String, String)> = Vec::new();
    params.push(pair("i", String::from_str(word)));
    params.push(pair("from", String::from_str("AUTO")));
    params.push(pair("to", String::from_str("AUTO")));
    params.push(pair("smartresult", String::from_str("dict")));
    params.push(pair("client", cfg.api.clone()));
    params.push(pair("doctype", String::from_str("json")));
    params.push(pair("version", String::from_str("2.1")));
    params.push(pair("keyfrom", String::from_str("fanyi.web")));
    params.push(pair("action", String::from_str("FY_BY_DEFAULT")));
    params.push(pair("bv", browser_version()));
    params.push(pair("lts", String::from_str(timestamp)));
    params.push(pair("salt", String::from_str(timestamp)));
    params.push(pair("sign", compute_sign(cfg.api.as_str(), word, timestamp, cfg.api_key.as_str())));
    params
}

} // verus!
