//! Service settings read from environment variables.
use vstd::prelude::*;
use crate::decimal::{parse_unsigned, parse_unsigned_chars, IntErrorKind};
use crate::strmap::StringMap;
use crate::text::{
    ascii_lower_seq, ascii_lowercase, chars_eq, chars_of, push_str, starts_with_chars,
    string_from_chars, sub_chars,
};

verus! {

/// The service's settings.
#[derive(Clone, Debug)]
pub struct Config {
    pub port: u16,
    pub storage_enabled: bool,
    pub scheme: String,
    pub opendal_opts: StringMap,
    pub public_base_url: String,
    pub signing_key: Vec<u8>,
    pub url_ttl_secs: u64,
    pub max_body_bytes: usize,
    pub max_html_bytes: usize,
    pub max_image_pages: usize,
    pub rate_limit_per_min: u32,
    pub max_concurrent_renders: usize,
}

/// A setting that could not be read; its message names the variable.
#[derive(Debug, Clone, PartialEq, Eq)]
pub struct ConfigError {
    message: String,
}

impl View for ConfigError {
    type V = Seq<char>;

    closed spec fn view(&self) -> Seq<char> {
        self.message@
    }
}

impl ConfigError {
    fn new(message: String) -> (e: Self)
        ensures
            e@ == message@,
    {
        ConfigError { message }
    }

    /// The message.
    pub fn to_string(&self) -> (s: String)
        ensures
            s@ == self@,
    {
        self.message.clone()
    }
}

// ---------------------------------------------------------------------------
// What each setting is.
// ---------------------------------------------------------------------------

/// The `Display` text of `std::num::ParseIntError` for each kind.
pub open spec fn int_error_text(kind: IntErrorKind) -> Seq<char> {
    match kind {
        IntErrorKind::Empty => "cannot parse integer from empty string"@,
        IntErrorKind::InvalidDigit => "invalid digit found in string"@,
        IntErrorKind::PosOverflow => "number too large to fit in target type"@,
    }
}

/// A numeric variable: its value read as a `u64`, or `default` when it is unset.
pub open spec fn env_number(m: Map<Seq<char>, Seq<char>>, key: Seq<char>, default: u64) -> Result<u64, Seq<char>> {
    if m.contains_key(key) {
        match parse_unsigned(m[key], u64::MAX as nat) {
            Ok(n) => Ok(n as u64),
            Err(kind) => Err(key + " has invalid value '"@ + m[key] + "': "@ + int_error_text(kind)),
        }
    } else {
        Ok(default)
    }
}

pub open spec fn u16_setting(m: Map<Seq<char>, Seq<char>>, key: Seq<char>, default: u64) -> Result<u16, Seq<char>> {
    match env_number(m, key, default) {
        Err(e) => Err(e),
        Ok(v) => if v > u16::MAX {
            Err(key + " must be <= 65535"@)
        } else {
            Ok(v as u16)
        },
    }
}

pub open spec fn nonzero_u32_setting(m: Map<Seq<char>, Seq<char>>, key: Seq<char>, default: u64) -> Result<u32, Seq<char>> {
    match env_number(m, key, default) {
        Err(e) => Err(e),
        Ok(v) => if v > u32::MAX {
            Err(key + " must be <= 4294967295"@)
        } else if v == 0 {
            Err(key + " must be greater than 0"@)
        } else {
            Ok(v as u32)
        },
    }
}

pub open spec fn usize_setting(m: Map<Seq<char>, Seq<char>>, key: Seq<char>, default: u64) -> Result<usize, Seq<char>> {
    match env_number(m, key, default) {
        Err(e) => Err(e),
        Ok(v) => if v > usize::MAX {
            Err(key + " is too large"@)
        } else {
            Ok(v as usize)
        },
    }
}

pub open spec fn nonzero_usize_setting(m: Map<Seq<char>, Seq<char>>, key: Seq<char>, default: u64) -> Result<usize, Seq<char>> {
    match usize_setting(m, key, default) {
        Err(e) => Err(e),
        Ok(v) => if v == 0 {
            Err(key + " must be greater than 0"@)
        } else {
            Ok(v)
        },
    }
}

/// The signed-link lifetime: from one second to seven days.
pub open spec fn ttl_setting(m: Map<Seq<char>, Seq<char>>) -> Result<u64, Seq<char>> {
    match env_number(m, "URL_TTL_SECS"@, 3600) {
        Err(e) => Err(e),
        Ok(v) => if v < 1 || v > 604800 {
            Err("URL_TTL_SECS must be between 1 and 604800"@)
        } else {
            Ok(v)
        },
    }
}

pub open spec fn storage_enabled_spec(m: Map<Seq<char>, Seq<char>>) -> bool {
    m.contains_key("STORAGE_ENABLED"@) && m["STORAGE_ENABLED"@] == "true"@
}

pub open spec fn string_setting(m: Map<Seq<char>, Seq<char>>, key: Seq<char>, default: Seq<char>) -> Seq<char> {
    if m.contains_key(key) {
        m[key]
    } else {
        default
    }
}

pub open spec fn scheme_spec(m: Map<Seq<char>, Seq<char>>) -> Seq<char> {
    string_setting(m, "OPENDAL_SCHEME"@, "fs"@)
}

/// Local-disk storage signs its own links, so it needs a key that survives restarts.
pub open spec fn missing_signing_key(m: Map<Seq<char>, Seq<char>>) -> bool {
    storage_enabled_spec(m) && scheme_spec(m) == "fs"@ && !m.contains_key("SIGNING_KEY"@)
}

/// The first setting that cannot be read, in the order `PORT`, `URL_TTL_SECS`,
/// `MAX_BODY_BYTES`, `MAX_HTML_BYTES`, `MAX_IMAGE_PAGES`, `RATE_LIMIT_PER_MIN`,
/// `MAX_CONCURRENT_RENDERS`, then a missing `SIGNING_KEY`.
pub open spec fn config_error(m: Map<Seq<char>, Seq<char>>) -> Option<Seq<char>> {
    if let Err(e) = u16_setting(m, "PORT"@, 3000) {
        Some(e)
    } else if let Err(e) = ttl_setting(m) {
        Some(e)
    } else if let Err(e) = usize_setting(m, "MAX_BODY_BYTES"@, 8388608) {
        Some(e)
    } else if let Err(e) = usize_setting(m, "MAX_HTML_BYTES"@, 2097152) {
        Some(e)
    } else if let Err(e) = nonzero_usize_setting(m, "MAX_IMAGE_PAGES"@, 10) {
        Some(e)
    } else if let Err(e) = nonzero_u32_setting(m, "RATE_LIMIT_PER_MIN"@, 60) {
        Some(e)
    } else if let Err(e) = nonzero_usize_setting(m, "MAX_CONCURRENT_RENDERS"@, 4) {
        Some(e)
    } else if missing_signing_key(m) {
        Some("SIGNING_KEY is required when fs storage is enabled"@)
    } else {
        None
    }
}

/// The storage option an `OPENDAL_*` variable sets: the rest of its name in ASCII lower
/// case, except `scheme`.
pub open spec fn opendal_key(name: Seq<char>) -> Option<Seq<char>> {
    let p = "OPENDAL_"@;
    if name.len() >= p.len() && name.take(p.len() as int) == p {
        let rest = ascii_lower_seq(name.skip(p.len() as int));
        if rest == "scheme"@ {
            None
        } else {
            Some(rest)
        }
    } else {
        None
    }
}

/// `opts` holds exactly the storage options the variables set; where two variables
/// name the same option, the value is one of theirs.
pub open spec fn opendal_opts_of(m: Map<Seq<char>, Seq<char>>, opts: Map<Seq<char>, Seq<char>>) -> bool {
    &&& forall|k: Seq<char>|
        #[trigger] opts.contains_key(k) <==> exists|name: Seq<char>|
            m.contains_key(name) && opendal_key(name) == Some(k)
    &&& forall|k: Seq<char>|
        #[trigger] opts.contains_key(k) ==> exists|name: Seq<char>|
            m.contains_key(name) && opendal_key(name) == Some(k) && opts[k] == m[name]
}

/// The storage options are read from the `OPENDAL_*` variables: each such variable
/// (other than `OPENDAL_SCHEME`) gives the option named by the rest of its name in ASCII
/// lower case; every option comes from such a variable and holds that variable's value;
/// there is no `scheme` option.
pub proof fn lemma_storage_options_follow_variables(m: Map<Seq<char>, Seq<char>>, c: Config, r: Seq<char>)
    requires
        config_matches(m, c),
    ensures
        m.contains_key("OPENDAL_"@ + r) && ascii_lower_seq(r) != "scheme"@
            ==> c.opendal_opts@.contains_key(ascii_lower_seq(r)),
        forall|k: Seq<char>|
            #[trigger] c.opendal_opts@.contains_key(k) ==> exists|rr: Seq<char>|
                m.contains_key("OPENDAL_"@ + rr) && ascii_lower_seq(rr) == k
                    && c.opendal_opts@[k] == m["OPENDAL_"@ + rr],
        !c.opendal_opts@.contains_key("scheme"@),
{
    reveal_strlit("OPENDAL_");
    let p = "OPENDAL_"@;
    let opts = c.opendal_opts@;
    let name = p + r;
    assert(name.take(p.len() as int) == p);
    assert(name.skip(p.len() as int) == r);
    if m.contains_key(name) && ascii_lower_seq(r) != "scheme"@ {
        assert(opendal_key(name) == Some(ascii_lower_seq(r)));
        assert(opts.contains_key(ascii_lower_seq(r)));
    }
    assert forall|k: Seq<char>| #[trigger] opts.contains_key(k) implies exists|rr: Seq<char>|
        m.contains_key("OPENDAL_"@ + rr) && ascii_lower_seq(rr) == k && opts[k] == m["OPENDAL_"@ + rr] by {
        let nm = choose|nm: Seq<char>| m.contains_key(nm) && opendal_key(nm) == Some(k) && opts[k] == m[nm];
        let rr = nm.skip(p.len() as int);
        assert(nm == p + rr);
    }
    if opts.contains_key("scheme"@) {
        let nm = choose|nm: Seq<char>| m.contains_key(nm) && opendal_key(nm) == Some("scheme"@);
        assert(opendal_key(nm) == Some("scheme"@));
    }
}

/// What a setting is read from: a variable that is set gives the setting its own value
/// (text as it is; a number as its decimal reading), and a default applies only to a
/// variable that is unset; the link lifetime lies in one second to seven days, and the
/// page, rate and render limits are positive.
pub proof fn lemma_settings_follow_variables(m: Map<Seq<char>, Seq<char>>, c: Config)
    requires
        config_matches(m, c),
    ensures
        m.contains_key("PUBLIC_BASE_URL"@) ==> c.public_base_url@ == m["PUBLIC_BASE_URL"@],
        !m.contains_key("PUBLIC_BASE_URL"@) ==> c.public_base_url@ == "http://localhost:3000"@,
        m.contains_key("OPENDAL_SCHEME"@) ==> c.scheme@ == m["OPENDAL_SCHEME"@],
        !m.contains_key("OPENDAL_SCHEME"@) ==> c.scheme@ == "fs"@,
        c.storage_enabled <==> (m.contains_key("STORAGE_ENABLED"@) && m["STORAGE_ENABLED"@] == "true"@),
        m.contains_key("PORT"@) ==> parse_unsigned(m["PORT"@], u64::MAX as nat) == Ok::<nat, IntErrorKind>(
            c.port as nat,
        ),
        !m.contains_key("PORT"@) ==> c.port == 3000,
        m.contains_key("URL_TTL_SECS"@) ==> parse_unsigned(m["URL_TTL_SECS"@], u64::MAX as nat)
            == Ok::<nat, IntErrorKind>(c.url_ttl_secs as nat),
        !m.contains_key("URL_TTL_SECS"@) ==> c.url_ttl_secs == 3600,
        1 <= c.url_ttl_secs <= 604800,
        m.contains_key("MAX_BODY_BYTES"@) ==> parse_unsigned(m["MAX_BODY_BYTES"@], u64::MAX as nat)
            == Ok::<nat, IntErrorKind>(c.max_body_bytes as nat),
        !m.contains_key("MAX_BODY_BYTES"@) ==> c.max_body_bytes == 8388608,
        m.contains_key("MAX_HTML_BYTES"@) ==> parse_unsigned(m["MAX_HTML_BYTES"@], u64::MAX as nat)
            == Ok::<nat, IntErrorKind>(c.max_html_bytes as nat),
        !m.contains_key("MAX_HTML_BYTES"@) ==> c.max_html_bytes == 2097152,
        m.contains_key("MAX_IMAGE_PAGES"@) ==> parse_unsigned(m["MAX_IMAGE_PAGES"@], u64::MAX as nat)
            == Ok::<nat, IntErrorKind>(c.max_image_pages as nat),
        !m.contains_key("MAX_IMAGE_PAGES"@) ==> c.max_image_pages == 10,
        m.contains_key("RATE_LIMIT_PER_MIN"@) ==> parse_unsigned(
            m["RATE_LIMIT_PER_MIN"@],
            u64::MAX as nat,
        ) == Ok::<nat, IntErrorKind>(c.rate_limit_per_min as nat),
        !m.contains_key("RATE_LIMIT_PER_MIN"@) ==> c.rate_limit_per_min == 60,
        m.contains_key("MAX_CONCURRENT_RENDERS"@) ==> parse_unsigned(
            m["MAX_CONCURRENT_RENDERS"@],
            u64::MAX as nat,
        ) == Ok::<nat, IntErrorKind>(c.max_concurrent_renders as nat),
        !m.contains_key("MAX_CONCURRENT_RENDERS"@) ==> c.max_concurrent_renders == 4,
        c.max_image_pages > 0,
        c.rate_limit_per_min > 0,
        c.max_concurrent_renders > 0,
        m.contains_key("SIGNING_KEY"@) ==> c.signing_key@ == vstd::utf8::encode_utf8(m["SIGNING_KEY"@]),
{
    crate::decimal::lemma_parse_unsigned_bounded(m["PORT"@], u64::MAX as nat);
    crate::decimal::lemma_parse_unsigned_bounded(m["URL_TTL_SECS"@], u64::MAX as nat);
    crate::decimal::lemma_parse_unsigned_bounded(m["MAX_BODY_BYTES"@], u64::MAX as nat);
    crate::decimal::lemma_parse_unsigned_bounded(m["MAX_HTML_BYTES"@], u64::MAX as nat);
    crate::decimal::lemma_parse_unsigned_bounded(m["MAX_IMAGE_PAGES"@], u64::MAX as nat);
    crate::decimal::lemma_parse_unsigned_bounded(m["RATE_LIMIT_PER_MIN"@], u64::MAX as nat);
    crate::decimal::lemma_parse_unsigned_bounded(m["MAX_CONCURRENT_RENDERS"@], u64::MAX as nat);
}

/// Whether `c` holds the settings the variables `m` give. The signing key is the bytes
/// of `SIGNING_KEY`, or 16 random bytes when it is unset.
pub open spec fn config_matches(m: Map<Seq<char>, Seq<char>>, c: Config) -> bool {
    &&& u16_setting(m, "PORT"@, 3000) == Ok::<u16, Seq<char>>(c.port)
    &&& c.storage_enabled == storage_enabled_spec(m)
    &&& c.scheme@ == scheme_spec(m)
    &&& opendal_opts_of(m, c.opendal_opts@)
    &&& c.public_base_url@ == string_setting(m, "PUBLIC_BASE_URL"@, "http://localhost:3000"@)
    &&& (m.contains_key("SIGNING_KEY"@) ==> c.signing_key@ == vstd::utf8::encode_utf8(m["SIGNING_KEY"@]))
    &&& (!m.contains_key("SIGNING_KEY"@) ==> c.signing_key@.len() == 16)
    &&& ttl_setting(m) == Ok::<u64, Seq<char>>(c.url_ttl_secs)
    &&& usize_setting(m, "MAX_BODY_BYTES"@, 8388608) == Ok::<usize, Seq<char>>(c.max_body_bytes)
    &&& usize_setting(m, "MAX_HTML_BYTES"@, 2097152) == Ok::<usize, Seq<char>>(c.max_html_bytes)
    &&& nonzero_usize_setting(m, "MAX_IMAGE_PAGES"@, 10) == Ok::<usize, Seq<char>>(c.max_image_pages)
    &&& nonzero_u32_setting(m, "RATE_LIMIT_PER_MIN"@, 60) == Ok::<u32, Seq<char>>(c.rate_limit_per_min)
    &&& nonzero_usize_setting(m, "MAX_CONCURRENT_RENDERS"@, 4) == Ok::<usize, Seq<char>>(
        c.max_concurrent_renders,
    )
}

} // verus!

verus! {

/// Sixteen random bytes (`uuid::Uuid::new_v4().as_bytes()`).
/// Trusted: a version-4 UUID is 16 bytes, of which the version and variant bits are
/// fixed and the rest come from the operating system's random source (`new_v4` panics
/// if that source fails; nothing here can rule that out).
#[verifier::external_body]
fn random_uuid_bytes() -> (b: Vec<u8>)
    ensures
        b@.len() == 16,
{
    uuid::Uuid::new_v4().as_bytes().to_vec()
}

fn int_error_message(kind: IntErrorKind) -> (s: &'static str)
    ensures
        s@ == int_error_text(kind),
{
    match kind {
        IntErrorKind::Empty => "cannot parse integer from empty string",
        IntErrorKind::InvalidDigit => "invalid digit found in string",
        IntErrorKind::PosOverflow => "number too large to fit in target type",
    }
}

fn key_message(key: &str, suffix: &str) -> (e: ConfigError)
    ensures
        e@ == key@ + suffix@,
{
    let mut m: Vec<char> = Vec::new();
    push_str(&mut m, key);
    push_str(&mut m, suffix);
    ConfigError::new(string_from_chars(&m))
}

/// Reads a numeric variable, or `default` when it is unset.
fn parse_env(map: &StringMap, key: &str, default: u64) -> (r: Result<u64, ConfigError>)
    ensures
        match (r, env_number(map@, key@, default)) {
            (Ok(a), Ok(b)) => a == b,
            (Err(e), Err(f)) => e@ == f,
            _ => false,
        },
{
    match map.get(key) {
        None => Ok(default),
        Some(value) => {
            let v = chars_of(value.as_str());
            assert(v@.subrange(0, v@.len() as int) == v@);
            match parse_unsigned_chars(&v, 0, v.len(), u64::MAX) {
                Ok(n) => Ok(n),
                Err(kind) => {
                    let mut m: Vec<char> = Vec::new();
                    push_str(&mut m, key);
                    push_str(&mut m, " has invalid value '");
                    push_str(&mut m, value.as_str());
                    push_str(&mut m, "': ");
                    push_str(&mut m, int_error_message(kind));
                    Err(ConfigError::new(string_from_chars(&m)))
                },
            }
        },
    }
}

fn checked_u16(value: u64, key: &str) -> (r: Result<u16, ConfigError>)
    ensures
        value <= u16::MAX ==> r == Ok::<u16, ConfigError>(value as u16),
        value > u16::MAX ==> (r matches Err(e) && e@ == key@ + " must be <= 65535"@),
{
    if value > 65535 {
        return Err(key_message(key, " must be <= 65535"));
    }
    Ok(value as u16)
}

fn checked_nonzero_u32(value: u64, key: &str) -> (r: Result<u32, ConfigError>)
    ensures
        0 < value <= u32::MAX ==> r == Ok::<u32, ConfigError>(value as u32),
        value > u32::MAX ==> (r matches Err(e) && e@ == key@ + " must be <= 4294967295"@),
        value == 0 ==> (r matches Err(e) && e@ == key@ + " must be greater than 0"@),
{
    if value > 4294967295 {
        return Err(key_message(key, " must be <= 4294967295"));
    }
    if value == 0 {
        return Err(key_message(key, " must be greater than 0"));
    }
    Ok(value as u32)
}

fn checked_usize(value: u64, key: &str) -> (r: Result<usize, ConfigError>)
    ensures
        value <= usize::MAX ==> r == Ok::<usize, ConfigError>(value as usize),
        value > usize::MAX ==> (r matches Err(e) && e@ == key@ + " is too large"@),
{
    if value > usize::MAX as u64 {
        return Err(key_message(key, " is too large"));
    }
    Ok(value as usize)
}

fn checked_nonzero_usize(value: u64, key: &str) -> (r: Result<usize, ConfigError>)
    ensures
        0 < value <= usize::MAX ==> r == Ok::<usize, ConfigError>(value as usize),
        value > usize::MAX ==> (r matches Err(e) && e@ == key@ + " is too large"@),
        value == 0 ==> (r matches Err(e) && e@ == key@ + " must be greater than 0"@),
{
    let v = checked_usize(value, key)?;
    if v == 0 {
        return Err(key_message(key, " must be greater than 0"));
    }
    Ok(v)
}

fn checked_ttl(value: u64) -> (r: Result<u64, ConfigError>)
    ensures
        1 <= value <= 604800 ==> r == Ok::<u64, ConfigError>(value),
        !(1 <= value <= 604800) ==> (r matches Err(e) && e@ == "URL_TTL_SECS must be between 1 and 604800"@),
{
    if value < 1 || value > 604800 {
        return Err(ConfigError::new(String::from_str("URL_TTL_SECS must be between 1 and 604800")));
    }
    Ok(value)
}

/// A string variable, or `default` when it is unset.
fn string_env(map: &StringMap, key: &str, default: &str) -> (s: String)
    ensures
        s@ == string_setting(map@, key@, default@),
{
    match map.get(key) {
        Some(v) => v.clone(),
        None => String::from_str(default),
    }
}

/// The storage options named by `OPENDAL_*` variables.
fn opendal_options(map: &StringMap) -> (opts: StringMap)
    ensures
        opendal_opts_of(map@, opts@),
{
    let prefix = chars_of("OPENDAL_");
    let scheme = chars_of("scheme");
    let mut opts = StringMap::new();
    let n = map.len();
    let mut i: usize = 0;
    while i < n
        invariant
            n == map.entries_view().len(),
            i <= n,
            prefix@ == "OPENDAL_"@,
            scheme@ == "scheme"@,
            forall|k: Seq<char>|
                #[trigger] opts@.contains_key(k) ==> exists|j: int|
                    0 <= j < i && opendal_key(map.entries_view()[j].0) == Some(k) && opts@[k]
                        == map.entries_view()[j].1,
            forall|j: int|
                0 <= j < i && (#[trigger] opendal_key(map.entries_view()[j].0)) is Some
                    ==> opts@.contains_key(opendal_key(map.entries_view()[j].0)->0),
            forall|j: int|
                0 <= j < i ==> map@.contains_key(#[trigger] map.entries_view()[j].0) && map@[map.entries_view()[j].0]
                    == map.entries_view()[j].1,
        decreases n - i,
    {
        let (name, value) = map.entry(i);
        let nc = chars_of(name.as_str());
        if starts_with_chars(&nc, &prefix) {
            let rest = sub_chars(&nc, prefix.len(), nc.len());
            let key = ascii_lowercase(&rest);
            assert(nc@.skip(prefix@.len() as int) == rest@);
            if !chars_eq(&key, &scheme) {
                let ghost before = opts@;
                let _ = opts.insert(string_from_chars(&key), value.clone());
                assert(opendal_key(map.entries_view()[i as int].0) == Some(key@));
                assert forall|k: Seq<char>| #[trigger] opts@.contains_key(k) implies exists|j: int|
                    0 <= j < i + 1 && opendal_key(map.entries_view()[j].0) == Some(k) && opts@[k]
                        == map.entries_view()[j].1 by {
                    if k != key@ {
                        assert(before.contains_key(k));
                    }
                }
            }
        }
        i = i + 1;
    }
    proof {
        assert forall|k: Seq<char>|
            #[trigger] opts@.contains_key(k) <==> exists|name: Seq<char>|
                map@.contains_key(name) && opendal_key(name) == Some(k) by {
            if opts@.contains_key(k) {
                let j = choose|j: int|
                    0 <= j < n && opendal_key(map.entries_view()[j].0) == Some(k) && opts@[k]
                        == map.entries_view()[j].1;
            }
            if exists|name: Seq<char>| map@.contains_key(name) && opendal_key(name) == Some(k) {
                let name = choose|name: Seq<char>| map@.contains_key(name) && opendal_key(name) == Some(k);
                map.lemma_key_has_entry(name);
                let j = choose|j: int| map.has_key_at(name, j);
                assert(opendal_key(map.entries_view()[j].0) is Some);
            }
        }
        assert forall|k: Seq<char>|
            #[trigger] opts@.contains_key(k) implies exists|name: Seq<char>|
                map@.contains_key(name) && opendal_key(name) == Some(k) && opts@[k] == map@[name] by {
            let j = choose|j: int|
                0 <= j < n && opendal_key(map.entries_view()[j].0) == Some(k) && opts@[k]
                    == map.entries_view()[j].1;
            let name = map.entries_view()[j].0;
            assert(map@.contains_key(name) && opendal_key(name) == Some(k) && opts@[k] == map@[name]);
        }
    }
    opts
}

impl Config {
    /// Reads the settings from the variables in `map`; every numeric setting must parse
    /// and lie in its range.
    pub fn try_from_map(map: &StringMap) -> (r: Result<Config, ConfigError>)
        ensures
            match r {
                Ok(c) => config_error(map@) is None && config_matches(map@, c),
                Err(e) => config_error(map@) == Some(e@),
            },
    {
        let opendal_opts = opendal_options(map);
        let signing_key = match map.get("SIGNING_KEY") {
            Some(s) => vstd::slice::slice_to_vec(s.as_str().as_bytes()),
            None => random_uuid_bytes(),
        };
        let port = checked_u16(parse_env(map, "PORT", 3000)?, "PORT")?;
        let storage_enabled = match map.get("STORAGE_ENABLED") {
            Some(v) => {
                let a = chars_of(v.as_str());
                let t = chars_of("true");
                chars_eq(&a, &t)
            },
            None => false,
        };
        let scheme = string_env(map, "OPENDAL_SCHEME", "fs");
        let public_base_url = string_env(map, "PUBLIC_BASE_URL", "http://localhost:3000");
        let url_ttl_secs = checked_ttl(parse_env(map, "URL_TTL_SECS", 3600)?)?;
        let max_body_bytes = checked_usize(parse_env(map, "MAX_BODY_BYTES", 8388608)?, "MAX_BODY_BYTES")?;
        let max_html_bytes = checked_usize(parse_env(map, "MAX_HTML_BYTES", 2097152)?, "MAX_HTML_BYTES")?;
        let max_image_pages = checked_nonzero_usize(parse_env(map, "MAX_IMAGE_PAGES", 10)?, "MAX_IMAGE_PAGES")?;
        let rate_limit_per_min = checked_nonzero_u32(parse_env(map, "RATE_LIMIT_PER_MIN", 60)?, "RATE_LIMIT_PER_MIN")?;
        let max_concurrent_renders = checked_nonzero_usize(
            parse_env(map, "MAX_CONCURRENT_RENDERS", 4)?,
            "MAX_CONCURRENT_RENDERS",
        )?;
        if storage_enabled && crate::services::storage::is_fs_scheme(scheme.as_str())
            && map.get("SIGNING_KEY").is_none() {
            return Err(ConfigError::new(String::from_str("SIGNING_KEY is required when fs storage is enabled")));
        }
        Ok(Config {
            port,
            storage_enabled,
            scheme,
            opendal_opts,
            public_base_url,
            signing_key,
            url_ttl_secs,
            max_body_bytes,
            max_html_bytes,
            max_image_pages,
            rate_limit_per_min,
            max_concurrent_renders,
        })
    }

    /// Reads the settings from the variables in `map`, which must all be valid.
    pub fn from_map(map: &StringMap) -> (c: Config)
        requires
            config_error(map@) is None,
        ensures
            config_matches(map@, c),
    {
        Config::try_from_map(map).expect("invalid config")
    }
}

} // verus!
