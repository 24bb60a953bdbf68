//! Settings: the emulated device, storefront and language choices, the API
//! token, decrypt worker counts, and the build version.
use vstd::prelude::*;

use crate::text::{
    split_chars, split_on,
    ascii_lower, chars_range, chars_to_string, decimal, lower_chars, push_decimal, push_str,
    owned, str_chars, trim, trim_chars,
};

verus! {

/// The identity of the emulated Android device.
#[derive(Clone, Debug)]
pub struct DeviceInfo {
    pub client_identifier: String,
    pub version_identifier: String,
    pub platform_identifier: String,
    pub product_version: String,
    pub device_model: String,
    pub build_version: String,
    pub locale_identifier: String,
    pub language_identifier: String,
    pub android_id: String,
}

/// What the native platform is started with; paths as text.
#[derive(Clone, Debug)]
pub struct NativePlatformConfig {
    pub proxy: Option<String>,
    pub base_dir: String,
    pub library_dir: String,
    pub device_info: DeviceInfo,
}

/// What downloads are made with; paths as text.
#[derive(Clone, Debug)]
pub struct DownloadConfig {
    pub proxy: Option<String>,
    pub cache_dir: String,
}

/// Why a device description is refused.
#[derive(Debug)]
pub enum DeviceInfoError {
    /// The description does not have nine fields; the message says how many.
    InvalidDeviceInfo(String),
}

impl DeviceInfo {
    /// Reads the nine `/`-separated fields of a device description.
    pub fn parse(value: &str) -> (r: Result<Self, DeviceInfoError>)
        ensures
            split_on(value@, '/').len() == 9 ==> (r matches Ok(d) && ({
                let f = split_on(value@, '/');
                &&& d.client_identifier@ == f[0]
                &&& d.version_identifier@ == f[1]
                &&& d.platform_identifier@ == f[2]
                &&& d.product_version@ == f[3]
                &&& d.device_model@ == f[4]
                &&& d.build_version@ == f[5]
                &&& d.locale_identifier@ == f[6]
                &&& d.language_identifier@ == f[7]
                &&& d.android_id@ == f[8]
            })),
            split_on(value@, '/').len() != 9 ==> (r matches Err(DeviceInfoError::InvalidDeviceInfo(m))
                && m@ == "expected 9 slash-separated fields, got "@ + decimal(
                split_on(value@, '/').len(),
            )),
    {
        let v = str_chars(value);
        let parts = split_chars(&v, '/');
        if parts.len() != 9 {
            let mut m: Vec<char> = Vec::new();
            push_str(&mut m, "expected 9 slash-separated fields, got ");
            push_decimal(&mut m, parts.len() as u64);
            assert(m@ =~= "expected 9 slash-separated fields, got "@ + decimal(
                split_on(value@, '/').len(),
            ));
            return Err(DeviceInfoError::InvalidDeviceInfo(chars_to_string(&m)));
        }
        Ok(DeviceInfo {
            client_identifier: chars_to_string(&parts[0]),
            version_identifier: chars_to_string(&parts[1]),
            platform_identifier: chars_to_string(&parts[2]),
            product_version: chars_to_string(&parts[3]),
            device_model: chars_to_string(&parts[4]),
            build_version: chars_to_string(&parts[5]),
            locale_identifier: chars_to_string(&parts[6]),
            language_identifier: chars_to_string(&parts[7]),
            android_id: chars_to_string(&parts[8]),
        })
    }
}

/// The number of bytes that `c` takes in UTF-8.
pub open spec fn utf8_width(c: char) -> nat {
    if (c as u32) < 0x80 {
        1
    } else if (c as u32) < 0x800 {
        2
    } else if (c as u32) < 0x10000 {
        3
    } else {
        4
    }
}

/// The number of bytes that `s` takes in UTF-8 (`str::len`).
pub open spec fn utf8_len(s: Seq<char>) -> nat
    decreases s.len(),
{
    if s.len() == 0 {
        0
    } else {
        utf8_len(s.drop_last()) + utf8_width(s.last())
    }
}

/// The UTF-8 length of `v`, or 3 once it passes 2 (enough to tell whether
/// it is 2).
fn utf8_len_capped(v: &Vec<char>) -> (n: usize)
    ensures
        n == if utf8_len(v@) > 2 { 3 } else { utf8_len(v@) },
{
    let mut n: usize = 0;
    let mut i: usize = 0;
    while i < v.len()
        invariant
            i <= v@.len(),
            n == if utf8_len(v@.subrange(0, i as int)) > 2 { 3 } else { utf8_len(v@.subrange(0, i as int)) },
        decreases v.len() - i,
    {
        let c = v[i] as u32;
        let w: usize = if c < 0x80 {
            1
        } else if c < 0x800 {
            2
        } else if c < 0x10000 {
            3
        } else {
            4
        };
        proof {
            assert(v@.subrange(0, i + 1).drop_last() =~= v@.subrange(0, i as int));
            assert(v@.subrange(0, i + 1).last() == v@[i as int]);
        }
        n = if n + w > 2 {
            3
        } else {
            n + w
        };
        i += 1;
    }
    assert(v@.subrange(0, v@.len() as int) =~= v@);
    n
}

/// The configured storefront: trimmed and lowercased when it is two bytes
/// long, else `us`.
pub open spec fn storefront_setting(s: Seq<char>) -> Seq<char> {
    let t = ascii_lower(trim(s));
    if utf8_len(t) == 2 {
        t
    } else {
        "us"@
    }
}

proof fn lemma_lower_keeps_width(s: Seq<char>)
    ensures
        utf8_len(ascii_lower(s)) == utf8_len(s),
    decreases s.len(),
{
    if s.len() > 0 {
        lemma_lower_keeps_width(s.drop_last());
        assert(ascii_lower(s).drop_last() =~= ascii_lower(s.drop_last()));
    }
}

/// Normalizes the configured storefront.
pub fn normalize_storefront(storefront: String) -> (s: String)
    ensures
        s@ == storefront_setting(storefront@),
{
    let v = str_chars(storefront.as_str());
    let t = trim_chars(&v);
    let l = lower_chars(&t);
    if utf8_len_capped(&l) == 2 {
        chars_to_string(&l)
    } else {
        "us".to_string()
    }
}

/// Why the configuration is refused.
#[derive(Debug)]
pub enum ConfigError {
    /// A message for the operator.
    Message(String),
}

/// The API token without surrounding whitespace; an empty one is refused.
pub fn normalize_api_token(api_token: String) -> (r: Result<String, ConfigError>)
    ensures
        trim(api_token@).len() > 0 ==> (r matches Ok(s) && s@ == trim(api_token@)),
        trim(api_token@).len() == 0 ==> (r matches Err(ConfigError::Message(m)) && m@
            == "api token cannot be empty; pass --api-token"@),
{
    let v = str_chars(api_token.as_str());
    let t = trim_chars(&v);
    if t.len() == 0 {
        Err(ConfigError::Message("api token cannot be empty; pass --api-token".to_string()))
    } else {
        Ok(chars_to_string(&t))
    }
}

/// The storefront for a request: the requested one when it is two bytes
/// after trimming, else the session's when it is, else the configured one.
pub open spec fn storefront_for(requested: Option<Seq<char>>, session: Option<Seq<char>>, configured: Seq<char>) -> Seq<char> {
    match requested {
        Some(r) if utf8_len(trim(r)) == 2 => ascii_lower(trim(r)),
        _ => match session {
            Some(s) if utf8_len(ascii_lower(trim(s))) == 2 => ascii_lower(trim(s)),
            _ => configured,
        },
    }
}

/// Picks the storefront for a request; `session_storefront` is the active
/// session's account storefront, if any.
pub fn resolve_storefront(requested: Option<&str>, session_storefront: Option<&str>, configured: &str) -> (s: String)
    ensures
        s@ == storefront_for(
            match requested { Some(r) => Some(r@), None => None },
            match session_storefront { Some(r) => Some(r@), None => None },
            configured@,
        ),
{
    if let Some(r) = requested {
        let v = str_chars(r);
        let t = trim_chars(&v);
        if utf8_len_capped(&t) == 2 {
            let l = lower_chars(&t);
            return chars_to_string(&l);
        }
    }
    if let Some(sf) = session_storefront {
        let v = str_chars(sf);
        let t = trim_chars(&v);
        let l = lower_chars(&t);
        if utf8_len_capped(&l) == 2 {
            return chars_to_string(&l);
        }
    }
    configured.to_string()
}

/// The language for a request: the requested one when it is not blank,
/// trimmed; else the configured one.
pub fn resolve_language(requested: Option<&str>, configured: Option<&str>) -> (r: Option<String>)
    ensures
        match requested {
            Some(q) if trim(q@).len() > 0 => r matches Some(s) && s@ == trim(q@),
            _ => match configured {
                Some(c) => r matches Some(s) && s@ == c@,
                None => r is None,
            },
        },
{
    if let Some(q) = requested {
        let v = str_chars(q);
        let t = trim_chars(&v);
        if t.len() > 0 {
            return Some(chars_to_string(&t));
        }
    }
    match configured {
        Some(c) => Some(c.to_string()),
        None => None,
    }
}

/// The number of logical CPUs (`num_cpus::get`), which is at least 1.
#[verifier::external_body]
fn cpu_count() -> (n: usize)
    ensures
        n >= 1,
{
    num_cpus::get()
}

/// The number of decrypt workers for a machine with `cpus` logical CPUs:
/// that count kept between 2 and 8.
pub fn workers_for_cpus(cpus: usize) -> (n: usize)
    ensures
        n == if cpus < 2 {
            2
        } else if cpus > 8 {
            8
        } else {
            cpus
        },
{
    if cpus < 2 {
        2
    } else if cpus > 8 {
        8
    } else {
        cpus
    }
}

/// The number of decrypt workers: as requested, else what
/// `workers_for_cpus` gives for the machine's CPU count (which varies from
/// machine to machine, so only its range is stated here).
pub fn decrypt_workers(requested: Option<usize>) -> (n: usize)
    ensures
        requested matches Some(w) ==> n == w,
        requested is None ==> 2 <= n <= 8,
{
    match requested {
        Some(w) => w,
        None => {
            let cpus = cpu_count();
            workers_for_cpus(cpus)
        },
    }
}

/// The number of samples in flight: as requested, else twice the workers
/// (saturating), at least 2.
pub fn decrypt_inflight(requested: Option<usize>, workers: usize) -> (n: usize)
    ensures
        n == match requested {
            Some(v) => v as int,
            None => {
                let twice = if 2 * workers > usize::MAX { usize::MAX as int } else { 2 * workers };
                if twice < 2 { 2 } else { twice }
            },
        },
{
    match requested {
        Some(v) => v,
        None => {
            let twice = if workers > usize::MAX / 2 {
                usize::MAX
            } else {
                workers * 2
            };
            if twice < 2 {
                2
            } else {
                twice
            }
        },
    }
}

/// The version reported when the build has no commit to name.
pub const FALLBACK_BUILD_VERSION: &'static str = "00000000";

/// The version of a build for which no commit was recorded: the fallback.
/// A program that knows the commit it was built from reports
/// `build_version` of that commit instead.
pub const BUILD_VERSION: &'static str = FALLBACK_BUILD_VERSION;

/// Whether `c` is an ASCII hexadecimal digit.
pub open spec fn is_hex_digit(c: char) -> bool {
    ('0' <= c && c <= '9') || ('a' <= c && c <= 'f') || ('A' <= c && c <= 'F')
}

/// The build version of a commit id: its first eight characters, when the
/// trimmed id has at least eight and all are hexadecimal digits.
pub open spec fn commit_version(commit: Seq<char>) -> Option<Seq<char>> {
    let t = trim(commit);
    if t.len() < 8 || exists|i: int| 0 <= i < t.len() && !is_hex_digit(#[trigger] t[i]) {
        None
    } else {
        Some(t.subrange(0, 8))
    }
}

/// The build version of a commit id, or `None` when it is not one.
pub fn commit_prefix(commit: &str) -> (r: Option<String>)
    ensures
        match commit_version(commit@) {
            Some(v) => r matches Some(s) && s@ == v,
            None => r is None,
        },
{
    let v = str_chars(commit);
    let t = trim_chars(&v);
    if t.len() < 8 {
        return None;
    }
    let mut i: usize = 0;
    while i < t.len()
        invariant
            i <= t@.len(),
            t@ == trim(commit@),
            forall|k: int| 0 <= k < i ==> is_hex_digit(#[trigger] t@[k]),
        decreases t.len() - i,
    {
        let c = t[i];
        if !(('0' <= c && c <= '9') || ('a' <= c && c <= 'f') || ('A' <= c && c <= 'F')) {
            assert(!is_hex_digit(t@[i as int]));
            return None;
        }
        i += 1;
    }
    Some(chars_to_string(&chars_range(&t, 0, 8)))
}

/// The version a build reports for the commit recorded for it: the commit's
/// first eight hexadecimal digits, or the fallback when none was recorded or
/// the recorded text is not a commit id (an empty text is not one).
pub fn build_version(commit: Option<&str>) -> (v: String)
    ensures
        v@ == match commit {
            Some(c) => match commit_version(c@) {
                Some(p) => p,
                None => FALLBACK_BUILD_VERSION@,
            },
            None => FALLBACK_BUILD_VERSION@,
        },
{
    match commit {
        Some(c) => match commit_prefix(c) {
            Some(p) => p,
            None => owned(FALLBACK_BUILD_VERSION),
        },
        None => owned(FALLBACK_BUILD_VERSION),
    }
}

/// Law: a build version made from a commit is eight hexadecimal digits.
pub proof fn law_commit_version_shape(commit: Seq<char>)
    ensures
        commit_version(commit) matches Some(v) ==> v.len() == 8 && forall|i: int| 0 <= i < 8 ==> is_hex_digit(#[trigger] v[i]),
{
    if let Some(v) = commit_version(commit) {
        let t = trim(commit);
        assert forall|i: int| 0 <= i < 8 implies is_hex_digit(#[trigger] v[i]) by {
            assert(v[i] == t[i]);
        }
    }
}

/// Law: the configured storefront is two bytes long, or `us`.
pub proof fn law_storefront_setting_shape(s: Seq<char>)
    ensures
        utf8_len(storefront_setting(s)) == 2 || storefront_setting(s) == "us"@,
{
}

} // verus!
