//! The client fingerprint: Antigravity version and User-Agent (advancing
//! every two weeks from a base release), Chrome version for the TLS layer,
//! and the `sec-ch-ua` header built from it.
use vstd::prelude::*;
use crate::text::{dec, push_decimal, push_str};

verus! {

/// Unix time of the base Antigravity release 1.21.6.
pub const BASE_AG_TIMESTAMP: u64 = 1741000000;

/// Unix time of the base Chrome release 131.
pub const BASE_CHROME_TIMESTAMP: u64 = 1730000000;

/// Seconds in two weeks.
pub const TWO_WEEKS_SECS: u64 = 1209600;

/// Seconds in four weeks.
pub const FOUR_WEEKS_SECS: u64 = 2419200;

/// The cipher list of the TLS fingerprint.
pub open spec fn spec_cipher_list() -> Seq<char> {
    "TLS_AES_128_GCM_SHA256:TLS_AES_256_GCM_SHA384:TLS_CHACHA20_POLY1305_SHA256:ECDHE-ECDSA-AES128-GCM-SHA256:ECDHE-RSA-AES128-GCM-SHA256:ECDHE-ECDSA-AES256-GCM-SHA384:ECDHE-RSA-AES256-GCM-SHA384:ECDHE-ECDSA-CHACHA20-POLY1305:ECDHE-RSA-CHACHA20-POLY1305"@
}

/// Whole periods of `period` seconds from `base` to `now` (0 before `base`).
pub open spec fn periods_since(now: u64, base: u64, period: u64) -> nat {
    if now > base {
        ((now - base) / (period as int)) as nat
    } else {
        0
    }
}

/// The Antigravity patch number at `now`: 6 plus the two-week periods since
/// the base release, in `u32` arithmetic that wraps as a release build does.
pub open spec fn spec_ag_patch(now: u64) -> u32 {
    ((6 + periods_since(now, BASE_AG_TIMESTAMP, TWO_WEEKS_SECS) % 0x1_0000_0000) % 0x1_0000_0000) as u32
}

/// The Chrome version at `now`: 131 plus the four-week periods since the base
/// release (wrapping `u32` arithmetic), capped at 145.
pub open spec fn spec_chrome_version(now: u64) -> u32 {
    let v = ((131 + periods_since(now, BASE_CHROME_TIMESTAMP, FOUR_WEEKS_SECS) % 0x1_0000_0000)
        % 0x1_0000_0000) as u32;
    if v > 145 {
        145
    } else {
        v
    }
}

/// The Antigravity version at `now`: `1.21.<patch>`.
pub open spec fn spec_ag_version(now: u64) -> Seq<char> {
    "1.21."@ + dec(spec_ag_patch(now) as nat)
}

/// The User-Agent at `now`, imitating the desktop Antigravity client.
pub open spec fn spec_user_agent(now: u64) -> Seq<char> {
    "antigravity/"@ + spec_ag_version(now) + " darwin/arm64"@
}

/// The fingerprint of the client.
pub struct FingerprintConfig {
    pub chrome_version: u32,
    pub user_agent: String,
    pub antigravity_version: String,
    pub cipher_list: String,
}

/// `c` is the fingerprint computed at Unix time `now`.
pub open spec fn fingerprint_at(c: FingerprintConfig, now: u64) -> bool {
    &&& c.chrome_version == spec_chrome_version(now)
    &&& c.user_agent@ == spec_user_agent(now)
    &&& c.antigravity_version@ == spec_ag_version(now)
    &&& c.cipher_list@ == spec_cipher_list()
}

/// Seconds since the Unix epoch by the system clock (0 if the clock is
/// before the epoch). The reading depends on the clock, so nothing is stated
/// of it.
#[verifier::external_body]
pub(crate) fn unix_time_secs() -> u64 {
    std::time::SystemTime::now().duration_since(std::time::UNIX_EPOCH).unwrap_or_default().as_secs()
}

fn periods(now: u64, base: u64, period: u64) -> (r: u64)
    requires
        period > 0,
    ensures
        r == periods_since(now, base, period),
{
    now.saturating_sub(base) / period
}

impl FingerprintConfig {
    /// The fingerprint at Unix time `now`.
    pub fn from_unix_time(now: u64) -> (c: FingerprintConfig)
        ensures
            fingerprint_at(c, now),
    {
        let weeks = periods(now, BASE_AG_TIMESTAMP, TWO_WEEKS_SECS);
        let ag_patch: u32 = ((6u64 + weeks % 0x1_0000_0000) % 0x1_0000_0000) as u32;
        let mut ag_version = String::from_str("1.21.");
        push_decimal(&mut ag_version, ag_patch as u64);
        let mut user_agent = String::from_str("antigravity/");
        push_str(&mut user_agent, ag_version.as_str());
        push_str(&mut user_agent, " darwin/arm64");
        let chrome_weeks = periods(now, BASE_CHROME_TIMESTAMP, FOUR_WEEKS_SECS);
        let raw: u32 = ((131u64 + chrome_weeks % 0x1_0000_0000) % 0x1_0000_0000) as u32;
        let chrome_version = if raw > 145 {
            145
        } else {
            raw
        };
        let cipher_list = String::from_str(
            "TLS_AES_128_GCM_SHA256:TLS_AES_256_GCM_SHA384:TLS_CHACHA20_POLY1305_SHA256:ECDHE-ECDSA-AES128-GCM-SHA256:ECDHE-RSA-AES128-GCM-SHA256:ECDHE-ECDSA-AES256-GCM-SHA384:ECDHE-RSA-AES256-GCM-SHA384:ECDHE-ECDSA-CHACHA20-POLY1305:ECDHE-RSA-CHACHA20-POLY1305",
        );
        FingerprintConfig {
            chrome_version,
            user_agent,
            antigravity_version: ag_version,
            cipher_list,
        }
    }

    /// The fingerprint at the current time by the system clock. The clock is
    /// read on every call, so calls on either side of a period boundary give
    /// different fingerprints; a process that wants one fingerprint for its
    /// lifetime keeps the first result.
    pub fn current() -> (c: FingerprintConfig)
        ensures
            exists|now: u64| fingerprint_at(c, now),
    {
        let now = unix_time_secs();
        Self::from_unix_time(now)
    }
}

/// The `sec-ch-ua` header value announcing Chrome `v`.
pub open spec fn spec_sec_ch_ua(v: u32) -> Seq<char> {
    "\"Google Chrome\";v=\""@ + dec(v as nat) + "\", \"Chromium\";v=\""@ + dec(v as nat)
        + "\", \"Not_A Brand\";v=\"24\""@
}

/// The `sec-ch-ua` header value announcing Chrome `chrome_version`.
pub fn sec_ch_ua(chrome_version: u32) -> (s: String)
    ensures
        s@ == spec_sec_ch_ua(chrome_version),
{
    let mut s = String::from_str("\"Google Chrome\";v=\"");
    push_decimal(&mut s, chrome_version as u64);
    push_str(&mut s, "\", \"Chromium\";v=\"");
    push_decimal(&mut s, chrome_version as u64);
    push_str(&mut s, "\", \"Not_A Brand\";v=\"24\"");
    s
}

/// The User-Agent of the current fingerprint (the clock is read on every call).
pub fn get_chrome_ua() -> (s: String)
    ensures
        exists|now: u64| s@ == spec_user_agent(now),
{
    FingerprintConfig::current().user_agent
}

/// The `sec-ch-ua` header of the current fingerprint (the clock is read on
/// every call).
pub fn get_sec_ch_ua() -> (s: String)
    ensures
        exists|now: u64| s@ == spec_sec_ch_ua(spec_chrome_version(now)),
{
    let c = FingerprintConfig::current();
    sec_ch_ua(c.chrome_version)
}


/// The announced Chrome version never passes 145, and from the base release
/// on (until the period count leaves `u32`) it is at least 131.
pub proof fn lemma_chrome_version_range(now: u64)
    ensures
        spec_chrome_version(now) <= 145,
        periods_since(now, BASE_CHROME_TIMESTAMP, FOUR_WEEKS_SECS) < 0x1_0000_0000 - 131 ==> 131
            <= spec_chrome_version(now),
{
}

/// Two weeks later the Antigravity patch number is one higher (from the base
/// release on, while the count stays within `u32`).
pub proof fn lemma_ag_patch_advances(now: u64)
    requires
        now >= BASE_AG_TIMESTAMP,
        now + TWO_WEEKS_SECS <= u64::MAX,
        periods_since(now, BASE_AG_TIMESTAMP, TWO_WEEKS_SECS) + 7 < 0x1_0000_0000,
    ensures
        spec_ag_patch((now + TWO_WEEKS_SECS) as u64) == spec_ag_patch(now) + 1,
{
    let d = now - BASE_AG_TIMESTAMP;
    assert((d + 1209600) / 1209600 == d / 1209600 + 1) by (nonlinear_arith)
        requires
            d >= 0,
    ;
}

} // verus!
