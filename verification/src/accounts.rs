//! Records of the on-device account database and the decisions made over
//! them; the SQLite storage itself lives with the application.
use vstd::prelude::*;

verus! {

/// An account row.
#[derive(Debug, Clone)]
pub struct Account {
    pub id: String,
    pub email: String,
    pub refresh_token: String,
    pub label: Option<String>,
    pub machine_id: String,
    pub is_current: bool,
    pub disabled: bool,
    pub disabled_reason: Option<String>,
    pub created_at: i64,
    pub last_used: i64,
}

/// A blacklist row.
#[derive(Debug, Clone)]
pub struct IpBlacklistEntry {
    pub id: String,
    pub ip_pattern: String,
    pub reason: Option<String>,
    pub created_at: i64,
    pub expires_at: Option<i64>,
    pub created_by: String,
    pub hit_count: i64,
}

/// A whitelist row.
#[derive(Debug, Clone)]
pub struct IpWhitelistEntry {
    pub id: String,
    pub ip_pattern: String,
    pub description: Option<String>,
    pub created_at: i64,
}

/// Access-log statistics.
#[derive(Debug, Clone, Copy)]
pub struct IpStats {
    pub total_requests: u64,
    pub unique_ips: u64,
    pub blocked_count: u64,
    pub today_requests: u64,
    pub blacklist_count: u64,
    pub whitelist_count: u64,
}

/// Where the account database lives on the device.
pub open spec fn spec_db_path() -> Seq<char> {
    "/data/data/com.lbjlaq.antigravity_tools/files/moscad.db"@
}

/// The path of the account database.
pub fn db_path() -> (p: String)
    ensures
        p@ == spec_db_path(),
{
    String::from_str("/data/data/com.lbjlaq.antigravity_tools/files/moscad.db")
}

/// The record of a freshly added account: not current, enabled, unlabelled,
/// created and last used at `now`.
pub fn new_account(id: String, email: &str, refresh_token: &str, machine_id: String, now: i64) -> (a:
    Account)
    ensures
        a.id == id,
        a.email@ == email@,
        a.refresh_token@ == refresh_token@,
        a.label is None,
        a.machine_id == machine_id,
        !a.is_current,
        !a.disabled,
        a.disabled_reason is None,
        a.created_at == now,
        a.last_used == now,
{
    Account {
        id,
        email: email.to_owned(),
        refresh_token: refresh_token.to_owned(),
        label: None,
        machine_id,
        is_current: false,
        disabled: false,
        disabled_reason: None,
        created_at: now,
        last_used: now,
    }
}

/// Position of the first account marked current, in listing order.
pub fn current_account_index(accounts: &Vec<Account>) -> (r: Option<usize>)
    ensures
        match r {
            Some(i) => i < accounts@.len() && accounts@[i as int].is_current && forall|k: int|
                0 <= k < i ==> !(#[trigger] accounts@[k]).is_current,
            None => forall|k: int| 0 <= k < accounts@.len() ==> !(#[trigger] accounts@[k]).is_current,
        },
{
    for i in 0..accounts.len()
        invariant
            forall|k: int| 0 <= k < i ==> !(#[trigger] accounts@[k]).is_current,
    {
        if accounts[i].is_current {
            return Some(i);
        }
    }
    None
}

/// The first account marked current, in listing order.
pub fn find_current_account(accounts: Vec<Account>) -> (r: Option<Account>)
    ensures
        match r {
            Some(a) => exists|i: int|
                0 <= i < accounts@.len() && accounts@[i] == a && a.is_current && forall|k: int|
                    0 <= k < i ==> !(#[trigger] accounts@[k]).is_current,
            None => forall|k: int| 0 <= k < accounts@.len() ==> !(#[trigger] accounts@[k]).is_current,
        },
{
    match current_account_index(&accounts) {
        Some(i) => {
            let ghost all = accounts@;
            let mut list = accounts;
            let a = list.swap_remove(i);
            assert(all[i as int] == a);
            Some(a)
        },
        None => None,
    }
}

/// The blacklist row written for a manually added pattern.
pub fn new_blacklist_entry(id: String, ip: &str, reason: Option<&str>, now: i64) -> (e:
    IpBlacklistEntry)
    ensures
        e.id == id,
        e.ip_pattern@ == ip@,
        match reason {
            Some(r) => e.reason matches Some(x) && x@ == r@,
            None => e.reason is None,
        },
        e.created_at == now,
        e.expires_at is None,
        e.created_by@ == "manual"@,
        e.hit_count == 0,
{
    IpBlacklistEntry {
        id,
        ip_pattern: ip.to_owned(),
        reason: match reason {
            Some(r) => Some(r.to_owned()),
            None => None,
        },
        created_at: now,
        expires_at: None,
        created_by: String::from_str("manual"),
        hit_count: 0,
    }
}

/// The whitelist row written for a manually added pattern.
pub fn new_whitelist_entry(id: String, ip: &str, description: Option<&str>, now: i64) -> (e:
    IpWhitelistEntry)
    ensures
        e.id == id,
        e.ip_pattern@ == ip@,
        match description {
            Some(d) => e.description matches Some(x) && x@ == d@,
            None => e.description is None,
        },
        e.created_at == now,
{
    IpWhitelistEntry {
        id,
        ip_pattern: ip.to_owned(),
        description: match description {
            Some(d) => Some(d.to_owned()),
            None => None,
        },
        created_at: now,
    }
}

/// The `(email, refresh_token)` pairs that an account export holds, in
/// listing order.
pub fn export_pairs(accounts: &Vec<Account>) -> (r: Vec<(String, String)>)
    ensures
        r@.len() == accounts@.len(),
        forall|i: int|
            0 <= i < r@.len() ==> (#[trigger] r@[i]).0@ == accounts@[i].email@ && r@[i].1@
                == accounts@[i].refresh_token@,
{
    let mut r: Vec<(String, String)> = Vec::new();
    for i in 0..accounts.len()
        invariant
            r@.len() == i,
            forall|k: int|
                0 <= k < i ==> (#[trigger] r@[k]).0@ == accounts@[k].email@ && r@[k].1@
                    == accounts@[k].refresh_token@,
    {
        r.push((accounts[i].email.clone(), accounts[i].refresh_token.clone()));
    }
    r
}

} // verus!
