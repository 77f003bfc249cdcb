//! The Android forms of the desktop service modules: fixed data directory,
//! no-op log rotation, empty device profiles and the placeholder service
//! handles.
use vstd::prelude::*;

verus! {

/// The application's data directory on the device.
pub open spec fn spec_data_dir() -> Seq<char> {
    "/data/data/com.lbjlaq.antigravity_tools/files"@
}

/// The application's data directory (always available on Android).
pub fn get_data_dir() -> (r: Result<String, String>)
    ensures
        r matches Ok(d) && d@ == spec_data_dir(),
{
    Ok(String::from_str("/data/data/com.lbjlaq.antigravity_tools/files"))
}

/// Log rotation: the Android logger keeps no files, so there is nothing to rotate.
pub fn rotate_logs() -> (r: Result<(), String>)
    ensures
        r is Ok,
{
    Ok(())
}

/// The device profiles of an account: none are kept on Android, so always
/// the empty JSON list `[]`.
pub fn get_device_profiles(_id: &str) -> (r: Result<String, String>)
    ensures
        r matches Ok(s) && s@ == "[]"@,
{
    Ok(String::from_str("[]"))
}

/// The account service handle (no state on Android).
#[derive(Clone, Copy)]
pub struct AccountService;

impl AccountService {
    /// A new handle; the arguments are not used on Android.
    pub fn new(_a: &str, _b: &str) -> (s: AccountService)
        ensures
            s == AccountService,
    {
        AccountService
    }
}

/// Update-checker settings (none on Android).
#[derive(Clone, Copy, Default)]
pub struct UpdateSettings;

/// Quota data (none on Android).
#[derive(Clone, Copy, Default)]
pub struct QuotaData;

/// The system integration in use.
#[derive(Clone, Copy, PartialEq, Eq, Structural)]
pub enum SystemManager {
    Android,
}

} // verus!
