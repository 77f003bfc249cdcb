use antigravity_tools::services::{
    get_data_dir, get_device_profiles, rotate_logs, AccountService, SystemManager,
};

#[test]
fn android_service_forms() {
    assert_eq!(get_data_dir(), Ok("/data/data/com.lbjlaq.antigravity_tools/files".to_string()));
    assert_eq!(rotate_logs(), Ok(()));
    assert_eq!(get_device_profiles("any"), Ok("[]".to_string()));
    let _s = AccountService::new("a", "b");
    assert!(SystemManager::Android == SystemManager::Android);
}
