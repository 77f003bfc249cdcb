use antigravity_tools::fingerprint::{get_chrome_ua, get_sec_ch_ua, sec_ch_ua, FingerprintConfig};

#[test]
fn fingerprint_at_base_release() {
    let c = FingerprintConfig::from_unix_time(1741000000);
    assert_eq!(c.antigravity_version, "1.21.6");
    assert_eq!(c.user_agent, "antigravity/1.21.6 darwin/arm64");
    assert_eq!(c.chrome_version, 135);
    assert!(c.cipher_list.starts_with("TLS_AES_128_GCM_SHA256:"));
}

#[test]
fn fingerprint_advances_with_time() {
    let c = FingerprintConfig::from_unix_time(1741000000 + 2 * 1209600 + 5);
    assert_eq!(c.antigravity_version, "1.21.8");
    let before = FingerprintConfig::from_unix_time(0);
    assert_eq!(before.antigravity_version, "1.21.6");
    assert_eq!(before.chrome_version, 131);
    let late = FingerprintConfig::from_unix_time(1730000000 + 100 * 2419200);
    assert_eq!(late.chrome_version, 145);
}

#[test]
fn sec_ch_ua_names_chrome_version() {
    assert_eq!(
        sec_ch_ua(131),
        "\"Google Chrome\";v=\"131\", \"Chromium\";v=\"131\", \"Not_A Brand\";v=\"24\""
    );
    assert!(get_sec_ch_ua().starts_with("\"Google Chrome\";v=\"1"));
    assert!(get_chrome_ua().starts_with("antigravity/1.21."));
    let now = FingerprintConfig::current();
    assert!(now.chrome_version >= 131 && now.chrome_version <= 145);
}
