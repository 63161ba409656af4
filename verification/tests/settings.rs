use hyperion::settings::{
    get_theme_mode, get_theme_preset, normalize_theme_mode, normalize_theme_preset,
    read_encryption_overview, read_encryption_preferences, read_session_overview,
    resolve_default_theme_preset, set_theme_mode, set_theme_preset, write_encryption_overview,
    write_encryption_preferences, write_session_overview, AccountEncryptionSettings,
    AccountSessionSettings, EncryptionOverview, EncryptionPreferences, SessionOverview,
    ThemeSettingsFile, DEFAULT_THEME_MODE,
};

fn presets() -> Vec<String> {
    vec![String::from("aurora"), String::from("forest"), String::from("  ")]
}

fn overview(opted_out: bool, verified_only: bool) -> EncryptionOverview {
    EncryptionOverview {
        has_active_account: true,
        account_key: Some(String::from("@alice:example.org")),
        user_id: Some(String::from("@alice:example.org")),
        device_id: Some(String::from("DEVICE")),
        ed25519_key: None,
        curve25519_key: None,
        recovery_state: Some(String::from("Enabled")),
        backup_state: Some(String::from("Unknown")),
        server_key_storage_opted_out: opted_out,
        verified_devices_only: verified_only,
    }
}

#[test]
fn theme_mode_falls_back_to_system() {
    assert_eq!(DEFAULT_THEME_MODE, "system");
    assert_eq!(normalize_theme_mode(Some(" dark ")), "dark");
    assert_eq!(normalize_theme_mode(Some("light")), "light");
    assert_eq!(normalize_theme_mode(Some("sepia")), "system");
    assert_eq!(normalize_theme_mode(Some("   ")), "system");
    assert_eq!(normalize_theme_mode(None), "system");
}

#[test]
fn theme_preset_uses_supported_values_and_defaults() {
    let supported = presets();
    assert_eq!(normalize_theme_preset(Some(" forest "), &supported, "aurora"), "forest");
    assert_eq!(normalize_theme_preset(Some("ocean"), &supported, "aurora"), "aurora");
    assert_eq!(normalize_theme_preset(None, &supported, " forest "), "forest");
    assert_eq!(resolve_default_theme_preset(&supported, "missing"), "aurora");
    let blank_only = vec![String::from(" "), String::from("")];
    assert_eq!(resolve_default_theme_preset(&blank_only, " plain "), "plain");
    assert_eq!(resolve_default_theme_preset(&[], "x"), "x");
}

#[test]
fn theme_settings_set_then_get_round_trip() {
    let supported = presets();
    let stored = ThemeSettingsFile { theme_preset: None, theme_mode: Some(String::from("dark")) };
    let stored = set_theme_preset(stored, " forest ", &supported, "aurora");
    assert_eq!(stored.theme_preset.as_deref(), Some("forest"));
    assert_eq!(stored.theme_mode.as_deref(), Some("dark"));
    assert_eq!(get_theme_preset(&stored, &supported, "aurora"), "forest");
    let stored = set_theme_mode(stored, "neon");
    assert_eq!(stored.theme_mode.as_deref(), Some("system"));
    assert_eq!(get_theme_mode(&stored), "system");
    assert_eq!(stored.theme_preset.as_deref(), Some("forest"));
}

#[test]
fn encryption_preferences_write_then_read() {
    let settings = AccountEncryptionSettings::new();
    let preferences = EncryptionPreferences {
        server_key_storage_opted_out: true,
        verified_devices_only: true,
        share_encrypted_history_on_invite: false,
    };
    let written = write_encryption_preferences(settings, &preferences);
    assert_eq!(read_encryption_preferences(&written), preferences);
    assert!(read_encryption_overview(&written).is_none());

    let with_overview = write_encryption_overview(written, &overview(false, false));
    assert!(!read_encryption_preferences(&with_overview).server_key_storage_opted_out);
    assert!(!read_encryption_preferences(&with_overview).verified_devices_only);

    let updated = write_encryption_preferences(with_overview, &preferences);
    let stored = read_encryption_overview(&updated).expect("overview is kept");
    assert!(stored.server_key_storage_opted_out);
    assert!(stored.verified_devices_only);
    assert_eq!(stored.recovery_state.as_deref(), Some("Enabled"));
}

#[test]
fn session_overview_write_then_read() {
    let settings = AccountSessionSettings::new();
    assert!(read_session_overview(&settings).is_none());
    let written = write_session_overview(
        settings,
        SessionOverview {
            has_active_account: true,
            account_key: Some(String::from("@alice:example.org")),
            user_id: None,
            current_device_id: Some(String::from("DEVICE")),
            current_session_verified: true,
            sessions: Vec::new(),
            last_refreshed_at_unix_ms: Some(42),
        },
    );
    let read = read_session_overview(&written).expect("overview stored");
    assert_eq!(read.current_device_id.as_deref(), Some("DEVICE"));
    assert_eq!(read.last_refreshed_at_unix_ms, Some(42));
    assert!(read.current_session_verified);
}
