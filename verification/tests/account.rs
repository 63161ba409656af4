use hyperion::account::{
    enrich_homeserver_directory, registered_outcome, registration_client_url,
    registration_failed_error, registration_step, select_registration_homeserver,
    AccountSummary, HomeserverDirectory, RegistrationStep,
    account_store_id, active_account_was_removed, client_homeserver_url,
    decode_homeserver_url_from_store_id, derive_homeserver_url, derive_registration_flow,
    derive_server_id, enrich_homeserver_entry, ensure_https_url, handle_uiaa_registration_requirement,
    is_stale_crypto_store_error, open_external_registration, registration_homeserver_target,
    replacement_account_store_id, replacement_store_id_with_suffix, room_key_recipient_strategy,
    secure_storage_unavailable, store_key_entry_id, AccountAuthorizationMode,
    AccountAuthorizationModes, HomeserverDirectoryEntry, RegistrationFlow, RegistrationOutcome,
    RoomKeyRecipientStrategy, REPLACEMENT_STORE_ID_RANDOM_BYTES,
};
use hyperion::settings::EncryptionPreferences;

fn entry() -> HomeserverDirectoryEntry {
    HomeserverDirectoryEntry {
        server_id: String::new(),
        homeserver_url: None,
        registration_flow: RegistrationFlow::InfoOnly,
        supports_display_name: false,
        name: String::from("Example"),
        client_domain: None,
        homepage: None,
        isp: None,
        staff_jur: None,
        rules: None,
        privacy: None,
        using_vanilla_reg: None,
        description: None,
        reg_method: None,
        reg_link: None,
        reg_note: None,
        software: None,
        version: None,
        captcha: None,
        captcha_note: None,
        email: None,
        longstanding: None,
        languages: Vec::new(),
        features: Vec::new(),
        online_status: None,
        server_domain: None,
        ver_status: None,
        room_directory: None,
        sliding_sync: None,
        ipv6: None,
        cloudflare: None,
        extra_fields: Vec::new(),
    }
}

#[test]
fn authorization_modes_default_online_and_mark() {
    let mut modes = AccountAuthorizationModes::new();
    assert!(modes.network_actions_allowed("a"));
    modes.mark_reauthentication_required("a");
    assert!(!modes.network_actions_allowed("a"));
    assert!(modes.network_actions_allowed("b"));
    modes.set_authorization_mode("a", AccountAuthorizationMode::Online);
    assert!(modes.network_actions_allowed("a"));
    assert_eq!(AccountAuthorizationMode::default(), AccountAuthorizationMode::Online);
}

#[test]
fn store_ids_name_their_homeserver() {
    let id = account_store_id("https://matrix.org", "alice");
    assert_eq!(id, "v1__hs_aHR0cHM6Ly9tYXRyaXgub3Jn__acct_YWxpY2U");
    assert_eq!(
        decode_homeserver_url_from_store_id(&id).as_deref(),
        Some("https://matrix.org")
    );
    assert_eq!(decode_homeserver_url_from_store_id("v2__hs_x__acct_y"), None);
    assert_eq!(decode_homeserver_url_from_store_id("v1__hs_abc"), None);
    assert_eq!(store_key_entry_id("store"), "matrix-store-key::store");
}

#[test]
fn replacement_store_ids_carry_a_random_suffix() {
    assert_eq!(replacement_store_id_with_suffix("base", &[0, 0, 0]), "base__fresh_AAAA");
    let id = replacement_account_store_id("base").expect("randomness available");
    assert!(id.starts_with("base__fresh_"));
    assert_eq!(id.len(), "base__fresh_".len() + 11);
    assert_eq!(REPLACEMENT_STORE_ID_RANDOM_BYTES, 8);
}

#[test]
fn homeserver_entries_derive_their_fields() {
    let mut e = entry();
    e.server_domain = Some(String::from("example.org"));
    e.using_vanilla_reg = Some(false);
    e.reg_link = Some(String::from("https://example.org/register"));
    e.reg_method = Some(String::from("SSO"));
    assert_eq!(derive_server_id(&e), "example.org");
    assert_eq!(derive_homeserver_url(&e).as_deref(), Some("https://example.org"));
    assert_eq!(registration_homeserver_target(&e), "example.org");
    assert_eq!(derive_registration_flow(&e), RegistrationFlow::ExternalLink);
    enrich_homeserver_entry(&mut e);
    assert_eq!(e.server_id, "example.org");
    assert_eq!(e.homeserver_url.as_deref(), Some("https://example.org"));
    assert_eq!(e.registration_flow, RegistrationFlow::ExternalLink);
    assert!(!e.supports_display_name);

    let mut vanilla = entry();
    vanilla.client_domain = Some(String::from("http://matrix.example.com"));
    vanilla.using_vanilla_reg = Some(true);
    enrich_homeserver_entry(&mut vanilla);
    assert_eq!(vanilla.server_id, "http://matrix.example.com");
    assert_eq!(vanilla.homeserver_url.as_deref(), Some("http://matrix.example.com"));
    assert!(vanilla.supports_display_name);
    assert_eq!(derive_server_id(&entry()), "Example");
    assert_eq!(derive_registration_flow(&entry()), RegistrationFlow::InfoOnly);
    assert_eq!(RegistrationFlow::default(), RegistrationFlow::InfoOnly);
}

#[test]
fn registration_outcomes() {
    assert_eq!(
        open_external_registration(entry()).err().as_deref(),
        Some("The selected homeserver does not provide a registration link")
    );
    let mut linked = entry();
    linked.reg_link = Some(String::from("https://example.org/register"));
    match open_external_registration(linked) {
        Ok(RegistrationOutcome::ExternalRegistrationOpened { reg_link, .. }) => {
            assert_eq!(reg_link, "https://example.org/register")
        }
        _ => panic!("expected the external link"),
    }
    match handle_uiaa_registration_requirement(entry(), "M_FORBIDDEN") {
        Ok(RegistrationOutcome::InformationOnly { message, .. }) => assert_eq!(
            message,
            "This homeserver requires interactive registration steps that Hyperion does not support yet. Complete the server's registration flow first, then sign in here. Details: M_FORBIDDEN"
        ),
        _ => panic!("expected information only"),
    }
}

#[test]
fn small_account_rules() {
    assert_eq!(ensure_https_url("example.org"), "https://example.org");
    assert_eq!(ensure_https_url("http://example.org"), "http://example.org");
    let removed = vec![String::from("a"), String::from("b")];
    assert!(active_account_was_removed(Some("b"), &removed));
    assert!(!active_account_was_removed(Some("c"), &removed));
    assert!(!active_account_was_removed(None, &removed));
    assert_eq!(
        secure_storage_unavailable(),
        "secure_storage_unavailable: encrypted account data cannot be unlocked"
    );
    assert!(is_stale_crypto_store_error(
        "error: the account in the store doesn't match the account in the constructor"
    ));
    assert!(!is_stale_crypto_store_error("other"));
    assert_eq!(client_homeserver_url("https://matrix.org//"), "https://matrix.org");
    let mut preferences = EncryptionPreferences::new();
    assert_eq!(room_key_recipient_strategy(&preferences), RoomKeyRecipientStrategy::AllDevices);
    preferences.verified_devices_only = true;
    assert_eq!(
        room_key_recipient_strategy(&preferences),
        RoomKeyRecipientStrategy::OnlyTrustedDevices
    );
}

#[test]
fn registration_picks_the_homeserver_and_its_route() {
    let mut a = entry();
    a.client_domain = Some(String::from("a.org"));
    a.using_vanilla_reg = Some(true);
    let mut b = entry();
    b.server_domain = Some(String::from("b.org"));
    b.using_vanilla_reg = Some(false);
    b.reg_link = Some(String::from("https://b.org/join"));
    b.reg_method = Some(String::from("SSO"));
    let directory = enrich_homeserver_directory(HomeserverDirectory { public_servers: vec![a, b, entry()] });
    assert_eq!(directory.public_servers[0].server_id, "a.org");
    assert_eq!(directory.public_servers[0].homeserver_url.as_deref(), Some("https://a.org"));
    assert!(directory.public_servers[0].supports_display_name);
    assert_eq!(directory.public_servers[1].registration_flow, RegistrationFlow::ExternalLink);
    assert_eq!(directory.public_servers[2].server_id, "Example");
    let missing = select_registration_homeserver(
        enrich_homeserver_directory(HomeserverDirectory { public_servers: vec![entry()] }),
        "nowhere",
    );
    assert_eq!(missing.unwrap_err(), "Unknown homeserver id: nowhere");
    let chosen = select_registration_homeserver(directory, "b.org").expect("b is listed");
    match registration_step(chosen) {
        RegistrationStep::Finished(Ok(RegistrationOutcome::ExternalRegistrationOpened { reg_link, .. })) => {
            assert_eq!(reg_link, "https://b.org/join");
        }
        _ => panic!("an external link"),
    }
    match registration_step(entry()) {
        RegistrationStep::Finished(Ok(RegistrationOutcome::InformationOnly { message, .. })) => {
            assert!(message.starts_with("This homeserver uses a registration flow"));
        }
        _ => panic!("information only"),
    }
    let mut sdk = entry();
    sdk.registration_flow = RegistrationFlow::MatrixSdk;
    assert!(matches!(registration_step(sdk), RegistrationStep::RegisterWithMatrixSdk(_)));
    assert_eq!(
        registration_client_url(&entry()).unwrap_err(),
        "The selected homeserver does not expose a client URL"
    );
    assert_eq!(registration_failed_error("nope"), "Registration failed: nope");
}

#[test]
fn registered_outcome_carries_the_notes() {
    let account = || AccountSummary {
        account_key: String::from("@a:x"),
        user_id: String::from("@a:x"),
        homeserver_url: String::from("https://x"),
        is_active: true,
    };
    match registered_outcome(account(), entry(), true, Some("busy")) {
        RegistrationOutcome::Registered { email_submitted, email_applied, note, .. } => {
            assert!(email_submitted);
            assert!(!email_applied);
            assert_eq!(
                note.as_deref(),
                Some("The account was created, but setting the display name failed: busy Email was collected in the request, but Matrix email verification flows are not implemented in Hyperion yet.")
            );
        }
        _ => panic!("registered"),
    }
    match registered_outcome(account(), entry(), false, None) {
        RegistrationOutcome::Registered { note, .. } => assert!(note.is_none()),
        _ => panic!("registered"),
    }
}
