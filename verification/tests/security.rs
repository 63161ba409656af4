use hyperion::security::{
    room_key_transfer_file_name, transfer_file_name,
    account_management_or_error, bulk_deauthorization_step, individual_deauthorization_step,
    BulkDeauthorizationStep, DeauthorizeSessionsOutcome, DeviceDeletionResult,
    IndividualDeauthorizationStep,
    incoming_verification_request, incoming_verification_start,
    account_management_action_for_device_ids, auth_password, backup_state_label,
    cancelled_sas_view, done_sas_view, empty_encryption_overview, empty_session_overview,
    initial_encryption_overview, initial_session_overview, is_backup_already_exists_error,
    is_backup_not_enabled_error, is_unrecognized_endpoint_error, normalized_passphrase,
    parse_deauthorization_device_ids, parse_device_id, pending_sas_view, pending_state,
    recover_error_message, recovery_state_label, refreshed_encryption_overview,
    refreshed_session_overview, sas_advance_step, sas_needs_accept, sas_state_label, sas_view,
    session_info, sort_sessions, verification_request_state, AccountManagementAction,
    DeviceReport, EncryptionReport, SasEmoji, SasProgress, SasRequestPhase, SasStep,
    VerificationRequestPhase,
};
use hyperion::settings::{EncryptionPreferences, SessionInfo, SessionTrustInfo};

fn device(id: &str, seen: Option<u64>, signed: bool) -> DeviceReport {
    DeviceReport {
        device_id: String::from(id),
        display_name: None,
        last_seen_ip: None,
        last_seen_ts_unix_ms: seen,
        verified_with_cross_signing: false,
        cross_signed_by_owner: signed,
    }
}

fn session(id: &str, current: bool, seen: Option<u64>) -> SessionInfo {
    SessionInfo {
        device_id: String::from(id),
        display_name: None,
        trust: SessionTrustInfo {
            verified: false,
            verified_with_cross_signing: false,
            can_verify_current_session: false,
        },
        current,
        last_seen_ip: None,
        last_seen_ts_unix_ms: seen,
    }
}

#[test]
fn passphrases_and_labels() {
    assert_eq!(normalized_passphrase("  secret "), Ok(String::from("secret")));
    assert_eq!(
        normalized_passphrase("   "),
        Err(String::from("Passphrase must not be empty"))
    );
    assert_eq!(recovery_state_label(false, true, true), "Disabled");
    assert_eq!(recovery_state_label(true, true, true), "Enabled");
    assert_eq!(recovery_state_label(true, false, true), "Incomplete");
    assert_eq!(backup_state_label(false, Some(true)), "Enabled");
    assert_eq!(backup_state_label(true, None), "Enabled");
    assert_eq!(backup_state_label(false, Some(false)), "Unknown");
    assert_eq!(backup_state_label(false, None), "Unknown");
}

#[test]
fn error_texts_are_classified() {
    assert!(is_backup_already_exists_error("Backup version EXISTS already"));
    assert!(!is_backup_already_exists_error("backup missing"));
    assert!(is_backup_not_enabled_error("Key backup is NOT ENABLED"));
    assert!(is_unrecognized_endpoint_error("M_UNRECOGNIZED: nope"));
    assert!(is_unrecognized_endpoint_error("Unrecognized request"));
    assert!(!is_unrecognized_endpoint_error("forbidden"));
    assert_eq!(
        recover_error_message("missing field `key` at line 1"),
        "Recovery is not configured correctly on this account. Create a new recovery key before recovering secrets."
    );
    assert_eq!(
        recover_error_message("bad key"),
        "Failed to recover encryption secrets: bad key"
    );
}

#[test]
fn verification_states_and_views() {
    let state = verification_request_state("flow", VerificationRequestPhase::Ready);
    assert_eq!(state.label, "Ready");
    assert!(!state.done && !state.cancelled);
    let done = verification_request_state("flow", VerificationRequestPhase::Done);
    assert!(done.done);
    assert_eq!(done.label, "Done");
    let cancelled = verification_request_state(
        "flow",
        VerificationRequestPhase::Cancelled { reason: String::from("timeout") },
    );
    assert!(cancelled.cancelled);
    assert_eq!(cancelled.cancel_reason.as_deref(), Some("timeout"));
    assert_eq!(
        verification_request_state("f", VerificationRequestPhase::Transitioned).label,
        "In progress"
    );
    let pending = pending_state("flow", "Created");
    assert_eq!(pending.flow_id, "flow");
    assert_eq!(pending.label, "Created");

    let view = pending_sas_view("flow", "Accepted");
    assert_eq!(view.label, "Accepted");
    assert!(view.emojis.is_empty() && view.decimals.is_none());
    assert!(done_sas_view("flow").done);
    let cancelled_view = cancelled_sas_view("flow", Some(String::from("user")));
    assert_eq!(cancelled_view.label, "Cancelled");
    assert_eq!(cancelled_view.cancel_reason.as_deref(), Some("user"));

    assert_eq!(sas_state_label(true, true, true), "Done");
    assert_eq!(sas_state_label(false, true, true), "Cancelled");
    assert_eq!(sas_state_label(false, false, true), "Compare emojis");
    assert_eq!(sas_state_label(false, false, false), "In progress");

    let progress = SasProgress {
        done: false,
        cancelled: false,
        can_be_presented: true,
        cancel_reason: None,
        emojis: vec![SasEmoji { symbol: String::from("🐶"), description: String::from("Dog") }],
        decimals: Some([1, 2, 3]),
    };
    assert!(!sas_needs_accept(&progress));
    let view = sas_view("flow", progress);
    assert_eq!(view.label, "Compare emojis");
    assert_eq!(view.emojis.len(), 1);
    assert_eq!(view.decimals, Some([1, 2, 3]));

    assert!(matches!(sas_advance_step("f", SasRequestPhase::Requested), SasStep::AcceptRequest));
    assert!(matches!(sas_advance_step("f", SasRequestPhase::Ready), SasStep::StartSas));
    match sas_advance_step("f", SasRequestPhase::Created) {
        SasStep::Reply(v) => assert_eq!(v.label, "Waiting for other session"),
        _ => panic!("expected a view"),
    }
    match sas_advance_step("f", SasRequestPhase::TransitionedToOther) {
        SasStep::Reply(v) => assert_eq!(v.label, "Using another verification method"),
        _ => panic!("expected a view"),
    }
}

#[test]
fn deauthorization_requests_are_checked() {
    assert_eq!(parse_device_id(" ABC "), Ok(String::from("ABC")));
    assert_eq!(parse_device_id(" "), Err(String::from("Device ID must not be empty")));
    assert_eq!(
        parse_deauthorization_device_ids(&[], None),
        Err(String::from("Select at least one session to deauthorize"))
    );
    let ids = vec![String::from(" A "), String::from("B")];
    assert_eq!(
        parse_deauthorization_device_ids(&ids, Some("C")),
        Ok(vec![String::from("A"), String::from("B")])
    );
    assert_eq!(
        parse_deauthorization_device_ids(&ids, Some("B")),
        Err(String::from("The current session cannot deauthorize itself from this view"))
    );
    let blank = vec![String::from("A"), String::from(" ")];
    assert_eq!(
        parse_deauthorization_device_ids(&blank, None),
        Err(String::from("Device ID must not be empty"))
    );
    assert!(account_management_action_for_device_ids(&[]).is_none());
    match account_management_action_for_device_ids(&[String::from("A")]) {
        Some(AccountManagementAction::DeviceDelete { device_id }) => assert_eq!(device_id, "A"),
        _ => panic!("expected one device"),
    }
    assert!(matches!(
        account_management_action_for_device_ids(&ids),
        Some(AccountManagementAction::DevicesList)
    ));
    assert_eq!(auth_password(Some(" pw ")), Some(String::from("pw")));
    assert_eq!(auth_password(Some("  ")), None);
    assert_eq!(auth_password(None), None);
}

#[test]
fn sessions_are_ordered_current_then_recent_then_by_id() {
    let sorted = sort_sessions(vec![
        session("B", false, Some(10)),
        session("C", false, None),
        session("A", false, Some(10)),
        session("D", true, None),
        session("E", false, Some(20)),
    ]);
    let ids: Vec<&str> = sorted.iter().map(|s| s.device_id.as_str()).collect();
    assert_eq!(ids, vec!["D", "E", "A", "B", "C"]);
}

#[test]
fn session_overview_is_built_from_devices() {
    let info = session_info(device("X", None, true), Some("X"), true);
    assert!(info.current && info.trust.verified && !info.trust.can_verify_current_session);
    let other = session_info(device("Y", None, true), Some("X"), false);
    assert!(!other.current && other.trust.verified && other.trust.can_verify_current_session);

    let overview = refreshed_session_overview(
        String::from("acct"),
        String::from("@alice:example.org"),
        Some(String::from("Y")),
        false,
        vec![device("X", Some(5), false), device("Y", None, false), device("Z", Some(9), false)],
        1_000,
    );
    let ids: Vec<&str> = overview.sessions.iter().map(|s| s.device_id.as_str()).collect();
    assert_eq!(ids, vec!["Y", "Z", "X"]);
    assert_eq!(overview.last_refreshed_at_unix_ms, Some(1_000));
    assert!(overview.has_active_account);

    let empty = empty_session_overview();
    assert!(!empty.has_active_account && empty.sessions.is_empty());
    let initial = initial_session_overview(String::from("acct"), None, Some(String::from("D")));
    assert_eq!(initial.account_key.as_deref(), Some("acct"));
    assert!(initial.last_refreshed_at_unix_ms.is_none());
}

#[test]
fn encryption_overview_follows_the_report() {
    let preferences = EncryptionPreferences {
        server_key_storage_opted_out: true,
        verified_devices_only: false,
        share_encrypted_history_on_invite: false,
    };
    let overview = refreshed_encryption_overview(
        String::from("acct"),
        EncryptionReport {
            user_id: Some(String::from("@alice:example.org")),
            device_id: Some(String::from("D")),
            ed25519_key: Some(String::from("ed")),
            curve25519_key: None,
            server_backup_exists: None,
            server_backup_enabled: false,
            secret_storage_enabled: true,
            cross_signing_complete: true,
        },
        &preferences,
    );
    assert_eq!(overview.recovery_state.as_deref(), Some("Enabled"));
    assert_eq!(overview.backup_state.as_deref(), Some("Unknown"));
    assert!(overview.server_key_storage_opted_out);
    assert_eq!(overview.ed25519_key.as_deref(), Some("ed"));
    assert!(!empty_encryption_overview().has_active_account);
    let initial = initial_encryption_overview(String::from("acct"), None, None, &preferences);
    assert!(initial.recovery_state.is_none());
    assert!(initial.server_key_storage_opted_out);
}

#[test]
fn incoming_verifications_name_their_kind() {
    let request = incoming_verification_request(
        String::from("@a:x"),
        String::from("flow"),
        String::from("DEV"),
        vec![String::from("m.sas.v1")],
    );
    assert_eq!(request.event_kind, "request");
    assert_eq!(request.supported_methods, vec![String::from("m.sas.v1")]);
    let start = incoming_verification_start(String::from("@a:x"), String::from("flow"), String::from("DEV"));
    assert_eq!(start.event_kind, "start");
    assert!(start.supported_methods.is_empty());
    assert_eq!(start.device_id, "DEV");
}

#[test]
fn deauthorization_steps_follow_the_server_answers() {
    assert!(matches!(
        bulk_deauthorization_step(DeviceDeletionResult::Deleted),
        BulkDeauthorizationStep::Finish(Ok(DeauthorizeSessionsOutcome::Completed))
    ));
    assert!(matches!(
        bulk_deauthorization_step(DeviceDeletionResult::AuthRequired { auth_session: Some(String::from("s")) }),
        BulkDeauthorizationStep::Finish(Ok(DeauthorizeSessionsOutcome::PasswordRequired { .. }))
    ));
    assert!(matches!(
        bulk_deauthorization_step(DeviceDeletionResult::Failed { error_text: String::from("M_UNRECOGNIZED") }),
        BulkDeauthorizationStep::AccountManagementOrOneByOne
    ));
    match bulk_deauthorization_step(DeviceDeletionResult::Failed { error_text: String::from("boom") }) {
        BulkDeauthorizationStep::Finish(Err(e)) => assert_eq!(e, "Failed to deauthorize sessions: boom"),
        _ => panic!("an error"),
    }
    assert!(matches!(
        individual_deauthorization_step("DEV", DeviceDeletionResult::Deleted, None),
        IndividualDeauthorizationStep::Next
    ));
    match individual_deauthorization_step(
        "DEV",
        DeviceDeletionResult::AuthRequired { auth_session: None },
        Some("pw"),
    ) {
        IndividualDeauthorizationStep::RetryWithPassword { password, auth_session } => {
            assert_eq!(password, "pw");
            assert!(auth_session.is_none());
        }
        _ => panic!("a retry"),
    }
    match individual_deauthorization_step(
        "DEV",
        DeviceDeletionResult::Failed { error_text: String::from("Unrecognized request") },
        None,
    ) {
        IndividualDeauthorizationStep::AccountManagementOrFail { error } => {
            assert_eq!(error, "Failed to deauthorize session DEV: Unrecognized request");
            assert!(matches!(
                account_management_or_error(Some(String::from("https://id")), error.clone()),
                Ok(DeauthorizeSessionsOutcome::AccountManagementRequired { .. })
            ));
            assert_eq!(account_management_or_error(None, error.clone()).unwrap_err(), error);
        }
        _ => panic!("account management"),
    }
}

#[test]
fn room_key_transfer_files_are_numbered() {
    assert_eq!(transfer_file_name("export", 42), "export-42.keys");
    let a = room_key_transfer_file_name("import").expect("a random nonce");
    assert!(a.starts_with("import-"));
    assert!(a.ends_with(".keys"));
    let digits = &a["import-".len()..a.len() - ".keys".len()];
    assert!(!digits.is_empty() && digits.chars().all(|c| c.is_ascii_digit()));
}

#[test]
fn sessions_equal_in_every_sort_key_keep_their_order() {
    let mut first = session("SAME", false, Some(5));
    first.display_name = Some(String::from("first"));
    let mut second = session("SAME", false, Some(5));
    second.display_name = Some(String::from("second"));
    let sorted = sort_sessions(vec![first, session("AAA", true, None), second]);
    assert_eq!(sorted[0].device_id, "AAA");
    assert_eq!(sorted[1].display_name, Some(String::from("first")));
    assert_eq!(sorted[2].display_name, Some(String::from("second")));
}
