//! End-to-end encryption and session management: recovery and backup
//! labels, room key passphrases, the states of a session verification and
//! its emoji (SAS) view, and the checks made before sessions are signed out.
use vstd::prelude::*;

use crate::settings::{
    EncryptionOverview, EncryptionPreferences, SessionInfo, SessionOverview, SessionTrustInfo,
};
use crate::text::{
    ascii_lower_seq, chars_of, concat2, concat3, decimal_seq, decimal_string, is_blank, lower_ascii,
    lemma_text_le_total, lemma_text_le_trans, opt_view, seq_contains, str_contains, str_eq,
    starts_with, string_from_chars, strings_view, text_le, text_le_exec, trim, trim_seq,
};
use crate::account::fill_random_bytes;

verus! {

// ---------------------------------------------------------------------------
// Requests and results
// ---------------------------------------------------------------------------

/// A recovery key typed in by the user.
#[derive(Debug)]
pub struct RecoveryKeyRequest {
    pub recovery_key: String,
}

/// The passphrase protecting a room key file.
#[derive(Debug)]
pub struct RoomKeyFileRequest {
    pub passphrase: String,
}

/// A newly created recovery key.
#[derive(Debug)]
pub struct GeneratedRecoveryKey {
    pub recovery_key: String,
}

/// How many room keys of a file were imported.
#[derive(Debug, Clone, Copy, PartialEq, Eq, Structural)]
pub struct RoomKeyImportSummary {
    pub imported_count: usize,
    pub total_count: usize,
}

/// How a reset of the crypto identity ended.
#[derive(Debug)]
pub enum CryptoIdentityResetOutcome {
    Completed,
    UiaaRequired,
    OAuthRequired { approval_url: String },
}

/// A request to verify another session of the account.
#[derive(Debug)]
pub struct StartSessionVerificationRequest {
    pub device_id: String,
}

/// A verification that was just started.
#[derive(Debug)]
pub struct VerificationStart {
    pub flow_id: String,
    pub device_id: String,
    pub supported_methods: Vec<String>,
    pub state: VerificationState,
}

/// A verification that another session asked for.
#[derive(Debug, Clone)]
pub struct IncomingSessionVerification {
    pub account_key: String,
    pub flow_id: String,
    pub device_id: String,
    pub event_kind: String,
    pub supported_methods: Vec<String>,
}

/// What the interface is told when another device asks to verify this
/// session: the flow, the asking device and the methods it offers.
pub fn incoming_verification_request(
    account_key: String,
    flow_id: String,
    device_id: String,
    supported_methods: Vec<String>,
) -> (r: IncomingSessionVerification)
    ensures
        r.account_key == account_key,
        r.flow_id == flow_id,
        r.device_id == device_id,
        r.event_kind@ == "request"@,
        r.supported_methods == supported_methods,
{
    IncomingSessionVerification {
        account_key,
        flow_id,
        device_id,
        event_kind: "request".to_owned(),
        supported_methods,
    }
}

/// What the interface is told when another device starts verifying this
/// session directly: the flow and the device, with no methods listed.
pub fn incoming_verification_start(account_key: String, flow_id: String, device_id: String) -> (r:
    IncomingSessionVerification)
    ensures
        r.account_key == account_key,
        r.flow_id == flow_id,
        r.device_id == device_id,
        r.event_kind@ == "start"@,
        r.supported_methods@.len() == 0,
{
    IncomingSessionVerification {
        account_key,
        flow_id,
        device_id,
        event_kind: "start".to_owned(),
        supported_methods: Vec::new(),
    }
}

/// A request about one verification flow.
#[derive(Debug)]
pub struct VerificationFlowRequest {
    pub flow_id: String,
}

/// Where a verification flow stands.
#[derive(Debug)]
pub struct VerificationState {
    pub flow_id: String,
    pub label: String,
    pub done: bool,
    pub cancelled: bool,
    pub cancel_reason: Option<String>,
}

/// One emoji of a SAS comparison.
#[derive(Debug)]
pub struct SasEmoji {
    pub symbol: String,
    pub description: String,
}

/// Where an emoji (SAS) verification stands, as shown to the user.
#[derive(Debug)]
pub struct SasVerificationView {
    pub flow_id: String,
    pub label: String,
    pub done: bool,
    pub cancelled: bool,
    pub cancel_reason: Option<String>,
    pub emojis: Vec<SasEmoji>,
    pub decimals: Option<[u16; 3]>,
    pub can_be_presented: bool,
}

/// A request to sign sessions out.
#[derive(Debug)]
pub struct DeauthorizeSessionsRequest {
    pub device_ids: Vec<String>,
    pub password: Option<String>,
    pub auth_session: Option<String>,
}

/// How signing sessions out ended.
#[derive(Debug)]
pub enum DeauthorizeSessionsOutcome {
    Completed,
    PasswordRequired { auth_session: Option<String> },
    AccountManagementRequired { account_management_url: String },
}

// ---------------------------------------------------------------------------
// Encryption labels and messages
// ---------------------------------------------------------------------------

/// A room key passphrase without surrounding whitespace; an error when
/// nothing else is left.
pub fn normalized_passphrase(passphrase: &str) -> (r: Result<String, String>)
    ensures
        match r {
            Ok(p) => trim_seq(passphrase@).len() > 0 && p@ == trim_seq(passphrase@),
            Err(e) => trim_seq(passphrase@).len() == 0 && e@ == "Passphrase must not be empty"@,
        },
{
    let trimmed = trim(passphrase);
    if is_blank(passphrase) {
        return Err("Passphrase must not be empty".to_owned());
    }
    Ok(trimmed)
}

/// The recovery state: disabled without secret storage, enabled once cross
/// signing is complete and a backup is available, else incomplete.
pub fn recovery_state_label(secret_storage_enabled: bool, cross_signing_complete: bool, backup_available: bool) -> (r:
    String)
    ensures
        r@ == if !secret_storage_enabled {
            "Disabled"@
        } else if cross_signing_complete && backup_available {
            "Enabled"@
        } else {
            "Incomplete"@
        },
{
    if !secret_storage_enabled {
        return "Disabled".to_owned();
    }
    if cross_signing_complete && backup_available {
        return "Enabled".to_owned();
    }
    "Incomplete".to_owned()
}

/// The key backup state: enabled when backups are enabled here or known to
/// exist on the server, else unknown.
pub fn backup_state_label(server_backup_enabled: bool, server_backup_exists: Option<bool>) -> (r: String)
    ensures
        r@ == if server_backup_enabled || server_backup_exists == Some(true) {
            "Enabled"@
        } else {
            "Unknown"@
        },
{
    let exists = match server_backup_exists {
        Some(b) => b,
        None => false,
    };
    if server_backup_enabled || exists {
        "Enabled".to_owned()
    } else {
        "Unknown".to_owned()
    }
}

fn contains_ignoring_ascii_case(message: &str, needle: &str) -> (r: bool)
    ensures
        r == seq_contains(ascii_lower_seq(message@), needle@),
{
    let lowered = lower_ascii(&chars_of(message));
    let s = string_from_chars(&lowered);
    str_contains(s.as_str(), needle)
}

/// Whether an error says that a key backup already exists.
pub fn is_backup_already_exists_error(message: &str) -> (r: bool)
    ensures
        r == (seq_contains(ascii_lower_seq(message@), "backup"@) && seq_contains(
            ascii_lower_seq(message@),
            "exists"@,
        )),
{
    contains_ignoring_ascii_case(message, "backup") && contains_ignoring_ascii_case(message, "exists")
}

/// Whether an error says that key backups are not enabled.
pub fn is_backup_not_enabled_error(message: &str) -> (r: bool)
    ensures
        r == (seq_contains(ascii_lower_seq(message@), "backup"@) && seq_contains(
            ascii_lower_seq(message@),
            "not enabled"@,
        )),
{
    contains_ignoring_ascii_case(message, "backup") && contains_ignoring_ascii_case(message, "not enabled")
}

/// Whether an error says that the server does not know the endpoint.
pub fn is_unrecognized_endpoint_error(message: &str) -> (r: bool)
    ensures
        r == (seq_contains(ascii_lower_seq(message@), "m_unrecognized"@) || seq_contains(
            ascii_lower_seq(message@),
            "unrecognized request"@,
        )),
{
    contains_ignoring_ascii_case(message, "m_unrecognized") || contains_ignoring_ascii_case(
        message,
        "unrecognized request",
    )
}

pub open spec fn recover_not_configured_message() -> Seq<char> {
    "Recovery is not configured correctly on this account. Create a new recovery key before recovering secrets."@
}

/// The message shown when recovering secrets failed with the given error
/// text: a hint when the recovery data lacks its key, else the error.
pub fn recover_error_message(message: &str) -> (r: String)
    ensures
        r@ == if seq_contains(message@, "missing field `key`"@) {
            recover_not_configured_message()
        } else {
            "Failed to recover encryption secrets: "@ + message@
        },
{
    if str_contains(message, "missing field `key`") {
        "Recovery is not configured correctly on this account. Create a new recovery key before recovering secrets.".to_owned()
    } else {
        concat2("Failed to recover encryption secrets: ", message)
    }
}

// ---------------------------------------------------------------------------
// Verification states and the SAS view
// ---------------------------------------------------------------------------

/// A flow that is still going on, under the given label.
pub fn pending_state(flow_id: &str, label: &str) -> (r: VerificationState)
    ensures
        r.flow_id@ == flow_id@,
        r.label@ == label@,
        !r.done,
        !r.cancelled,
        r.cancel_reason is None,
{
    VerificationState {
        flow_id: flow_id.to_owned(),
        label: label.to_owned(),
        done: false,
        cancelled: false,
        cancel_reason: None,
    }
}

/// The phase of a verification request, as the SDK reports it.
#[derive(Debug)]
pub enum VerificationRequestPhase {
    Created,
    Requested,
    Ready,
    Transitioned,
    Done,
    Cancelled { reason: String },
}

/// The state shown for a verification request in the given phase.
pub fn verification_request_state(flow_id: &str, phase: VerificationRequestPhase) -> (r: VerificationState)
    ensures
        r.flow_id@ == flow_id@,
        r.done == (phase is Done),
        r.cancelled == (phase is Cancelled),
        match phase {
            VerificationRequestPhase::Cancelled { reason } => r.cancel_reason == Some(reason),
            _ => r.cancel_reason is None,
        },
        r.label@ == match phase {
            VerificationRequestPhase::Created => "Created"@,
            VerificationRequestPhase::Requested => "Requested"@,
            VerificationRequestPhase::Ready => "Ready"@,
            VerificationRequestPhase::Transitioned => "In progress"@,
            VerificationRequestPhase::Done => "Done"@,
            VerificationRequestPhase::Cancelled { .. } => "Cancelled"@,
        },
{
    match phase {
        VerificationRequestPhase::Done => VerificationState {
            flow_id: flow_id.to_owned(),
            label: "Done".to_owned(),
            done: true,
            cancelled: false,
            cancel_reason: None,
        },
        VerificationRequestPhase::Cancelled { reason } => VerificationState {
            flow_id: flow_id.to_owned(),
            label: "Cancelled".to_owned(),
            done: false,
            cancelled: true,
            cancel_reason: Some(reason),
        },
        VerificationRequestPhase::Created => pending_state(flow_id, "Created"),
        VerificationRequestPhase::Requested => pending_state(flow_id, "Requested"),
        VerificationRequestPhase::Ready => pending_state(flow_id, "Ready"),
        VerificationRequestPhase::Transitioned => pending_state(flow_id, "In progress"),
    }
}

/// A SAS view of a flow that is still going on, under the given label.
pub fn pending_sas_view(flow_id: &str, label: &str) -> (r: SasVerificationView)
    ensures
        r.flow_id@ == flow_id@,
        r.label@ == label@,
        !r.done,
        !r.cancelled,
        r.cancel_reason is None,
        r.emojis@.len() == 0,
        r.decimals is None,
        !r.can_be_presented,
{
    SasVerificationView {
        flow_id: flow_id.to_owned(),
        label: label.to_owned(),
        done: false,
        cancelled: false,
        cancel_reason: None,
        emojis: Vec::new(),
        decimals: None,
        can_be_presented: false,
    }
}

/// The SAS view of a finished flow.
pub fn done_sas_view(flow_id: &str) -> (r: SasVerificationView)
    ensures
        r.flow_id@ == flow_id@,
        r.label@ == "Done"@,
        r.done,
        !r.cancelled,
        r.cancel_reason is None,
        r.emojis@.len() == 0,
        r.decimals is None,
        !r.can_be_presented,
{
    SasVerificationView {
        flow_id: flow_id.to_owned(),
        label: "Done".to_owned(),
        done: true,
        cancelled: false,
        cancel_reason: None,
        emojis: Vec::new(),
        decimals: None,
        can_be_presented: false,
    }
}

/// The SAS view of a cancelled flow.
pub fn cancelled_sas_view(flow_id: &str, cancel_reason: Option<String>) -> (r: SasVerificationView)
    ensures
        r.flow_id@ == flow_id@,
        r.label@ == "Cancelled"@,
        !r.done,
        r.cancelled,
        r.cancel_reason == cancel_reason,
        r.emojis@.len() == 0,
        r.decimals is None,
        !r.can_be_presented,
{
    SasVerificationView {
        flow_id: flow_id.to_owned(),
        label: "Cancelled".to_owned(),
        done: false,
        cancelled: true,
        cancel_reason,
        emojis: Vec::new(),
        decimals: None,
        can_be_presented: false,
    }
}

/// What the SDK reports of an emoji verification.
#[derive(Debug)]
pub struct SasProgress {
    pub done: bool,
    pub cancelled: bool,
    pub can_be_presented: bool,
    pub cancel_reason: Option<String>,
    pub emojis: Vec<SasEmoji>,
    pub decimals: Option<[u16; 3]>,
}

/// The label of an emoji verification: done, cancelled, ready to compare,
/// or in progress, in that order.
pub open spec fn sas_label(done: bool, cancelled: bool, can_be_presented: bool) -> Seq<char> {
    if done {
        "Done"@
    } else if cancelled {
        "Cancelled"@
    } else if can_be_presented {
        "Compare emojis"@
    } else {
        "In progress"@
    }
}

/// The label of an emoji verification.
pub fn sas_state_label(done: bool, cancelled: bool, can_be_presented: bool) -> (r: String)
    ensures
        r@ == sas_label(done, cancelled, can_be_presented),
{
    if done {
        return "Done".to_owned();
    }
    if cancelled {
        return "Cancelled".to_owned();
    }
    if can_be_presented {
        return "Compare emojis".to_owned();
    }
    "In progress".to_owned()
}

/// The view of an emoji verification of the given flow.
pub fn sas_view(flow_id: &str, sas: SasProgress) -> (r: SasVerificationView)
    ensures
        r.flow_id@ == flow_id@,
        r.label@ == sas_label(sas.done, sas.cancelled, sas.can_be_presented),
        r.done == sas.done,
        r.cancelled == sas.cancelled,
        r.cancel_reason == sas.cancel_reason,
        r.emojis == sas.emojis,
        r.decimals == sas.decimals,
        r.can_be_presented == sas.can_be_presented,
{
    let label = sas_state_label(sas.done, sas.cancelled, sas.can_be_presented);
    SasVerificationView {
        flow_id: flow_id.to_owned(),
        label,
        done: sas.done,
        cancelled: sas.cancelled,
        cancel_reason: sas.cancel_reason,
        emojis: sas.emojis,
        decimals: sas.decimals,
        can_be_presented: sas.can_be_presented,
    }
}

/// Whether an emoji verification still has to be accepted on this side:
/// it is neither finished nor cancelled nor ready to compare.
pub fn sas_needs_accept(sas: &SasProgress) -> (r: bool)
    ensures
        r == (!sas.done && !sas.cancelled && !sas.can_be_presented),
{
    !sas.done && !sas.cancelled && !sas.can_be_presented
}

/// The phase of a verification request as the emoji flow sees it.
#[derive(Debug)]
pub enum SasRequestPhase {
    Created,
    Requested,
    Ready,
    TransitionedToSas,
    TransitionedToOther,
    Done,
    Cancelled { reason: String },
}

/// The next step of an emoji verification: accept the request, start the
/// emoji comparison, carry on with the comparison under way, or answer with
/// a view right away.
#[derive(Debug)]
pub enum SasStep {
    AcceptRequest,
    StartSas,
    ContinueSas,
    Reply(SasVerificationView),
}

/// The next step of an emoji verification whose request is in `phase`.
pub fn sas_advance_step(flow_id: &str, phase: SasRequestPhase) -> (r: SasStep)
    ensures
        match phase {
            SasRequestPhase::Requested => r is AcceptRequest,
            SasRequestPhase::Ready => r is StartSas,
            SasRequestPhase::TransitionedToSas => r is ContinueSas,
            SasRequestPhase::TransitionedToOther => r matches SasStep::Reply(v) && v.flow_id@ == flow_id@
                && v.label@ == "Using another verification method"@ && !v.done && !v.cancelled,
            SasRequestPhase::Done => r matches SasStep::Reply(v) && v.flow_id@ == flow_id@ && v.label@
                == "Done"@ && v.done && !v.cancelled,
            SasRequestPhase::Cancelled { reason } => r matches SasStep::Reply(v) && v.flow_id@ == flow_id@
                && v.label@ == "Cancelled"@ && v.cancelled && !v.done && v.cancel_reason == Some(reason),
            SasRequestPhase::Created => r matches SasStep::Reply(v) && v.flow_id@ == flow_id@ && v.label@
                == "Waiting for other session"@ && !v.done && !v.cancelled,
        },
{
    match phase {
        SasRequestPhase::Requested => SasStep::AcceptRequest,
        SasRequestPhase::Ready => SasStep::StartSas,
        SasRequestPhase::TransitionedToSas => SasStep::ContinueSas,
        SasRequestPhase::TransitionedToOther => SasStep::Reply(
            pending_sas_view(flow_id, "Using another verification method"),
        ),
        SasRequestPhase::Done => SasStep::Reply(done_sas_view(flow_id)),
        SasRequestPhase::Cancelled { reason } => SasStep::Reply(cancelled_sas_view(flow_id, Some(reason))),
        SasRequestPhase::Created => SasStep::Reply(pending_sas_view(flow_id, "Waiting for other session")),
    }
}

// ---------------------------------------------------------------------------
// Signing sessions out
// ---------------------------------------------------------------------------

/// A device id without surrounding whitespace; an error when nothing else
/// is left.
pub fn parse_device_id(device_id: &str) -> (r: Result<String, String>)
    ensures
        match r {
            Ok(d) => trim_seq(device_id@).len() > 0 && d@ == trim_seq(device_id@),
            Err(e) => trim_seq(device_id@).len() == 0 && e@ == "Device ID must not be empty"@,
        },
{
    let trimmed = trim(device_id);
    if is_blank(device_id) {
        return Err("Device ID must not be empty".to_owned());
    }
    Ok(trimmed)
}

/// The device ids, trimmed, of the first `n` requested devices.
pub open spec fn trimmed_ids(ids: Seq<String>, n: int) -> Seq<Seq<char>> {
    Seq::new(n as nat, |i: int| trim_seq(ids[i]@))
}

/// A requested device that cannot be signed out from the session view: a
/// blank id, or the current session.
pub open spec fn rejected_id(id: Seq<char>, current: Option<Seq<char>>) -> bool {
    trim_seq(id).len() == 0 || current == Some(trim_seq(id))
}

/// The devices to sign out, each id trimmed. An error when none is given,
/// and at the first id that is blank or names the current session.
pub fn parse_deauthorization_device_ids(device_ids: &[String], current_device_id: Option<&str>) -> (r: Result<
    Vec<String>,
    String,
>)
    ensures
        device_ids@.len() == 0 ==> (r matches Err(e) && e@ == "Select at least one session to deauthorize"@),
        device_ids@.len() > 0 ==> match r {
            Ok(v) => (forall|i: int|
                0 <= i < device_ids@.len() ==> !rejected_id(
                    #[trigger] device_ids@[i]@,
                    match current_device_id {
                        Some(c) => Some(c@),
                        None => None,
                    },
                )) && strings_view(v@) == trimmed_ids(device_ids@, device_ids@.len() as int),
            Err(e) => exists|i: int|
                0 <= i < device_ids@.len() && rejected_id(
                    #[trigger] device_ids@[i]@,
                    match current_device_id {
                        Some(c) => Some(c@),
                        None => None,
                    },
                ) && (forall|j: int|
                    0 <= j < i ==> !rejected_id(
                        #[trigger] device_ids@[j]@,
                        match current_device_id {
                            Some(c) => Some(c@),
                            None => None,
                        },
                    )) && e@ == if trim_seq(device_ids@[i]@).len() == 0 {
                    "Device ID must not be empty"@
                } else {
                    "The current session cannot deauthorize itself from this view"@
                },
        },
{
    if device_ids.len() == 0 {
        return Err("Select at least one session to deauthorize".to_owned());
    }
    let ghost current: Option<Seq<char>> = match current_device_id {
        Some(c) => Some(c@),
        None => None,
    };
    let mut parsed: Vec<String> = Vec::new();
    let mut i: usize = 0;
    while i < device_ids.len()
        invariant
            i <= device_ids@.len(),
            current == match current_device_id {
                Some(c) => Some(c@),
                None => None,
            },
            forall|j: int| 0 <= j < i ==> !rejected_id(#[trigger] device_ids@[j]@, current),
            parsed@.len() == i,
            strings_view(parsed@) == trimmed_ids(device_ids@, i as int),
        decreases device_ids.len() - i,
    {
        let id = match parse_device_id(device_ids[i].as_str()) {
            Ok(d) => d,
            Err(e) => {
                assert(rejected_id(device_ids@[i as int]@, current));
                return Err(e);
            },
        };
        let is_current = match current_device_id {
            Some(c) => str_eq(c, id.as_str()),
            None => false,
        };
        if is_current {
            assert(rejected_id(device_ids@[i as int]@, current));
            return Err("The current session cannot deauthorize itself from this view".to_owned());
        }
        let ghost before = parsed@;
        parsed.push(id);
        assert(parsed@ == before.push(id));
        assert forall|j: int| 0 <= j < i implies strings_view(parsed@)[j] == trimmed_ids(device_ids@, i + 1)[j] by {
            assert(parsed@[j] == before[j]);
            assert(strings_view(before)[j] == trimmed_ids(device_ids@, i as int)[j]);
        }
        assert(strings_view(parsed@) =~= trimmed_ids(device_ids@, i + 1));
        i = i + 1;
    }
    Ok(parsed)
}

/// What the account management page should show to sign devices out.
#[derive(Debug)]
pub enum AccountManagementAction {
    DeviceDelete { device_id: String },
    DevicesList,
}

/// Deleting the one device when one is given, the device list when more
/// are, nothing when none is.
pub fn account_management_action_for_device_ids(device_ids: &[String]) -> (r: Option<AccountManagementAction>)
    ensures
        device_ids@.len() == 0 ==> r is None,
        device_ids@.len() == 1 ==> (r matches Some(AccountManagementAction::DeviceDelete { device_id })
            && device_id == device_ids@[0]),
        device_ids@.len() > 1 ==> r matches Some(AccountManagementAction::DevicesList),
{
    if device_ids.len() == 1 {
        return Some(AccountManagementAction::DeviceDelete { device_id: device_ids[0].clone() });
    }
    if device_ids.len() == 0 {
        None
    } else {
        Some(AccountManagementAction::DevicesList)
    }
}

/// The password to authenticate a sign-out with: the given one without
/// surrounding whitespace, unless nothing is left.
pub fn auth_password(password: Option<&str>) -> (r: Option<String>)
    ensures
        match password {
            None => r is None,
            Some(p) => if trim_seq(p@).len() == 0 {
                r is None
            } else {
                (r matches Some(q) && q@ == trim_seq(p@))
            },
        },
{
    match password {
        None => None,
        Some(p) => {
            if is_blank(p) {
                None
            } else {
                Some(trim(p))
            }
        },
    }
}

// ---------------------------------------------------------------------------
// Session overview
// ---------------------------------------------------------------------------

/// What the server and the crypto store report of one device of the
/// account. Without a crypto-store entry both trust flags are false.
#[derive(Debug)]
pub struct DeviceReport {
    pub device_id: String,
    pub display_name: Option<String>,
    pub last_seen_ip: Option<String>,
    pub last_seen_ts_unix_ms: Option<u64>,
    pub verified_with_cross_signing: bool,
    pub cross_signed_by_owner: bool,
}

/// The session entry of a device: it is current when its id is the current
/// device's; the current session is as verified as the account says, any
/// other when its owner cross-signed it or it is verified with cross
/// signing; only another session signed by the owner can verify this one.
pub fn session_info(device: DeviceReport, current_device_id: Option<&str>, current_session_verified: bool) -> (r:
    SessionInfo)
    ensures
        r.device_id == device.device_id,
        r.display_name == device.display_name,
        r.last_seen_ip == device.last_seen_ip,
        r.last_seen_ts_unix_ms == device.last_seen_ts_unix_ms,
        r.current == match current_device_id {
            Some(c) => c@ == device.device_id@,
            None => false,
        },
        r.trust.verified == if r.current {
            current_session_verified
        } else {
            device.cross_signed_by_owner || device.verified_with_cross_signing
        },
        r.trust.verified_with_cross_signing == device.verified_with_cross_signing,
        r.trust.can_verify_current_session == (!r.current && device.cross_signed_by_owner),
{
    let is_current = match current_device_id {
        Some(c) => str_eq(c, device.device_id.as_str()),
        None => false,
    };
    let verified = if is_current {
        current_session_verified
    } else {
        device.cross_signed_by_owner || device.verified_with_cross_signing
    };
    SessionInfo {
        device_id: device.device_id,
        display_name: device.display_name,
        trust: SessionTrustInfo {
            verified,
            verified_with_cross_signing: device.verified_with_cross_signing,
            can_verify_current_session: !is_current && device.cross_signed_by_owner,
        },
        current: is_current,
        last_seen_ip: device.last_seen_ip,
        last_seen_ts_unix_ms: device.last_seen_ts_unix_ms,
    }
}

/// A later last-seen time goes first; a known time before an unknown one.
pub open spec fn seen_later(a: Option<u64>, b: Option<u64>) -> bool {
    match (a, b) {
        (Some(x), Some(y)) => x > y,
        (Some(_), None) => true,
        _ => false,
    }
}

/// Session `a` may stand before session `b`: the current session first,
/// then the most recently seen, then by device id.
pub open spec fn session_precedes(a: SessionInfo, b: SessionInfo) -> bool {
    if a.current != b.current {
        a.current
    } else if a.last_seen_ts_unix_ms != b.last_seen_ts_unix_ms {
        seen_later(a.last_seen_ts_unix_ms, b.last_seen_ts_unix_ms)
    } else {
        text_le(a.device_id@, b.device_id@)
    }
}

/// Sessions in the order the overview shows them.
pub open spec fn sessions_sorted(s: Seq<SessionInfo>) -> bool {
    forall|i: int, j: int| 0 <= i < j < s.len() ==> session_precedes(#[trigger] s[i], #[trigger] s[j])
}

proof fn lemma_session_precedes_total(a: SessionInfo, b: SessionInfo)
    ensures
        session_precedes(a, b) || session_precedes(b, a),
{
    lemma_text_le_total(a.device_id@, b.device_id@);
}

proof fn lemma_session_precedes_trans(a: SessionInfo, b: SessionInfo, c: SessionInfo)
    requires
        session_precedes(a, b),
        session_precedes(b, c),
    ensures
        session_precedes(a, c),
{
    if a.current == b.current && b.current == c.current && a.last_seen_ts_unix_ms == b.last_seen_ts_unix_ms
        && b.last_seen_ts_unix_ms == c.last_seen_ts_unix_ms {
        lemma_text_le_trans(a.device_id@, b.device_id@, c.device_id@);
    }
}

fn session_precedes_exec(a: &SessionInfo, b: &SessionInfo) -> (r: bool)
    ensures
        r == session_precedes(*a, *b),
{
    if a.current != b.current {
        a.current
    } else if a.last_seen_ts_unix_ms != b.last_seen_ts_unix_ms {
        match (a.last_seen_ts_unix_ms, b.last_seen_ts_unix_ms) {
            (Some(x), Some(y)) => x > y,
            (Some(_), None) => true,
            _ => false,
        }
    } else {
        text_le_exec(a.device_id.as_str(), b.device_id.as_str())
    }
}

/// `s` with `x` put after the longest prefix of sessions that may stand
/// before it.
pub open spec fn insert_session(s: Seq<SessionInfo>, x: SessionInfo) -> Seq<SessionInfo>
    decreases s.len(),
{
    if s.len() == 0 {
        seq![x]
    } else if session_precedes(s[0], x) {
        seq![s[0]] + insert_session(s.drop_first(), x)
    } else {
        seq![x] + s
    }
}

/// The sessions sorted stably: each in turn put after the ones before it
/// that may stand before it, so sessions equal in the sort keys keep their
/// given order.
pub open spec fn stable_sorted_sessions(s: Seq<SessionInfo>) -> Seq<SessionInfo>
    decreases s.len(),
{
    if s.len() == 0 {
        Seq::empty()
    } else {
        insert_session(stable_sorted_sessions(s.drop_last()), s.last())
    }
}

proof fn lemma_insert_session_at(s: Seq<SessionInfo>, x: SessionInfo, k: int)
    requires
        0 <= k <= s.len(),
        forall|j: int| 0 <= j < k ==> session_precedes(#[trigger] s[j], x),
        k == s.len() || !session_precedes(s[k], x),
    ensures
        insert_session(s, x) == s.insert(k, x),
    decreases s.len(),
{
    if s.len() == 0 {
        assert(s.insert(k, x) =~= seq![x]);
    } else if k == 0 {
        assert(s.insert(0, x) =~= seq![x] + s);
    } else {
        let t = s.drop_first();
        assert forall|j: int| 0 <= j < k - 1 implies session_precedes(#[trigger] t[j], x) by {
            assert(t[j] == s[j + 1]);
        }
        if k < s.len() {
            assert(t[k - 1] == s[k]);
        }
        lemma_insert_session_at(t, x, k - 1);
        assert(s.insert(k, x) =~= seq![s[0]] + t.insert(k - 1, x));
    }
}

/// The sessions in the overview's order: the current session first, then
/// the most recently seen, then by device id; the same sessions, each as
/// often as given.
pub fn sort_sessions(sessions: Vec<SessionInfo>) -> (r: Vec<SessionInfo>)
    ensures
        r@ == stable_sorted_sessions(sessions@),
        r@.to_multiset() == sessions@.to_multiset(),
        sessions_sorted(r@),
{
    broadcast use vstd::seq_lib::group_to_multiset_ensures;
    broadcast use vstd::multiset::group_multiset_axioms;

    let ghost all = sessions@;
    let mut input = sessions;
    let mut out: Vec<SessionInfo> = Vec::new();
    assert(out@.to_multiset() =~= vstd::multiset::Multiset::empty());
    assert(input@ == all.skip(0));
    while input.len() > 0
        invariant
            out@.to_multiset().add(input@.to_multiset()) == all.to_multiset(),
            all == sessions@,
            sessions_sorted(out@),
            input@.len() <= all.len(),
            input@ == all.skip(all.len() - input@.len()),
            out@ == stable_sorted_sessions(all.take(all.len() - input@.len())),
        decreases input.len(),
    {
        let ghost before_input = input@;
        let ghost t: int = all.len() - input@.len();
        let x = input.remove(0);
        proof {
            vstd::seq_lib::to_multiset_remove(before_input, 0);
            assert(before_input[0] == all[t]);
            assert(input@ =~= all.skip(t + 1));
            assert(all.take(t + 1).drop_last() =~= all.take(t));
            assert(all.take(t + 1).last() == x);
        }
        let mut k: usize = 0;
        while k < out.len() && session_precedes_exec(&out[k], &x)
            invariant
                k <= out@.len(),
                forall|j: int| 0 <= j < k ==> session_precedes(#[trigger] out@[j], x),
            decreases out.len() - k,
        {
            k = k + 1;
        }
        let ghost before = out@;
        proof {
            assert forall|j: int| k <= j < before.len() implies session_precedes(x, #[trigger] before[j]) by {
                lemma_session_precedes_total(before[k as int], x);
                if j > k {
                    assert(session_precedes(before[k as int], before[j]));
                    lemma_session_precedes_trans(x, before[k as int], before[j]);
                }
            }
        }
        proof {
            lemma_insert_session_at(out@, x, k as int);
        }
        out.insert(k, x);
        proof {
            vstd::seq_lib::to_multiset_insert(before, k as int, x);
            assert(out@ == before.insert(k as int, x));
            assert forall|i: int, j: int| 0 <= i < j < out@.len() implies session_precedes(
                #[trigger] out@[i],
                #[trigger] out@[j],
            ) by {
                if i < k && j == k {
                } else if i == k {
                    assert(out@[j] == before[j - 1]);
                } else if j < k {
                    assert(out@[i] == before[i] && out@[j] == before[j]);
                } else if i < k && j > k {
                    assert(out@[i] == before[i] && out@[j] == before[j - 1]);
                } else {
                    assert(out@[i] == before[i - 1] && out@[j] == before[j - 1]);
                }
            }
            assert(before_input.contains(x)) by {
                assert(before_input[0] == x);
            }
            vstd::seq_lib::to_multiset_contains(before_input, x);
            assert(out@.to_multiset().add(input@.to_multiset()) =~= sessions@.to_multiset());
        }
    }
    assert(input@.to_multiset() =~= vstd::multiset::Multiset::empty());
    assert(all.take(all.len() as int) =~= all);
    out
}

/// The session entry `session_info` makes of a device.
pub open spec fn session_of(device: DeviceReport, current: Option<Seq<char>>, current_verified: bool) -> SessionInfo {
    let is_current = current == Some(device.device_id@);
    SessionInfo {
        device_id: device.device_id,
        display_name: device.display_name,
        trust: SessionTrustInfo {
            verified: if is_current {
                current_verified
            } else {
                device.cross_signed_by_owner || device.verified_with_cross_signing
            },
            verified_with_cross_signing: device.verified_with_cross_signing,
            can_verify_current_session: !is_current && device.cross_signed_by_owner,
        },
        current: is_current,
        last_seen_ip: device.last_seen_ip,
        last_seen_ts_unix_ms: device.last_seen_ts_unix_ms,
    }
}

pub open spec fn sessions_of(devices: Seq<DeviceReport>, current: Option<Seq<char>>, current_verified: bool) -> Seq<
    SessionInfo,
> {
    Seq::new(devices.len(), |i: int| session_of(devices[i], current, current_verified))
}

/// The session overview shown when no account is active.
pub fn empty_session_overview() -> (r: SessionOverview)
    ensures
        !r.has_active_account,
        r.account_key is None,
        r.user_id is None,
        r.current_device_id is None,
        !r.current_session_verified,
        r.sessions@.len() == 0,
        r.last_refreshed_at_unix_ms is None,
{
    SessionOverview {
        has_active_account: false,
        account_key: None,
        user_id: None,
        current_device_id: None,
        current_session_verified: false,
        sessions: Vec::new(),
        last_refreshed_at_unix_ms: None,
    }
}

/// The session overview of an active account before its first refresh.
pub fn initial_session_overview(account_key: String, user_id: Option<String>, device_id: Option<String>) -> (r:
    SessionOverview)
    ensures
        r.has_active_account,
        r.account_key == Some(account_key),
        r.user_id == user_id,
        r.current_device_id == device_id,
        !r.current_session_verified,
        r.sessions@.len() == 0,
        r.last_refreshed_at_unix_ms is None,
{
    SessionOverview {
        has_active_account: true,
        account_key: Some(account_key),
        user_id,
        current_device_id: device_id,
        current_session_verified: false,
        sessions: Vec::new(),
        last_refreshed_at_unix_ms: None,
    }
}

/// The session overview of the active account after a refresh: one entry
/// per device, in the overview's order, stamped with the refresh time.
pub fn refreshed_session_overview(
    account_key: String,
    user_id: String,
    current_device_id: Option<String>,
    current_session_verified: bool,
    devices: Vec<DeviceReport>,
    refreshed_at_unix_ms: u64,
) -> (r: SessionOverview)
    ensures
        r.has_active_account,
        r.account_key == Some(account_key),
        r.user_id == Some(user_id),
        r.current_device_id == current_device_id,
        r.current_session_verified == current_session_verified,
        r.sessions@.to_multiset() == sessions_of(devices@, opt_view(current_device_id), current_session_verified).to_multiset(),
        r.sessions@ == stable_sorted_sessions(sessions_of(devices@, opt_view(current_device_id), current_session_verified)),
        sessions_sorted(r.sessions@),
        r.last_refreshed_at_unix_ms == Some(refreshed_at_unix_ms),
{
    let ghost current = opt_view(current_device_id);
    let ghost all = devices@;
    let mut sessions: Vec<SessionInfo> = Vec::new();
    let mut remaining = devices;
    assert(remaining@ == all.skip(0));
    while remaining.len() > 0
        invariant
            current == opt_view(current_device_id),
            remaining@.len() + sessions@.len() == all.len(),
            remaining@ == all.skip(sessions@.len() as int),
            sessions@ == sessions_of(all, current, current_session_verified).take(sessions@.len() as int),
        decreases remaining.len(),
    {
        let ghost n: int = sessions@.len() as int;
        let device = remaining.remove(0);
        assert(device == all[n]);
        assert(remaining@ == all.skip(n + 1));
        let current_ref: Option<&str> = match &current_device_id {
            Some(c) => Some(c.as_str()),
            None => None,
        };
        let info = session_info(device, current_ref, current_session_verified);
        sessions.push(info);
        assert(sessions@ == sessions_of(all, current, current_session_verified).take(n + 1));
    }
    assert(sessions@ == sessions_of(all, current, current_session_verified));
    let sorted = sort_sessions(sessions);
    SessionOverview {
        has_active_account: true,
        account_key: Some(account_key),
        user_id: Some(user_id),
        current_device_id,
        current_session_verified,
        sessions: sorted,
        last_refreshed_at_unix_ms: Some(refreshed_at_unix_ms),
    }
}

// ---------------------------------------------------------------------------
// Encryption overview
// ---------------------------------------------------------------------------

/// The encryption overview shown when no account is active.
pub fn empty_encryption_overview() -> (r: EncryptionOverview)
    ensures
        !r.has_active_account,
        r.account_key is None,
        r.user_id is None,
        r.device_id is None,
        r.ed25519_key is None,
        r.curve25519_key is None,
        r.recovery_state is None,
        r.backup_state is None,
        !r.server_key_storage_opted_out,
        !r.verified_devices_only,
{
    EncryptionOverview {
        has_active_account: false,
        account_key: None,
        user_id: None,
        device_id: None,
        ed25519_key: None,
        curve25519_key: None,
        recovery_state: None,
        backup_state: None,
        server_key_storage_opted_out: false,
        verified_devices_only: false,
    }
}

/// The encryption overview of an active account before its first refresh:
/// its ids and preferences, no keys or states yet.
pub fn initial_encryption_overview(
    account_key: String,
    user_id: Option<String>,
    device_id: Option<String>,
    preferences: &EncryptionPreferences,
) -> (r: EncryptionOverview)
    ensures
        r.has_active_account,
        r.account_key == Some(account_key),
        r.user_id == user_id,
        r.device_id == device_id,
        r.ed25519_key is None,
        r.curve25519_key is None,
        r.recovery_state is None,
        r.backup_state is None,
        r.server_key_storage_opted_out == preferences.server_key_storage_opted_out,
        r.verified_devices_only == preferences.verified_devices_only,
{
    EncryptionOverview {
        has_active_account: true,
        account_key: Some(account_key),
        user_id,
        device_id,
        ed25519_key: None,
        curve25519_key: None,
        recovery_state: None,
        backup_state: None,
        server_key_storage_opted_out: preferences.server_key_storage_opted_out,
        verified_devices_only: preferences.verified_devices_only,
    }
}

/// What the SDK reports of an account's encryption.
#[derive(Debug)]
pub struct EncryptionReport {
    pub user_id: Option<String>,
    pub device_id: Option<String>,
    pub ed25519_key: Option<String>,
    pub curve25519_key: Option<String>,
    pub server_backup_exists: Option<bool>,
    pub server_backup_enabled: bool,
    pub secret_storage_enabled: bool,
    pub cross_signing_complete: bool,
}

/// The encryption overview after a refresh. A backup counts as available
/// when backups are enabled, known to exist on the server, or when the
/// account opted out of server key storage.
pub fn refreshed_encryption_overview(
    account_key: String,
    report: EncryptionReport,
    preferences: &EncryptionPreferences,
) -> (r: EncryptionOverview)
    ensures
        r.has_active_account,
        r.account_key == Some(account_key),
        r.user_id == report.user_id,
        r.device_id == report.device_id,
        r.ed25519_key == report.ed25519_key,
        r.curve25519_key == report.curve25519_key,
        opt_view(r.recovery_state) == Some(
            if !report.secret_storage_enabled {
                "Disabled"@
            } else if report.cross_signing_complete && (report.server_backup_enabled
                || report.server_backup_exists == Some(true)
                || preferences.server_key_storage_opted_out) {
                "Enabled"@
            } else {
                "Incomplete"@
            },
        ),
        opt_view(r.backup_state) == Some(
            if report.server_backup_enabled || report.server_backup_exists == Some(true) {
                "Enabled"@
            } else {
                "Unknown"@
            },
        ),
        r.server_key_storage_opted_out == preferences.server_key_storage_opted_out,
        r.verified_devices_only == preferences.verified_devices_only,
{
    let backup_available = report.server_backup_enabled || report.server_backup_exists == Some(true)
        || preferences.server_key_storage_opted_out;
    let recovery_state = recovery_state_label(
        report.secret_storage_enabled,
        report.cross_signing_complete,
        backup_available,
    );
    let backup_state = backup_state_label(report.server_backup_enabled, report.server_backup_exists);
    EncryptionOverview {
        has_active_account: true,
        account_key: Some(account_key),
        user_id: report.user_id,
        device_id: report.device_id,
        ed25519_key: report.ed25519_key,
        curve25519_key: report.curve25519_key,
        recovery_state: Some(recovery_state),
        backup_state: Some(backup_state),
        server_key_storage_opted_out: preferences.server_key_storage_opted_out,
        verified_devices_only: preferences.verified_devices_only,
    }
}

// ---------------------------------------------------------------------------
// Deauthorizing sessions, step by step
// ---------------------------------------------------------------------------

/// How a request to delete devices ended.
#[derive(Debug)]
pub enum DeviceDeletionResult {
    Deleted,
    /// The server asks for interactive authentication, in this session.
    AuthRequired { auth_session: Option<String> },
    /// Another failure, by its text.
    Failed { error_text: String },
}

/// What deauthorizing does after the request that deletes every chosen
/// device at once.
#[derive(Debug)]
pub enum BulkDeauthorizationStep {
    Finish(Result<DeauthorizeSessionsOutcome, String>),
    /// The server lacks that request: send the user to the account
    /// management page when the server names one, else delete the devices
    /// one by one.
    AccountManagementOrOneByOne,
}

/// The step after deleting every chosen device at once.
pub fn bulk_deauthorization_step(result: DeviceDeletionResult) -> (r: BulkDeauthorizationStep)
    ensures
        match result {
            DeviceDeletionResult::Deleted => r == BulkDeauthorizationStep::Finish(
                Ok(DeauthorizeSessionsOutcome::Completed),
            ),
            DeviceDeletionResult::AuthRequired { auth_session } => r == BulkDeauthorizationStep::Finish(
                Ok(DeauthorizeSessionsOutcome::PasswordRequired { auth_session }),
            ),
            DeviceDeletionResult::Failed { error_text } => if is_unrecognized_endpoint_error_spec(error_text@) {
                r is AccountManagementOrOneByOne
            } else {
                r matches BulkDeauthorizationStep::Finish(Err(e)) && e@ == "Failed to deauthorize sessions: "@
                    + error_text@
            },
        },
{
    match result {
        DeviceDeletionResult::Deleted => BulkDeauthorizationStep::Finish(Ok(DeauthorizeSessionsOutcome::Completed)),
        DeviceDeletionResult::AuthRequired { auth_session } => BulkDeauthorizationStep::Finish(
            Ok(DeauthorizeSessionsOutcome::PasswordRequired { auth_session }),
        ),
        DeviceDeletionResult::Failed { error_text } => {
            if is_unrecognized_endpoint_error(error_text.as_str()) {
                BulkDeauthorizationStep::AccountManagementOrOneByOne
            } else {
                BulkDeauthorizationStep::Finish(Err(concat2("Failed to deauthorize sessions: ", error_text.as_str())))
            }
        },
    }
}

/// Whether an error text says that the server does not know the request.
pub open spec fn is_unrecognized_endpoint_error_spec(message: Seq<char>) -> bool {
    seq_contains(ascii_lower_seq(message), "m_unrecognized"@) || seq_contains(
        ascii_lower_seq(message),
        "unrecognized request"@,
    )
}

/// What deleting devices one by one does after one device.
#[derive(Debug)]
pub enum IndividualDeauthorizationStep {
    /// Go on with the next device; after the last, deauthorizing is done.
    Next,
    /// Delete the device again, authenticated by the password.
    RetryWithPassword { password: String, auth_session: Option<String> },
    /// The server lacks the request: send the user to the account
    /// management page when the server names one, else fail with this
    /// error.
    AccountManagementOrFail { error: String },
    Finish(Result<DeauthorizeSessionsOutcome, String>),
}

/// The error of a device that could not be deauthorized.
pub fn deauthorize_session_error(device_id: &str, error_text: &str) -> (r: String)
    ensures
        r@ == "Failed to deauthorize session "@ + device_id@ + ": "@ + error_text@,
{
    concat3(concat2("Failed to deauthorize session ", device_id).as_str(), ": ", error_text)
}

/// The step after deleting one device without authentication: on to the
/// next when it was deleted; when the server asks for authentication,
/// retry with the password, or ask for one when none was given; when the
/// server lacks the request, the account management page or the error;
/// otherwise the error.
pub fn individual_deauthorization_step(device_id: &str, result: DeviceDeletionResult, password: Option<&str>) -> (r:
    IndividualDeauthorizationStep)
    ensures
        match result {
            DeviceDeletionResult::Deleted => r is Next,
            DeviceDeletionResult::AuthRequired { auth_session } => match password {
                None => r == IndividualDeauthorizationStep::Finish(
                    Ok(DeauthorizeSessionsOutcome::PasswordRequired { auth_session }),
                ),
                Some(p) => r matches IndividualDeauthorizationStep::RetryWithPassword { password: q, auth_session: s }
                    && q@ == p@ && s == auth_session,
            },
            DeviceDeletionResult::Failed { error_text } => if is_unrecognized_endpoint_error_spec(error_text@) {
                r matches IndividualDeauthorizationStep::AccountManagementOrFail { error } && error@
                    == "Failed to deauthorize session "@ + device_id@ + ": "@ + error_text@
            } else {
                r matches IndividualDeauthorizationStep::Finish(Err(e)) && e@ == "Failed to deauthorize session "@
                    + device_id@ + ": "@ + error_text@
            },
        },
{
    match result {
        DeviceDeletionResult::Deleted => IndividualDeauthorizationStep::Next,
        DeviceDeletionResult::AuthRequired { auth_session } => match password {
            None => IndividualDeauthorizationStep::Finish(
                Ok(DeauthorizeSessionsOutcome::PasswordRequired { auth_session }),
            ),
            Some(p) => IndividualDeauthorizationStep::RetryWithPassword { password: p.to_owned(), auth_session },
        },
        DeviceDeletionResult::Failed { error_text } => {
            let error = deauthorize_session_error(device_id, error_text.as_str());
            if is_unrecognized_endpoint_error(error_text.as_str()) {
                IndividualDeauthorizationStep::AccountManagementOrFail { error }
            } else {
                IndividualDeauthorizationStep::Finish(Err(error))
            }
        },
    }
}

/// The outcome when the server lacks the request: its account management
/// page when it names one, else the error.
pub fn account_management_or_error(account_management_url: Option<String>, error: String) -> (r: Result<
    DeauthorizeSessionsOutcome,
    String,
>)
    ensures
        r == match account_management_url {
            Some(url) => Ok(DeauthorizeSessionsOutcome::AccountManagementRequired { account_management_url: url }),
            None => Err(error),
        },
{
    match account_management_url {
        Some(url) => Ok(DeauthorizeSessionsOutcome::AccountManagementRequired { account_management_url: url }),
        None => Err(error),
    }
}

// ---------------------------------------------------------------------------
// Room key files
// ---------------------------------------------------------------------------

/// The name offered for an export of room keys.
pub const ROOM_KEY_EXPORT_FILE_NAME: &'static str = "hyperion-room-keys.txt";

/// The directory, under the app cache, where room keys pass through on
/// their way to or from a document picked by the user.
pub const ROOM_KEY_TRANSFER_DIRECTORY_NAME: &'static str = "room-key-transfer";

/// The name of a room-key transfer file: the operation, a dash, the
/// number, and `.keys`.
pub open spec fn transfer_file_name_spec(operation_name: Seq<char>, nonce: u64) -> Seq<char> {
    operation_name + "-"@ + decimal_seq(nonce as nat) + ".keys"@
}

/// The name of a room-key transfer file for a given number.
pub fn transfer_file_name(operation_name: &str, nonce: u64) -> (r: String)
    ensures
        r@ == transfer_file_name_spec(operation_name@, nonce),
{
    let digits = decimal_string(nonce);
    let named = concat3(operation_name, "-", digits.as_str());
    concat2(named.as_str(), ".keys")
}

/// A random number from eight bytes of the system's random source.
fn random_nonce(failure_context: &str) -> (r: Result<u64, String>)
    ensures
        r matches Err(e) ==> starts_with(e@, failure_context@ + ": "@),
{
    let bytes = match fill_random_bytes(8, failure_context) {
        Ok(b) => b,
        Err(e) => {
            return Err(e);
        },
    };
    let mut n: u64 = 0;
    let mut i: usize = 0;
    while i < bytes.len()
        decreases bytes.len() - i,
    {
        n = (n << 8u64) | (bytes[i] as u64);
        i = i + 1;
    }
    Ok(n)
}

/// A fresh name for a room-key transfer file: the operation and a random
/// number, so that transfers never share a file; when the system's random
/// source fails, the error says so.
pub fn room_key_transfer_file_name(operation_name: &str) -> (r: Result<String, String>)
    ensures
        match r {
            Ok(name) => exists|nonce: u64| name@ == #[trigger] transfer_file_name_spec(operation_name@, nonce),
            Err(e) => starts_with(e@, "Failed to generate a room key transfer file name: "@),
        },
{
    let nonce = match random_nonce("Failed to generate a room key transfer file name") {
        Ok(n) => n,
        Err(e) => {
            proof {
                reveal_strlit("Failed to generate a room key transfer file name");
                reveal_strlit(": ");
                reveal_strlit("Failed to generate a room key transfer file name: ");
                assert("Failed to generate a room key transfer file name"@ + ": "@
                    =~= "Failed to generate a room key transfer file name: "@);
            }
            return Err(e);
        },
    };
    Ok(transfer_file_name(operation_name, nonce))
}

} // verus!
