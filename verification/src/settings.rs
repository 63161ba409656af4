//! Per-account settings (encryption preferences, last-known encryption and
//! session overviews) and the theme preferences. Reading and writing the
//! settings files happens around this module; here are the values read
//! from them and the values to write back.
use vstd::prelude::*;

use crate::text::{chars_of, is_blank, opt_view, str_eq, strings_view, trim, trim_seq};

use crate::timeline::clone_opt_string;

verus! {

// ---------------------------------------------------------------------------
// Types
// ---------------------------------------------------------------------------

/// Account-scoped encryption preferences.
#[derive(Debug, Clone, Copy, PartialEq, Eq, Structural)]
pub struct EncryptionPreferences {
    pub server_key_storage_opted_out: bool,
    pub verified_devices_only: bool,
    pub share_encrypted_history_on_invite: bool,
}

impl EncryptionPreferences {
    /// All preferences off (the `Default` value).
    pub fn new() -> (r: Self)
        ensures
            !r.server_key_storage_opted_out,
            !r.verified_devices_only,
            !r.share_encrypted_history_on_invite,
    {
        EncryptionPreferences {
            server_key_storage_opted_out: false,
            verified_devices_only: false,
            share_encrypted_history_on_invite: false,
        }
    }
}

/// The encryption state of an account as last shown.
#[derive(Debug)]
pub struct EncryptionOverview {
    pub has_active_account: bool,
    pub account_key: Option<String>,
    pub user_id: Option<String>,
    pub device_id: Option<String>,
    pub ed25519_key: Option<String>,
    pub curve25519_key: Option<String>,
    pub recovery_state: Option<String>,
    pub backup_state: Option<String>,
    pub server_key_storage_opted_out: bool,
    pub verified_devices_only: bool,
}

impl EncryptionOverview {
    /// An equal copy.
    pub fn duplicate(&self) -> (r: Self)
        ensures
            r == *self,
    {
        EncryptionOverview {
            has_active_account: self.has_active_account,
            account_key: clone_opt_string(&self.account_key),
            user_id: clone_opt_string(&self.user_id),
            device_id: clone_opt_string(&self.device_id),
            ed25519_key: clone_opt_string(&self.ed25519_key),
            curve25519_key: clone_opt_string(&self.curve25519_key),
            recovery_state: clone_opt_string(&self.recovery_state),
            backup_state: clone_opt_string(&self.backup_state),
            server_key_storage_opted_out: self.server_key_storage_opted_out,
            verified_devices_only: self.verified_devices_only,
        }
    }
}

/// How far a session is trusted.
#[derive(Debug, Clone, Copy, PartialEq, Eq, Structural)]
pub struct SessionTrustInfo {
    pub verified: bool,
    pub verified_with_cross_signing: bool,
    pub can_verify_current_session: bool,
}

/// One session (device) of an account.
#[derive(Debug)]
pub struct SessionInfo {
    pub device_id: String,
    pub display_name: Option<String>,
    pub trust: SessionTrustInfo,
    pub current: bool,
    pub last_seen_ip: Option<String>,
    pub last_seen_ts_unix_ms: Option<u64>,
}

impl SessionInfo {
    /// An equal copy.
    pub fn duplicate(&self) -> (r: Self)
        ensures
            r == *self,
    {
        SessionInfo {
            device_id: self.device_id.clone(),
            display_name: clone_opt_string(&self.display_name),
            trust: self.trust,
            current: self.current,
            last_seen_ip: clone_opt_string(&self.last_seen_ip),
            last_seen_ts_unix_ms: self.last_seen_ts_unix_ms,
        }
    }
}

/// The sessions of an account as last shown.
#[derive(Debug)]
pub struct SessionOverview {
    pub has_active_account: bool,
    pub account_key: Option<String>,
    pub user_id: Option<String>,
    pub current_device_id: Option<String>,
    pub current_session_verified: bool,
    pub sessions: Vec<SessionInfo>,
    pub last_refreshed_at_unix_ms: Option<u64>,
}

impl SessionOverview {
    /// An equal copy.
    pub fn duplicate(&self) -> (r: Self)
        ensures
            r.has_active_account == self.has_active_account,
            r.account_key == self.account_key,
            r.user_id == self.user_id,
            r.current_device_id == self.current_device_id,
            r.current_session_verified == self.current_session_verified,
            r.sessions@ == self.sessions@,
            r.last_refreshed_at_unix_ms == self.last_refreshed_at_unix_ms,
    {
        let mut sessions: Vec<SessionInfo> = Vec::new();
        let mut i: usize = 0;
        while i < self.sessions.len()
            invariant
                i <= self.sessions@.len(),
                sessions@ == self.sessions@.take(i as int),
            decreases self.sessions.len() - i,
        {
            sessions.push(self.sessions[i].duplicate());
            assert(self.sessions@.take(i + 1) == self.sessions@.take(i as int).push(
                self.sessions@[i as int],
            ));
            i = i + 1;
        }
        assert(self.sessions@.take(self.sessions@.len() as int) == self.sessions@);
        SessionOverview {
            has_active_account: self.has_active_account,
            account_key: clone_opt_string(&self.account_key),
            user_id: clone_opt_string(&self.user_id),
            current_device_id: clone_opt_string(&self.current_device_id),
            current_session_verified: self.current_session_verified,
            sessions,
            last_refreshed_at_unix_ms: self.last_refreshed_at_unix_ms,
        }
    }
}

/// The contents of an account's encryption settings file.
#[derive(Debug)]
pub struct AccountEncryptionSettings {
    pub preferences: EncryptionPreferences,
    pub overview: Option<EncryptionOverview>,
}

impl AccountEncryptionSettings {
    /// The settings of an account that has none stored yet.
    pub fn new() -> (r: Self)
        ensures
            !r.preferences.server_key_storage_opted_out,
            !r.preferences.verified_devices_only,
            !r.preferences.share_encrypted_history_on_invite,
            r.overview is None,
    {
        AccountEncryptionSettings { preferences: EncryptionPreferences::new(), overview: None }
    }
}

/// The contents of an account's session settings file.
#[derive(Debug)]
pub struct AccountSessionSettings {
    pub overview: Option<SessionOverview>,
}

impl AccountSessionSettings {
    /// The settings of an account that has none stored yet.
    pub fn new() -> (r: Self)
        ensures
            r.overview is None,
    {
        AccountSessionSettings { overview: None }
    }
}

// ---------------------------------------------------------------------------
// Reading and updating the stored settings
// ---------------------------------------------------------------------------

/// The encryption preferences held in the stored settings.
pub fn read_encryption_preferences(settings: &AccountEncryptionSettings) -> (r: EncryptionPreferences)
    ensures
        r == settings.preferences,
{
    settings.preferences
}

/// The settings to store after changing the encryption preferences: the new
/// preferences, and a stored overview updated to the new key-storage and
/// verified-devices flags.
pub fn write_encryption_preferences(
    settings: AccountEncryptionSettings,
    preferences: &EncryptionPreferences,
) -> (r: AccountEncryptionSettings)
    ensures
        r.preferences == *preferences,
        match settings.overview {
            None => r.overview is None,
            Some(o) => r.overview == Some(
                EncryptionOverview {
                    server_key_storage_opted_out: preferences.server_key_storage_opted_out,
                    verified_devices_only: preferences.verified_devices_only,
                    ..o
                },
            ),
        },
{
    let mut settings = settings;
    settings.preferences = *preferences;
    match settings.overview {
        Some(mut overview) => {
            overview.server_key_storage_opted_out = preferences.server_key_storage_opted_out;
            overview.verified_devices_only = preferences.verified_devices_only;
            AccountEncryptionSettings { preferences: settings.preferences, overview: Some(overview) }
        },
        None => settings,
    }
}

/// The encryption overview held in the stored settings.
pub fn read_encryption_overview(settings: &AccountEncryptionSettings) -> (r: Option<EncryptionOverview>)
    ensures
        r == settings.overview,
{
    match &settings.overview {
        Some(o) => Some(o.duplicate()),
        None => None,
    }
}

/// The settings to store after a fresh encryption overview: the overview,
/// and preferences whose key-storage and verified-devices flags follow it.
pub fn write_encryption_overview(settings: AccountEncryptionSettings, overview: &EncryptionOverview) -> (r:
    AccountEncryptionSettings)
    ensures
        r.overview == Some(*overview),
        r.preferences == (EncryptionPreferences {
            server_key_storage_opted_out: overview.server_key_storage_opted_out,
            verified_devices_only: overview.verified_devices_only,
            ..settings.preferences
        }),
{
    let mut preferences = settings.preferences;
    preferences.server_key_storage_opted_out = overview.server_key_storage_opted_out;
    preferences.verified_devices_only = overview.verified_devices_only;
    AccountEncryptionSettings { preferences, overview: Some(overview.duplicate()) }
}

/// The session overview held in the stored settings.
pub fn read_session_overview(settings: &AccountSessionSettings) -> (r: Option<SessionOverview>)
    ensures
        match (r, settings.overview) {
            (Some(a), Some(b)) => a.has_active_account == b.has_active_account && a.account_key
                == b.account_key && a.user_id == b.user_id && a.current_device_id
                == b.current_device_id && a.current_session_verified == b.current_session_verified
                && a.sessions@ == b.sessions@ && a.last_refreshed_at_unix_ms
                == b.last_refreshed_at_unix_ms,
            (None, None) => true,
            _ => false,
        },
{
    match &settings.overview {
        Some(o) => Some(o.duplicate()),
        None => None,
    }
}

/// The settings to store after a fresh session overview.
pub fn write_session_overview(settings: AccountSessionSettings, overview: SessionOverview) -> (r:
    AccountSessionSettings)
    ensures
        r.overview == Some(overview),
{
    let _previous = settings;
    AccountSessionSettings { overview: Some(overview) }
}

/// Writing encryption preferences and reading them back gives them, and a
/// stored overview then shows the same two flags.
pub proof fn lemma_encryption_preferences_write_read(
    settings: AccountEncryptionSettings,
    preferences: EncryptionPreferences,
    written: AccountEncryptionSettings,
)
    requires
        written.preferences == preferences,
        match settings.overview {
            None => written.overview is None,
            Some(o) => written.overview == Some(
                EncryptionOverview {
                    server_key_storage_opted_out: preferences.server_key_storage_opted_out,
                    verified_devices_only: preferences.verified_devices_only,
                    ..o
                },
            ),
        },
    ensures
        written.preferences == preferences,
        written.overview matches Some(o) ==> o.server_key_storage_opted_out
            == written.preferences.server_key_storage_opted_out && o.verified_devices_only
            == written.preferences.verified_devices_only,
{
}

// ---------------------------------------------------------------------------
// Theme
// ---------------------------------------------------------------------------

/// The theme mode used when none valid is stored.
pub const DEFAULT_THEME_MODE: &'static str = "system";

/// The stored theme preferences.
#[derive(Debug)]
pub struct ThemeSettingsFile {
    pub theme_preset: Option<String>,
    pub theme_mode: Option<String>,
}

/// The first preset that is not blank, if any.
pub open spec fn first_non_blank(presets: Seq<Seq<char>>) -> Option<Seq<char>>
    decreases presets.len(),
{
    if presets.len() == 0 {
        None
    } else if trim_seq(presets[0]).len() > 0 {
        Some(presets[0])
    } else {
        first_non_blank(presets.drop_first())
    }
}

/// The default preset: the trimmed default when it is supported, else the
/// first non-blank supported preset, else the trimmed default.
pub open spec fn resolved_default_preset(presets: Seq<Seq<char>>, default_preset: Seq<char>) -> Seq<char> {
    if presets.contains(trim_seq(default_preset)) {
        trim_seq(default_preset)
    } else {
        match first_non_blank(presets) {
            Some(p) => p,
            None => trim_seq(default_preset),
        }
    }
}

/// A theme preset: the trimmed candidate when it is supported, else the
/// resolved default.
pub open spec fn normalized_preset(
    candidate: Option<Seq<char>>,
    presets: Seq<Seq<char>>,
    default_preset: Seq<char>,
) -> Seq<char> {
    match candidate {
        Some(c) => if trim_seq(c).len() > 0 && presets.contains(trim_seq(c)) {
            trim_seq(c)
        } else {
            resolved_default_preset(presets, default_preset)
        },
        None => resolved_default_preset(presets, default_preset),
    }
}

/// A theme mode: the trimmed candidate when it is `system`, `light` or
/// `dark`, else `system`.
pub open spec fn normalized_mode(candidate: Option<Seq<char>>) -> Seq<char> {
    match candidate {
        Some(c) => if trim_seq(c) == "system"@ || trim_seq(c) == "light"@ || trim_seq(c)
            == "dark"@ {
            trim_seq(c)
        } else {
            "system"@
        },
        None => "system"@,
    }
}

fn position_of(presets: &[String], value: &str) -> (r: Option<usize>)
    ensures
        r is Some <==> strings_view(presets@).contains(value@),
        r matches Some(i) ==> i < presets@.len() && presets@[i as int]@ == value@,
{
    let mut i: usize = 0;
    while i < presets.len()
        invariant
            i <= presets@.len(),
            forall|k: int| 0 <= k < i ==> (#[trigger] presets@[k])@ != value@,
        decreases presets.len() - i,
    {
        if str_eq(presets[i].as_str(), value) {
            assert(strings_view(presets@)[i as int] == value@);
            return Some(i);
        }
        i = i + 1;
    }
    proof {
        if strings_view(presets@).contains(value@) {
            let k = choose|k: int| 0 <= k < strings_view(presets@).len() && strings_view(presets@)[k]
                == value@;
            assert(presets@[k]@ == value@);
        }
    }
    None
}

/// The default preset among the supported ones.
pub fn resolve_default_theme_preset(supported_presets: &[String], default_preset: &str) -> (r: String)
    ensures
        r@ == resolved_default_preset(strings_view(supported_presets@), default_preset@),
{
    let normalized_default = trim(default_preset);
    if position_of(supported_presets, normalized_default.as_str()).is_some() {
        return normalized_default;
    }
    let ghost all = strings_view(supported_presets@);
    let mut i: usize = 0;
    assert(all.skip(0) == all);
    while i < supported_presets.len()
        invariant
            i <= supported_presets@.len(),
            all == strings_view(supported_presets@),
            first_non_blank(all) == first_non_blank(all.skip(i as int)),
            !all.contains(trim_seq(default_preset@)),
        decreases supported_presets.len() - i,
    {
        assert(all.skip(i as int)[0] == supported_presets@[i as int]@);
        assert(all.skip(i as int).drop_first() == all.skip(i + 1));
        if !is_blank(supported_presets[i].as_str()) {
            let found = supported_presets[i].clone();
            assert(found@ == all[i as int]);
            assert(first_non_blank(all.skip(i as int)) == Some(all.skip(i as int)[0]));
            return found;
        }
        i = i + 1;
    }
    normalized_default
}

/// A theme preset, falling back to the default preset.
pub fn normalize_theme_preset(candidate: Option<&str>, supported_presets: &[String], default_preset: &str) -> (r:
    String)
    ensures
        r@ == normalized_preset(
            match candidate {
                Some(c) => Some(c@),
                None => None,
            },
            strings_view(supported_presets@),
            default_preset@,
        ),
{
    let resolved = resolve_default_theme_preset(supported_presets, default_preset);
    match candidate {
        Some(c) => {
            let t = trim(c);
            if is_blank(c) {
                return resolved;
            }
            match position_of(supported_presets, t.as_str()) {
                Some(i) => supported_presets[i].clone(),
                None => resolved,
            }
        },
        None => resolved,
    }
}

/// A theme mode, falling back to `system`.
pub fn normalize_theme_mode(candidate: Option<&str>) -> (r: String)
    ensures
        r@ == normalized_mode(
            match candidate {
                Some(c) => Some(c@),
                None => None,
            },
        ),
{
    match candidate {
        Some(c) => {
            let t = trim(c);
            if str_eq(t.as_str(), "system") || str_eq(t.as_str(), "light") || str_eq(
                t.as_str(),
                "dark",
            ) {
                t
            } else {
                "system".to_owned()
            }
        },
        None => "system".to_owned(),
    }
}

/// The stored theme settings after choosing a preset: the normalized
/// preset, with the stored mode kept.
pub fn set_theme_preset(
    settings: ThemeSettingsFile,
    preset: &str,
    supported_presets: &[String],
    default_preset: &str,
) -> (r: ThemeSettingsFile)
    ensures
        opt_view(r.theme_preset) == Some(
            normalized_preset(Some(preset@), strings_view(supported_presets@), default_preset@),
        ),
        r.theme_mode == settings.theme_mode,
{
    let normalized = normalize_theme_preset(Some(preset), supported_presets, default_preset);
    ThemeSettingsFile { theme_preset: Some(normalized), theme_mode: settings.theme_mode }
}

/// The stored theme settings after choosing a mode: the normalized mode,
/// with the stored preset kept.
pub fn set_theme_mode(settings: ThemeSettingsFile, mode: &str) -> (r: ThemeSettingsFile)
    ensures
        opt_view(r.theme_mode) == Some(normalized_mode(Some(mode@))),
        r.theme_preset == settings.theme_preset,
{
    let normalized = normalize_theme_mode(Some(mode));
    ThemeSettingsFile { theme_preset: settings.theme_preset, theme_mode: Some(normalized) }
}

/// The preset to show for the stored settings.
pub fn get_theme_preset(settings: &ThemeSettingsFile, supported_presets: &[String], default_preset: &str) -> (r:
    String)
    ensures
        r@ == normalized_preset(opt_view(settings.theme_preset), strings_view(supported_presets@), default_preset@),
{
    match &settings.theme_preset {
        Some(p) => normalize_theme_preset(Some(p.as_str()), supported_presets, default_preset),
        None => normalize_theme_preset(None, supported_presets, default_preset),
    }
}

/// The mode to show for the stored settings.
pub fn get_theme_mode(settings: &ThemeSettingsFile) -> (r: String)
    ensures
        r@ == normalized_mode(opt_view(settings.theme_mode)),
{
    match &settings.theme_mode {
        Some(m) => normalize_theme_mode(Some(m.as_str())),
        None => normalize_theme_mode(None),
    }
}

/// A normalized mode is stable: normalizing it again changes nothing, so
/// the mode that `set_theme_mode` stores is the one `get_theme_mode` shows.
pub proof fn lemma_theme_mode_idempotent(candidate: Option<Seq<char>>)
    ensures
        normalized_mode(Some(normalized_mode(candidate))) == normalized_mode(candidate),
{
    let m = normalized_mode(candidate);
    reveal_strlit("system");
    reveal_strlit("light");
    reveal_strlit("dark");
    lemma_trim_fixed(m);
}

/// Where every supported preset is already trimmed, a normalized preset is
/// stable: normalizing it again changes nothing, so the preset that
/// `set_theme_preset` stores is the one `get_theme_preset` shows.
pub proof fn lemma_theme_preset_idempotent(
    candidate: Option<Seq<char>>,
    presets: Seq<Seq<char>>,
    default_preset: Seq<char>,
)
    requires
        forall|k: int| 0 <= k < presets.len() ==> trim_seq(#[trigger] presets[k]) == presets[k],
    ensures
        normalized_preset(Some(normalized_preset(candidate, presets, default_preset)), presets, default_preset)
            == normalized_preset(candidate, presets, default_preset),
{
    let r = normalized_preset(candidate, presets, default_preset);
    lemma_first_non_blank(presets);
    if presets.contains(r) {
        let k = choose|k: int| 0 <= k < presets.len() && presets[k] == r;
        assert(trim_seq(presets[k]) == presets[k]);
    } else {
        assert(r == resolved_default_preset(presets, default_preset));
        if presets.contains(trim_seq(r)) && trim_seq(r).len() > 0 {
            let k = choose|k: int| 0 <= k < presets.len() && presets[k] == trim_seq(r);
            assert(trim_seq(presets[k]) == presets[k]);
        }
    }
}

/// What `first_non_blank` finds is a supported, non-blank preset; when it
/// finds none, every preset is blank.
proof fn lemma_first_non_blank(presets: Seq<Seq<char>>)
    ensures
        match first_non_blank(presets) {
            Some(p) => presets.contains(p) && trim_seq(p).len() > 0,
            None => forall|k: int| 0 <= k < presets.len() ==> trim_seq(#[trigger] presets[k]).len() == 0,
        },
    decreases presets.len(),
{
    if presets.len() > 0 {
        lemma_first_non_blank(presets.drop_first());
        if trim_seq(presets[0]).len() == 0 {
            match first_non_blank(presets.drop_first()) {
                Some(p) => {
                    let k = choose|k: int| 0 <= k < presets.drop_first().len() && presets.drop_first()[k] == p;
                    assert(presets[k + 1] == p);
                },
                None => {
                    assert forall|k: int| 0 <= k < presets.len() implies trim_seq(#[trigger] presets[k]).len() == 0 by {
                        if k > 0 {
                            assert(presets[k] == presets.drop_first()[k - 1]);
                        }
                    }
                },
            }
        } else {
            assert(presets[0] == presets[0]);
        }
    }
}

/// Trimming a string without surrounding whitespace changes nothing.
proof fn lemma_trim_fixed(s: Seq<char>)
    requires
        s == "system"@ || s == "light"@ || s == "dark"@,
    ensures
        trim_seq(s) == s,
{
    reveal_strlit("system");
    reveal_strlit("light");
    reveal_strlit("dark");
    assert(!crate::text::is_ws(s[0]));
    assert(!crate::text::is_ws(s.last()));
}

} // verus!
