//! Accounts: sign-in and registration requests, account summaries, the
//! authorization mode of each signed-in account, the identifiers of an
//! account's encrypted store, and the registration route that a homeserver
//! of the public directory offers.
use vstd::prelude::*;
use vstd::utf8::{decode_utf8, encode_utf8, valid_utf8};

use rand::TryRng as _;

use crate::paging::{
    base64_url_decode, base64_url_encode, decode_base64_url, encode_base64_url,
    string_from_utf8,
};
use crate::settings::EncryptionPreferences;
use crate::text::{
    chars_of, concat2, concat3, find_from, first_occurrence_from, lemma_first_occurrence, occurs_at,
    opt_int, opt_view, seq_contains, starts_with, starts_with_chars, str_contains, str_eq,
    string_from_range, strings_view,
};
use crate::timeline::clone_opt_string;

verus! {

broadcast use vstd::utf8::group_utf8_lib;

// ---------------------------------------------------------------------------
// Requests and summaries
// ---------------------------------------------------------------------------

/// Whether an account may use the network, or must sign in again first.
#[derive(Debug, Clone, Copy, PartialEq, Eq, Structural)]
pub enum AccountAuthorizationMode {
    Online,
    ReauthenticationRequired,
}

impl Default for AccountAuthorizationMode {
    fn default() -> (r: Self)
        ensures
            r == AccountAuthorizationMode::Online,
    {
        AccountAuthorizationMode::Online
    }
}

/// A password sign-in.
#[derive(Debug)]
pub struct LoginRequest {
    pub homeserver_url: String,
    pub username: String,
    pub password: String,
    pub device_display_name: Option<String>,
}

/// A registration on a homeserver of the public directory.
#[derive(Debug)]
pub struct RegisterAccountRequest {
    pub server_id: String,
    pub username: String,
    pub password: String,
    pub email: Option<String>,
    pub display_name: Option<String>,
    pub device_display_name: Option<String>,
}

/// A signed-in account as the account list shows it.
#[derive(Debug, Clone)]
pub struct AccountSummary {
    pub account_key: String,
    pub user_id: String,
    pub homeserver_url: String,
    pub is_active: bool,
}

/// How an account can be registered on a homeserver.
#[derive(Debug, Clone, Copy, PartialEq, Eq, Structural)]
pub enum RegistrationFlow {
    MatrixSdk,
    ExternalLink,
    InfoOnly,
}

impl Default for RegistrationFlow {
    fn default() -> (r: Self)
        ensures
            r == RegistrationFlow::InfoOnly,
    {
        RegistrationFlow::InfoOnly
    }
}

/// One homeserver of the public directory. `extra_fields` holds the entry's
/// other fields, each by its name and its JSON text.
#[derive(Debug)]
pub struct HomeserverDirectoryEntry {
    pub server_id: String,
    pub homeserver_url: Option<String>,
    pub registration_flow: RegistrationFlow,
    pub supports_display_name: bool,
    pub name: String,
    pub client_domain: Option<String>,
    pub homepage: Option<String>,
    pub isp: Option<String>,
    pub staff_jur: Option<String>,
    pub rules: Option<String>,
    pub privacy: Option<String>,
    pub using_vanilla_reg: Option<bool>,
    pub description: Option<String>,
    pub reg_method: Option<String>,
    pub reg_link: Option<String>,
    pub reg_note: Option<String>,
    pub software: Option<String>,
    pub version: Option<String>,
    pub captcha: Option<bool>,
    pub captcha_note: Option<String>,
    pub email: Option<bool>,
    pub longstanding: Option<bool>,
    pub languages: Vec<String>,
    pub features: Vec<String>,
    pub online_status: Option<i64>,
    pub server_domain: Option<String>,
    pub ver_status: Option<i64>,
    pub room_directory: Option<i64>,
    pub sliding_sync: Option<bool>,
    pub ipv6: Option<bool>,
    pub cloudflare: Option<bool>,
    pub extra_fields: Vec<(String, String)>,
}

/// The public homeserver directory.
#[derive(Debug)]
pub struct HomeserverDirectory {
    pub public_servers: Vec<HomeserverDirectoryEntry>,
}

/// How a registration ended.
#[derive(Debug)]
pub enum RegistrationOutcome {
    Registered {
        account: AccountSummary,
        homeserver: HomeserverDirectoryEntry,
        email_submitted: bool,
        email_applied: bool,
        note: Option<String>,
    },
    ExternalRegistrationOpened { homeserver: HomeserverDirectoryEntry, reg_link: String },
    InformationOnly { homeserver: HomeserverDirectoryEntry, message: String },
}

// ---------------------------------------------------------------------------
// Authorization modes
// ---------------------------------------------------------------------------

/// The mode recorded last for `key` in `entries`, if any.
pub open spec fn mode_of(entries: Seq<(String, AccountAuthorizationMode)>, key: Seq<char>) -> Option<
    AccountAuthorizationMode,
>
    decreases entries.len(),
{
    if entries.len() == 0 {
        None
    } else if entries.last().0@ == key {
        Some(entries.last().1)
    } else {
        mode_of(entries.drop_last(), key)
    }
}

/// Whether the network may be used for `key` under `modes`: an account
/// without a recorded mode is online.
pub open spec fn actions_allowed(modes: Map<Seq<char>, AccountAuthorizationMode>, key: Seq<char>) -> bool {
    !modes.contains_key(key) || modes[key] == AccountAuthorizationMode::Online
}

/// The authorization mode of each account, by account key.
#[derive(Debug)]
pub struct AccountAuthorizationModes {
    entries: Vec<(String, AccountAuthorizationMode)>,
}

impl View for AccountAuthorizationModes {
    type V = Map<Seq<char>, AccountAuthorizationMode>;

    closed spec fn view(&self) -> Map<Seq<char>, AccountAuthorizationMode> {
        Map::new(|k: Seq<char>| mode_of(self.entries@, k) is Some, |k: Seq<char>| mode_of(self.entries@, k).unwrap())
    }
}

proof fn lemma_mode_of_update(
    entries: Seq<(String, AccountAuthorizationMode)>,
    i: int,
    key: String,
    mode: AccountAuthorizationMode,
    k: Seq<char>,
)
    requires
        0 <= i < entries.len(),
        entries[i].0@ == key@,
        forall|j: int| i < j < entries.len() ==> (#[trigger] entries[j]).0@ != key@,
    ensures
        mode_of(entries.update(i, (key, mode)), k) == if k == key@ {
            Some(mode)
        } else {
            mode_of(entries, k)
        },
    decreases entries.len(),
{
    let u = entries.update(i, (key, mode));
    if i == entries.len() - 1 {
        assert(u.drop_last() == entries.drop_last());
    } else {
        assert(u.drop_last() == entries.drop_last().update(i, (key, mode)));
        assert(entries.last() == entries[entries.len() - 1]);
        lemma_mode_of_update(entries.drop_last(), i, key, mode, k);
    }
}

impl AccountAuthorizationModes {
    /// No mode recorded for any account.
    pub fn new() -> (r: Self)
        ensures
            r@ == Map::<Seq<char>, AccountAuthorizationMode>::empty(),
    {
        let r = AccountAuthorizationModes { entries: Vec::new() };
        assert(r@ =~= Map::<Seq<char>, AccountAuthorizationMode>::empty());
        r
    }

    fn position_of(&self, account_key: &str) -> (r: Option<usize>)
        ensures
            match r {
                Some(i) => i < self.entries@.len() && self.entries@[i as int].0@ == account_key@
                    && forall|j: int|
                    i < j < self.entries@.len() ==> (#[trigger] self.entries@[j]).0@ != account_key@,
                None => mode_of(self.entries@, account_key@) is None,
            },
            r is None <==> mode_of(self.entries@, account_key@) is None,
            r matches Some(i) ==> mode_of(self.entries@, account_key@) == Some(self.entries@[i as int].1),
    {
        let mut i = self.entries.len();
        assert(self.entries@.take(i as int) == self.entries@);
        while i > 0
            invariant
                i <= self.entries@.len(),
                forall|j: int| i <= j < self.entries@.len() ==> (#[trigger] self.entries@[j]).0@ != account_key@,
                mode_of(self.entries@, account_key@) == mode_of(self.entries@.take(i as int), account_key@),
            decreases i,
        {
            assert(self.entries@.take(i as int).drop_last() == self.entries@.take(i - 1));
            assert(self.entries@.take(i as int).last() == self.entries@[i - 1]);
            if str_eq(self.entries[i - 1].0.as_str(), account_key) {
                return Some(i - 1);
            }
            i = i - 1;
        }
        None
    }

    /// Whether the account may use the network: it may unless it was marked
    /// as needing to sign in again.
    pub fn network_actions_allowed(&self, account_key: &str) -> (r: bool)
        ensures
            r == actions_allowed(self@, account_key@),
    {
        match self.position_of(account_key) {
            Some(i) => self.entries[i].1 == AccountAuthorizationMode::Online,
            None => true,
        }
    }

    /// Records `mode` for the account.
    pub fn set_authorization_mode(&mut self, account_key: &str, mode: AccountAuthorizationMode)
        ensures
            final(self)@ == old(self)@.insert(account_key@, mode),
    {
        let key = account_key.to_owned();
        match self.position_of(account_key) {
            Some(i) => {
                proof {
                    assert forall|k: Seq<char>| true implies mode_of(self.entries@.update(i as int, (key, mode)), k)
                        == if k == account_key@ { Some(mode) } else { mode_of(self.entries@, k) } by {
                        lemma_mode_of_update(self.entries@, i as int, key, mode, k);
                    }
                }
                self.entries.set(i, (key, mode));
            },
            None => {
                self.entries.push((key, mode));
                assert(self.entries@.drop_last() == old(self).entries@);
            },
        }
        assert(self@ =~= old(self)@.insert(account_key@, mode));
    }

    /// Marks the account as needing to sign in again.
    pub fn mark_reauthentication_required(&mut self, account_key: &str)
        ensures
            final(self)@ == old(self)@.insert(account_key@, AccountAuthorizationMode::ReauthenticationRequired),
    {
        self.set_authorization_mode(account_key, AccountAuthorizationMode::ReauthenticationRequired);
    }
}

/// An account marked as needing to sign in again may not use the network,
/// one set online may, and either leaves every other account as it was.
pub proof fn lemma_authorization_modes(
    modes: Map<Seq<char>, AccountAuthorizationMode>,
    key: Seq<char>,
    other: Seq<char>,
    mode: AccountAuthorizationMode,
)
    requires
        other != key,
    ensures
        !actions_allowed(modes.insert(key, AccountAuthorizationMode::ReauthenticationRequired), key),
        actions_allowed(modes.insert(key, AccountAuthorizationMode::Online), key),
        actions_allowed(modes.insert(key, mode), other) == actions_allowed(modes, other),
{
}

// ---------------------------------------------------------------------------
// Store identifiers
// ---------------------------------------------------------------------------

/// How many random bytes a replacement store id carries.
pub const REPLACEMENT_STORE_ID_RANDOM_BYTES: usize = 8;

/// The id of an account's store: its homeserver and the account hint, each
/// base64url-encoded, behind a version tag.
pub open spec fn account_store_id_spec(homeserver_url: Seq<char>, account_hint: Seq<char>) -> Seq<char> {
    "v1__hs_"@ + base64_url_encode(encode_utf8(homeserver_url)) + "__acct_"@ + base64_url_encode(
        encode_utf8(account_hint),
    )
}

/// The homeserver that a store id names: the text between the version tag
/// and the first `__acct_`, decoded; `None` where any step fails.
pub open spec fn store_id_homeserver(store_id: Seq<char>) -> Option<Seq<char>> {
    if !starts_with(store_id, "v1__hs_"@) {
        None
    } else {
        let rest = store_id.skip(7);
        match first_occurrence_from(rest, "__acct_"@, 0) {
            None => None,
            Some(i) => match base64_url_decode(rest.take(i)) {
                None => None,
                Some(bytes) => if valid_utf8(bytes) {
                    Some(decode_utf8(bytes))
                } else {
                    None
                },
            },
        }
    }
}

/// The key under which secure storage keeps a store's encryption key.
pub fn store_key_entry_id(store_id: &str) -> (r: String)
    ensures
        r@ == "matrix-store-key::"@ + store_id@,
{
    concat2("matrix-store-key::", store_id)
}

/// The id of the store of an account on a homeserver. Where the encoded
/// homeserver holds no `__acct_`, not even across its end, the homeserver
/// can be read back from the id.
pub fn account_store_id(homeserver_url: &str, account_hint: &str) -> (r: String)
    ensures
        r@ == account_store_id_spec(homeserver_url@, account_hint@),
        !seq_contains(base64_url_encode(encode_utf8(homeserver_url@)) + "_"@, "__acct_"@)
            ==> store_id_homeserver(r@) == Some(homeserver_url@),
{
    let homeserver = encode_base64_url(homeserver_url.as_bytes());
    let account = encode_base64_url(account_hint.as_bytes());
    proof {
        if !seq_contains(homeserver@ + "_"@, "__acct_"@) {
            lemma_store_id_round_trip(homeserver_url@, homeserver@, account@);
        }
    }
    let head = concat3("v1__hs_", homeserver.as_str(), "__acct_");
    concat2(head.as_str(), account.as_str())
}

/// The first place where `__acct_` occurs in `enc + "__acct_" + tail` is
/// the end of `enc`, unless `enc + "_"` already holds it.
proof fn lemma_separator_position(enc: Seq<char>, tail: Seq<char>)
    requires
        !seq_contains(enc + "_"@, "__acct_"@),
    ensures
        first_occurrence_from(enc + "__acct_"@ + tail, "__acct_"@, 0) == Some(enc.len() as int),
{
    reveal_strlit("__acct_");
    reveal_strlit("_");
    let sep = "__acct_"@;
    let hay = enc + sep + tail;
    let n = enc.len() as int;
    assert(hay.subrange(n, n + 7) == sep);
    assert(occurs_at(hay, sep, n));
    assert forall|j: int| 0 <= j < n implies !#[trigger] occurs_at(hay, sep, j) by {
        if occurs_at(hay, sep, j) {
            if j + 7 <= n + 1 {
                let e = enc + "_"@;
                assert(e.subrange(j, j + 7) == hay.subrange(j, j + 7));
                assert(occurs_at(e, sep, j));
            } else {
                let k = n - j;
                assert(hay.subrange(j, j + 7)[k] == hay[n]);
                assert(hay.subrange(j, j + 7)[k + 1] == hay[n + 1]);
                assert(hay[n] == '_');
                assert(hay[n + 1] == '_');
            }
        }
    }
    lemma_first_occurrence(hay, sep, 0);
}

proof fn lemma_store_id_round_trip(homeserver_url: Seq<char>, enc: Seq<char>, enc_hint: Seq<char>)
    requires
        enc == base64_url_encode(encode_utf8(homeserver_url)),
        base64_url_decode(enc) == Some(encode_utf8(homeserver_url)),
        !seq_contains(enc + "_"@, "__acct_"@),
    ensures
        store_id_homeserver("v1__hs_"@ + enc + "__acct_"@ + enc_hint) == Some(homeserver_url),
{
    reveal_strlit("v1__hs_");
    let id = "v1__hs_"@ + enc + "__acct_"@ + enc_hint;
    assert(id.take(7) == "v1__hs_"@);
    assert(id.skip(7) == enc + "__acct_"@ + enc_hint);
    lemma_separator_position(enc, enc_hint);
    assert((enc + "__acct_"@ + enc_hint).take(enc.len() as int) == enc);
    vstd::utf8::encode_utf8_valid_utf8(homeserver_url);
    vstd::utf8::encode_utf8_decode_utf8(homeserver_url);
}

/// Reads the homeserver back from a store id.
pub fn decode_homeserver_url_from_store_id(store_id: &str) -> (r: Option<String>)
    ensures
        opt_view(r) == store_id_homeserver(store_id@),
{
    let id = chars_of(store_id);
    let tag = chars_of("v1__hs_");
    proof {
        reveal_strlit("v1__hs_");
    }
    if !starts_with_chars(&id, &tag) {
        return None;
    }
    let rest = crate::rich_text::subvec(&id, 7, id.len());
    assert(rest@ == store_id@.skip(7));
    let sep = chars_of("__acct_");
    let at = match find_from(&rest, &sep, 0) {
        Some(i) => i,
        None => {
            return None;
        },
    };
    let encoded = string_from_range(&rest, 0, at);
    assert(encoded@ == rest@.take(at as int));
    let bytes = match decode_base64_url(encoded.as_str()) {
        Some(b) => b,
        None => {
            return None;
        },
    };
    string_from_utf8(bytes)
}

/// Calls `try_fill_bytes` of rand's `SysRng` on `len` fresh bytes. The
/// bytes are random, so nothing is said of them but their number; an error
/// becomes the context, `": "` and the error's text.
#[verifier::external_body]
pub(crate) fn fill_random_bytes(len: usize, failure_context: &str) -> (r: Result<Vec<u8>, String>)
    ensures
        r matches Ok(b) ==> b@.len() == len,
        r matches Err(e) ==> starts_with(e@, failure_context@ + ": "@),
{
    let mut bytes = vec![0u8; len];
    match rand::rngs::SysRng.try_fill_bytes(&mut bytes) {
        Ok(()) => Ok(bytes),
        Err(error) => Err(format!("{failure_context}: {error}")),
    }
}

/// The id of a fresh store that replaces `base_store_id`, made distinct by
/// the given random bytes.
pub fn replacement_store_id_with_suffix(base_store_id: &str, random_bytes: &[u8]) -> (r: String)
    ensures
        r@ == base_store_id@ + "__fresh_"@ + base64_url_encode(random_bytes@),
{
    let suffix = encode_base64_url(random_bytes);
    concat3(base_store_id, "__fresh_", suffix.as_str())
}

/// The id of a fresh store that replaces `base_store_id`, with a random
/// suffix of `REPLACEMENT_STORE_ID_RANDOM_BYTES` bytes.
pub fn replacement_account_store_id(base_store_id: &str) -> (r: Result<String, String>)
    ensures
        r matches Ok(id) ==> exists|random: Seq<u8>|
            random.len() == REPLACEMENT_STORE_ID_RANDOM_BYTES && id@ == base_store_id@ + "__fresh_"@
                + base64_url_encode(random),
        r matches Err(e) ==> starts_with(e@, "Failed to generate a replacement account store id: "@),
{
    let random = fill_random_bytes(
        REPLACEMENT_STORE_ID_RANDOM_BYTES,
        "Failed to generate a replacement account store id",
    );
    match random {
        Ok(bytes) => {
            let id = replacement_store_id_with_suffix(base_store_id, &bytes);
            Ok(id)
        },
        Err(e) => {
            proof {
                reveal_strlit("Failed to generate a replacement account store id");
                reveal_strlit(": ");
                reveal_strlit("Failed to generate a replacement account store id: ");
                assert("Failed to generate a replacement account store id"@ + ": "@
                    =~= "Failed to generate a replacement account store id: "@);
            }
            Err(e)
        },
    }
}

// ---------------------------------------------------------------------------
// Homeserver directory entries
// ---------------------------------------------------------------------------

/// The first of two optional texts that is present, else the fallback.
pub open spec fn first_present(a: Option<Seq<char>>, b: Option<Seq<char>>, fallback: Seq<char>) -> Seq<char> {
    match a {
        Some(x) => x,
        None => match b {
            Some(y) => y,
            None => fallback,
        },
    }
}

/// A URL as given when it names a scheme, else the `https` URL of it.
pub open spec fn https_url(value: Seq<char>) -> Seq<char> {
    if seq_contains(value, "://"@) {
        value
    } else {
        "https://"@ + value
    }
}

/// The registration methods that an external link serves.
pub open spec fn external_reg_method(method: Option<Seq<char>>) -> bool {
    method == Some("SSO"@) || method == Some("In-house Element"@) || method == Some(
        "Application Form"@,
    )
}

/// The registration flow a directory entry offers: the SDK's when the
/// server uses vanilla registration, an external link when it does not and
/// names a link and an external method, else information only.
pub open spec fn registration_flow_of(entry: HomeserverDirectoryEntry) -> RegistrationFlow {
    if entry.using_vanilla_reg == Some(true) {
        RegistrationFlow::MatrixSdk
    } else if entry.using_vanilla_reg == Some(false) && entry.reg_link is Some && external_reg_method(
        opt_view(entry.reg_method),
    ) {
        RegistrationFlow::ExternalLink
    } else {
        RegistrationFlow::InfoOnly
    }
}

fn clone_first_present(a: &Option<String>, b: &Option<String>, fallback: &String) -> (r: String)
    ensures
        r@ == first_present(opt_view(*a), opt_view(*b), fallback@),
{
    match a {
        Some(x) => x.clone(),
        None => match b {
            Some(y) => y.clone(),
            None => fallback.clone(),
        },
    }
}

/// A URL as given when it names a scheme, else the `https` URL of it.
pub fn ensure_https_url(value: &str) -> (r: String)
    ensures
        r@ == https_url(value@),
{
    if str_contains(value, "://") {
        value.to_owned()
    } else {
        concat2("https://", value)
    }
}

/// The id of a directory entry: its client domain, else its server domain,
/// else its name.
pub fn derive_server_id(homeserver: &HomeserverDirectoryEntry) -> (r: String)
    ensures
        r@ == first_present(opt_view(homeserver.client_domain), opt_view(homeserver.server_domain), homeserver.name@),
{
    clone_first_present(&homeserver.client_domain, &homeserver.server_domain, &homeserver.name)
}

/// The homeserver URL of a directory entry: the `https` URL of its client
/// domain, else of its server domain, else none.
pub fn derive_homeserver_url(homeserver: &HomeserverDirectoryEntry) -> (r: Option<String>)
    ensures
        opt_view(r) == match opt_view(homeserver.client_domain) {
            Some(d) => Some(https_url(d)),
            None => match opt_view(homeserver.server_domain) {
                Some(d) => Some(https_url(d)),
                None => None,
            },
        },
{
    match &homeserver.client_domain {
        Some(d) => Some(ensure_https_url(d.as_str())),
        None => match &homeserver.server_domain {
            Some(d) => Some(ensure_https_url(d.as_str())),
            None => None,
        },
    }
}

/// The server a registration addresses: the entry's server domain, else
/// its client domain, else its homeserver URL, else its id.
pub fn registration_homeserver_target(homeserver: &HomeserverDirectoryEntry) -> (r: String)
    ensures
        r@ == match opt_view(homeserver.server_domain) {
            Some(d) => d,
            None => first_present(
                opt_view(homeserver.client_domain),
                opt_view(homeserver.homeserver_url),
                homeserver.server_id@,
            ),
        },
{
    match &homeserver.server_domain {
        Some(d) => d.clone(),
        None => clone_first_present(&homeserver.client_domain, &homeserver.homeserver_url, &homeserver.server_id),
    }
}

fn is_external_reg_method(method: &Option<String>) -> (r: bool)
    ensures
        r == external_reg_method(opt_view(*method)),
{
    match method {
        Some(m) => {
            proof {
                reveal_strlit("SSO");
                reveal_strlit("In-house Element");
                reveal_strlit("Application Form");
            }
            str_eq(m.as_str(), "SSO") || str_eq(m.as_str(), "In-house Element") || str_eq(
                m.as_str(),
                "Application Form",
            )
        },
        None => false,
    }
}

/// The registration flow a directory entry offers.
pub fn derive_registration_flow(homeserver: &HomeserverDirectoryEntry) -> (r: RegistrationFlow)
    ensures
        r == registration_flow_of(*homeserver),
{
    if homeserver.using_vanilla_reg == Some(true) {
        RegistrationFlow::MatrixSdk
    } else if homeserver.using_vanilla_reg == Some(false) && homeserver.reg_link.is_some()
        && is_external_reg_method(&homeserver.reg_method) {
        RegistrationFlow::ExternalLink
    } else {
        RegistrationFlow::InfoOnly
    }
}

/// Fills in the derived fields of a directory entry: its id, homeserver
/// URL, registration flow, and whether a display name can be set (with the
/// SDK's flow only). The other fields stay as they were.
pub fn enrich_homeserver_entry(homeserver: &mut HomeserverDirectoryEntry)
    ensures
        final(homeserver).server_id@ == first_present(
            opt_view(old(homeserver).client_domain),
            opt_view(old(homeserver).server_domain),
            old(homeserver).name@,
        ),
        opt_view(final(homeserver).homeserver_url) == match opt_view(old(homeserver).client_domain) {
            Some(d) => Some(https_url(d)),
            None => match opt_view(old(homeserver).server_domain) {
                Some(d) => Some(https_url(d)),
                None => None,
            },
        },
        final(homeserver).registration_flow == registration_flow_of(*old(homeserver)),
        final(homeserver).supports_display_name == (final(homeserver).registration_flow
            == RegistrationFlow::MatrixSdk),
        (HomeserverDirectoryEntry {
            server_id: old(homeserver).server_id,
            homeserver_url: old(homeserver).homeserver_url,
            registration_flow: old(homeserver).registration_flow,
            supports_display_name: old(homeserver).supports_display_name,
            ..*final(homeserver)
        }) == *old(homeserver),
{
    let server_id = derive_server_id(homeserver);
    homeserver.server_id = server_id;
    let url = derive_homeserver_url(homeserver);
    homeserver.homeserver_url = url;
    let flow = derive_registration_flow(homeserver);
    homeserver.registration_flow = flow;
    homeserver.supports_display_name = flow == RegistrationFlow::MatrixSdk;
}

/// The outcome that sends the user to the entry's registration link; an
/// error when it names none.
pub fn open_external_registration(homeserver: HomeserverDirectoryEntry) -> (r: Result<RegistrationOutcome, String>)
    ensures
        match r {
            Ok(outcome) => homeserver.reg_link is Some && outcome == RegistrationOutcome::ExternalRegistrationOpened {
                homeserver,
                reg_link: homeserver.reg_link.unwrap(),
            },
            Err(e) => homeserver.reg_link is None && e@
                == "The selected homeserver does not provide a registration link"@,
        },
{
    match &homeserver.reg_link {
        Some(link) => {
            let reg_link = link.clone();
            Ok(RegistrationOutcome::ExternalRegistrationOpened { homeserver, reg_link })
        },
        None => Err("The selected homeserver does not provide a registration link".to_owned()),
    }
}

pub open spec fn uiaa_message_prefix() -> Seq<char> {
    "This homeserver requires interactive registration steps that Hyperion does not support yet. Complete the server's registration flow first, then sign in here. Details: "@
}

/// The outcome of a registration that the server wants to continue with
/// interactive steps: its registration link where it names one, else a
/// message that carries the server's error text.
pub fn handle_uiaa_registration_requirement(homeserver: HomeserverDirectoryEntry, error_text: &str) -> (r: Result<
    RegistrationOutcome,
    String,
>)
    ensures
        match r {
            Ok(RegistrationOutcome::ExternalRegistrationOpened { homeserver: h, reg_link }) => homeserver.reg_link
                == Some(reg_link) && h == homeserver,
            Ok(RegistrationOutcome::InformationOnly { homeserver: h, message }) => homeserver.reg_link is None && h
                == homeserver && message@ == uiaa_message_prefix() + error_text@,
            _ => false,
        },
{
    if homeserver.reg_link.is_some() {
        return open_external_registration(homeserver);
    }
    let message = concat2(
        "This homeserver requires interactive registration steps that Hyperion does not support yet. Complete the server's registration flow first, then sign in here. Details: ",
        error_text,
    );
    Ok(RegistrationOutcome::InformationOnly { homeserver, message })
}

/// Enriches every entry of a fetched homeserver directory, in order.
pub fn enrich_homeserver_directory(directory: HomeserverDirectory) -> (r: HomeserverDirectory)
    ensures
        r.public_servers@.len() == directory.public_servers@.len(),
        forall|i: int|
            0 <= i < r.public_servers@.len() ==> {
                let before = directory.public_servers@[i];
                let after = #[trigger] r.public_servers@[i];
                &&& after.server_id@ == first_present(
                    opt_view(before.client_domain),
                    opt_view(before.server_domain),
                    before.name@,
                )
                &&& after.registration_flow == registration_flow_of(before)
                &&& after.supports_display_name == (after.registration_flow == RegistrationFlow::MatrixSdk)
                &&& opt_view(after.homeserver_url) == match opt_view(before.client_domain) {
                    Some(d) => Some(https_url(d)),
                    None => match opt_view(before.server_domain) {
                        Some(d) => Some(https_url(d)),
                        None => None,
                    },
                }
                &&& (HomeserverDirectoryEntry {
                    server_id: before.server_id,
                    homeserver_url: before.homeserver_url,
                    registration_flow: before.registration_flow,
                    supports_display_name: before.supports_display_name,
                    ..after
                }) == before
            },
{
    let ghost all = directory.public_servers@;
    let total: usize = directory.public_servers.len();
    let mut rest = directory.public_servers;
    let mut out: Vec<HomeserverDirectoryEntry> = Vec::new();
    assert(rest@ == all.skip(0));
    while rest.len() > 0
        invariant
            out@.len() + rest@.len() == all.len(),
            all.len() == total,
            rest@ == all.skip(out@.len() as int),
            forall|i: int|
                0 <= i < out@.len() ==> {
                    let before = all[i];
                    let after = #[trigger] out@[i];
                    &&& after.server_id@ == first_present(
                        opt_view(before.client_domain),
                        opt_view(before.server_domain),
                        before.name@,
                    )
                    &&& after.registration_flow == registration_flow_of(before)
                    &&& after.supports_display_name == (after.registration_flow == RegistrationFlow::MatrixSdk)
                    &&& opt_view(after.homeserver_url) == match opt_view(before.client_domain) {
                        Some(d) => Some(https_url(d)),
                        None => match opt_view(before.server_domain) {
                            Some(d) => Some(https_url(d)),
                            None => None,
                        },
                    }
                    &&& (HomeserverDirectoryEntry {
                        server_id: before.server_id,
                        homeserver_url: before.homeserver_url,
                        registration_flow: before.registration_flow,
                        supports_display_name: before.supports_display_name,
                        ..after
                    }) == before
                },
        decreases rest.len(),
    {
        let mut entry = rest.remove(0);
        enrich_homeserver_entry(&mut entry);
        out.push(entry);
        assert(rest@ == all.skip(out@.len() as int));
    }
    HomeserverDirectory { public_servers: out }
}

/// The directory entry a registration names, by its server id; the first
/// one when several share it.
pub fn select_registration_homeserver(directory: HomeserverDirectory, server_id: &str) -> (r: Result<
    HomeserverDirectoryEntry,
    String,
>)
    ensures
        match r {
            Ok(h) => exists|i: int|
                0 <= i < directory.public_servers@.len() && (#[trigger] directory.public_servers@[i]) == h
                    && h.server_id@ == server_id@ && forall|j: int|
                    0 <= j < i ==> (#[trigger] directory.public_servers@[j]).server_id@ != server_id@,
            Err(e) => (forall|i: int|
                0 <= i < directory.public_servers@.len() ==> (#[trigger] directory.public_servers@[i]).server_id@
                    != server_id@) && e@ == "Unknown homeserver id: "@ + server_id@,
        },
{
    let ghost all = directory.public_servers@;
    let total: usize = directory.public_servers.len();
    let mut rest = directory.public_servers;
    let mut taken: usize = 0;
    assert(rest@ == all.skip(0));
    while rest.len() > 0
        invariant
            taken + rest@.len() == all.len(),
            all.len() == total,
            rest@ == all.skip(taken as int),
            all == directory.public_servers@,
            forall|j: int| 0 <= j < taken ==> (#[trigger] all[j]).server_id@ != server_id@,
        decreases rest.len(),
    {
        let entry = rest.remove(0);
        assert(entry == all[taken as int]);
        if str_eq(entry.server_id.as_str(), server_id) {
            assert(directory.public_servers@[taken as int] == entry);
            return Ok(entry);
        }
        taken = taken + 1;
        assert(rest@ == all.skip(taken as int));
    }
    Err(concat2("Unknown homeserver id: ", server_id))
}

/// The message for a homeserver whose registration flow is not
/// implemented.
pub open spec fn info_only_message() -> Seq<char> {
    "This homeserver uses a registration flow that Hyperion does not implement yet. Present its metadata in the UI for manual guidance."@
}

/// What a registration does next on the chosen homeserver.
#[derive(Debug)]
pub enum RegistrationStep {
    /// Register through the Matrix SDK.
    RegisterWithMatrixSdk(HomeserverDirectoryEntry),
    /// Done without the SDK: a link to open, a message, or an error.
    Finished(Result<RegistrationOutcome, String>),
}

/// The step for the chosen homeserver's registration flow: the SDK for
/// plain registration, its registration link for an external flow, and
/// only its information otherwise.
pub fn registration_step(homeserver: HomeserverDirectoryEntry) -> (r: RegistrationStep)
    ensures
        match homeserver.registration_flow {
            RegistrationFlow::MatrixSdk => r == RegistrationStep::RegisterWithMatrixSdk(homeserver),
            RegistrationFlow::ExternalLink => match r {
                RegistrationStep::Finished(Ok(outcome)) => homeserver.reg_link is Some && outcome
                    == RegistrationOutcome::ExternalRegistrationOpened {
                    homeserver,
                    reg_link: homeserver.reg_link.unwrap(),
                },
                RegistrationStep::Finished(Err(e)) => homeserver.reg_link is None && e@
                    == "The selected homeserver does not provide a registration link"@,
                _ => false,
            },
            RegistrationFlow::InfoOnly => match r {
                RegistrationStep::Finished(Ok(RegistrationOutcome::InformationOnly { homeserver: h, message })) => h
                    == homeserver && message@ == info_only_message(),
                _ => false,
            },
        },
{
    match homeserver.registration_flow {
        RegistrationFlow::MatrixSdk => RegistrationStep::RegisterWithMatrixSdk(homeserver),
        RegistrationFlow::ExternalLink => RegistrationStep::Finished(open_external_registration(homeserver)),
        RegistrationFlow::InfoOnly => RegistrationStep::Finished(
            Ok(
                RegistrationOutcome::InformationOnly {
                    homeserver,
                    message: "This homeserver uses a registration flow that Hyperion does not implement yet. Present its metadata in the UI for manual guidance.".to_owned(),
                },
            ),
        ),
    }
}

/// The client URL a registration through the SDK needs.
pub fn registration_client_url(homeserver: &HomeserverDirectoryEntry) -> (r: Result<String, String>)
    ensures
        match r {
            Ok(url) => homeserver.homeserver_url == Some(url),
            Err(e) => homeserver.homeserver_url is None && e@
                == "The selected homeserver does not expose a client URL"@,
        },
{
    match &homeserver.homeserver_url {
        Some(url) => Ok(url.clone()),
        None => Err("The selected homeserver does not expose a client URL".to_owned()),
    }
}

/// The error of a registration the homeserver refused.
pub fn registration_failed_error(error_text: &str) -> (r: String)
    ensures
        r@ == "Registration failed: "@ + error_text@,
{
    concat2("Registration failed: ", error_text)
}

/// The note on a registration, if any: that setting the display name
/// failed, and that an email was given but is not verified, joined by a
/// space.
pub open spec fn registration_note_spec(display_name_error: Option<Seq<char>>, email_requested: bool) -> Option<
    Seq<char>,
> {
    let email_note = "Email was collected in the request, but Matrix email verification flows are not implemented in Hyperion yet."@;
    match display_name_error {
        Some(e) => {
            let name_note = "The account was created, but setting the display name failed: "@ + e;
            Some(if email_requested { name_note + " "@ + email_note } else { name_note })
        },
        None => if email_requested {
            Some(email_note)
        } else {
            None
        },
    }
}

/// The outcome of a registration through the SDK: the new account, the
/// homeserver, whether an email was given (it is never applied), and the
/// note.
pub fn registered_outcome(
    account: AccountSummary,
    homeserver: HomeserverDirectoryEntry,
    email_requested: bool,
    display_name_error: Option<&str>,
) -> (r: RegistrationOutcome)
    ensures
        match r {
            RegistrationOutcome::Registered { account: a, homeserver: h, email_submitted, email_applied, note } => a
                == account && h == homeserver && email_submitted == email_requested && !email_applied && opt_view(
                note,
            ) == registration_note_spec(
                match display_name_error {
                    Some(e) => Some(e@),
                    None => None,
                },
                email_requested,
            ),
            _ => false,
        },
{
    let email_note = "Email was collected in the request, but Matrix email verification flows are not implemented in Hyperion yet.";
    let note = match display_name_error {
        Some(e) => {
            let name_note = concat2("The account was created, but setting the display name failed: ", e);
            if email_requested {
                Some(concat3(name_note.as_str(), " ", email_note))
            } else {
                Some(name_note)
            }
        },
        None => if email_requested {
            Some(email_note.to_owned())
        } else {
            None
        },
    };
    RegistrationOutcome::Registered { account, homeserver, email_submitted: email_requested, email_applied: false, note }
}

// ---------------------------------------------------------------------------
// Small account rules
// ---------------------------------------------------------------------------

/// Whether the active account is among the removed ones.
pub fn active_account_was_removed(active_account_key: Option<&str>, removed_account_keys: &[String]) -> (r:
    bool)
    ensures
        r == match active_account_key {
            None => false,
            Some(k) => strings_view(removed_account_keys@).contains(k@),
        },
{
    let active = match active_account_key {
        Some(k) => k,
        None => {
            return false;
        },
    };
    let mut i: usize = 0;
    while i < removed_account_keys.len()
        invariant
            i <= removed_account_keys@.len(),
            active_account_key == Some(active),
            forall|j: int| 0 <= j < i ==> (#[trigger] removed_account_keys@[j])@ != active@,
        decreases removed_account_keys.len() - i,
    {
        if str_eq(removed_account_keys[i].as_str(), active) {
            assert(strings_view(removed_account_keys@)[i as int] == active@);
            return true;
        }
        i = i + 1;
    }
    proof {
        if strings_view(removed_account_keys@).contains(active@) {
            let j = choose|j: int|
                0 <= j < strings_view(removed_account_keys@).len() && strings_view(removed_account_keys@)[j]
                    == active@;
            assert(removed_account_keys@[j]@ == active@);
        }
    }
    false
}

/// The message shown when secure storage cannot be used; the provider's
/// own error stays out of it.
pub fn secure_storage_unavailable() -> (r: String)
    ensures
        r@ == "secure_storage_unavailable: encrypted account data cannot be unlocked"@,
{
    "secure_storage_unavailable: encrypted account data cannot be unlocked".to_owned()
}

/// Whether an error says that the crypto store belongs to another account.
pub fn is_stale_crypto_store_error(error_message: &str) -> (r: bool)
    ensures
        r == seq_contains(error_message@, "account in the store doesn't match the account in the constructor"@),
{
    str_contains(error_message, "account in the store doesn't match the account in the constructor")
}

/// The text without its trailing `/` characters.
pub open spec fn without_trailing_slashes(s: Seq<char>) -> Seq<char>
    decreases s.len(),
{
    if s.len() > 0 && s.last() == '/' {
        without_trailing_slashes(s.drop_last())
    } else {
        s
    }
}

/// A client's homeserver URL as accounts record it: without trailing `/`.
pub fn client_homeserver_url(homeserver: &str) -> (r: String)
    ensures
        r@ == without_trailing_slashes(homeserver@),
{
    let v = chars_of(homeserver);
    let mut end = v.len();
    assert(v@.take(end as int) == v@);
    while end > 0 && v[end - 1] == '/'
        invariant
            end <= v@.len(),
            without_trailing_slashes(v@) == without_trailing_slashes(v@.take(end as int)),
        decreases end,
    {
        assert(v@.take(end as int).drop_last() == v@.take(end - 1));
        end = end - 1;
    }
    string_from_range(&v, 0, end)
}

/// Which devices receive the room keys of an account's messages.
#[derive(Debug, Clone, Copy, PartialEq, Eq, Structural)]
pub enum RoomKeyRecipientStrategy {
    OnlyTrustedDevices,
    AllDevices,
}

/// Only trusted devices where the account shares with verified devices
/// only, else all devices.
pub fn room_key_recipient_strategy(preferences: &EncryptionPreferences) -> (r: RoomKeyRecipientStrategy)
    ensures
        r == if preferences.verified_devices_only {
            RoomKeyRecipientStrategy::OnlyTrustedDevices
        } else {
            RoomKeyRecipientStrategy::AllDevices
        },
{
    if preferences.verified_devices_only {
        return RoomKeyRecipientStrategy::OnlyTrustedDevices;
    }
    RoomKeyRecipientStrategy::AllDevices
}

} // verus!
