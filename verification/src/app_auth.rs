//! The purchases connection: its saved state, how requests change it, what
//! the settings view shows of it, and which purchased plugins can be
//! installed.

use vstd::prelude::*;
use crate::lookup::{first_index, lemma_first_index_none, lemma_first_index_unique};
use crate::path::{comps_view, components, join_comps, join_string, path_comps, Comp, Component};
use crate::json::{
    bool_field, bool_field_of, first_present_key, first_present_key_of, member_pointer,
    member_pointer_of, node, node_of, string_field, string_field_of, text_of, text_value, JsonNode,
    JsonNodeView,
};
use crate::registry::strings_view;
use crate::runtime::InstalledPluginInfo;
use crate::text::{
    concat3, contains, contains_seq, decimal, str_eq, to_string, trim, trim_str, u64_to_decimal,
};

verus! {

/// The state of the purchases connection.
#[derive(Debug, Clone, Copy, PartialEq, Eq, Structural)]
pub enum ConnectionState {
    NotConnected,
    Pending,
    Connected,
    Expired,
}

pub open spec fn connection_text(s: ConnectionState) -> Seq<char> {
    match s {
        ConnectionState::NotConnected => "not_connected"@,
        ConnectionState::Pending => "pending"@,
        ConnectionState::Connected => "connected"@,
        ConnectionState::Expired => "expired"@,
    }
}

impl ConnectionState {
    pub fn as_str(self) -> (r: &'static str)
        ensures
            r@ == connection_text(self),
    {
        match self {
            ConnectionState::NotConnected => "not_connected",
            ConnectionState::Pending => "pending",
            ConnectionState::Connected => "connected",
            ConnectionState::Expired => "expired",
        }
    }
}

/// A plugin the account can see in the marketplace.
#[derive(Debug, Clone)]
pub struct CachedEntitlement {
    pub plugin_id: String,
    pub name: Option<String>,
    pub owned: bool,
    pub latest_version: Option<String>,
    pub download_url: Option<String>,
    pub buy_url: Option<String>,
    pub homepage_url: Option<String>,
}

/// The saved state of the purchases connection.
#[derive(Debug, Clone)]
pub struct PersistedAppAuthState {
    pub connection_state: ConnectionState,
    pub email: Option<String>,
    pub has_session_token: bool,
    pub pending_email: Option<String>,
    pub pending_request_id: Option<String>,
    pub pending_expires_at: Option<String>,
    pub last_synced_at: Option<String>,
    pub last_error: Option<String>,
    pub storage_warning: Option<String>,
    pub entitlements: Vec<CachedEntitlement>,
}

/// What the settings view shows of the connection.
#[derive(Debug, Clone)]
pub struct PurchaseConnectionSummary {
    pub state: String,
    pub email: Option<String>,
    pub pending_email: Option<String>,
    pub pending_expires_at: Option<String>,
    pub last_synced_at: Option<String>,
    pub has_cached_entitlements: bool,
    pub status_message: Option<String>,
    pub storage_warning: Option<String>,
}

/// A marketplace plugin as the settings view shows it.
#[derive(Debug, Clone)]
pub struct MarketplacePluginSummary {
    pub plugin_id: String,
    pub name: String,
    pub owned: bool,
    pub latest_version: Option<String>,
    pub download_url: Option<String>,
    pub buy_url: Option<String>,
    pub homepage_url: Option<String>,
}

/// Where the connection's state and the plain-text session fallback are
/// kept.
#[derive(Debug, Clone)]
pub struct AppAuthRuntime {
    pub state_path: String,
    pub linux_plaintext_token_path: String,
}

pub open spec fn ov(o: Option<String>) -> Option<Seq<char>> {
    match o {
        Some(s) => Some(s@),
        None => None,
    }
}

fn clone_opt(o: &Option<String>) -> (r: Option<String>)
    ensures
        ov(r) == ov(*o),
{
    match o {
        Some(s) => Some(s.clone()),
        None => None,
    }
}

/// The message shown when the connection says connected but the session is
/// gone.
pub open spec fn reconnect_message() -> Seq<char> {
    "Reconnect purchases to restore the secure session for refresh and install actions."@
}

/// A connection that says connected without a session is shown expired.
pub open spec fn lost_session(s: PersistedAppAuthState) -> bool {
    s.connection_state == ConnectionState::Connected && !s.has_session_token
}

/// The name shown for a marketplace plugin: its own, else the name of the
/// last installed version with its id, else its id.
pub open spec fn shown_name(e: CachedEntitlement, installed: Seq<InstalledPluginInfo>) -> Seq<char> {
    match e.name {
        Some(n) => n@,
        None => match last_index_of_id(installed, e.plugin_id@) {
            Some(k) => installed[k].name@,
            None => e.plugin_id@,
        },
    }
}

/// The index of the last installed entry with this id.
pub open spec fn last_index_of_id(installed: Seq<InstalledPluginInfo>, id: Seq<char>) -> Option<int>
    decreases installed.len(),
{
    if installed.len() == 0 {
        None
    } else if installed.last().id@ == id {
        Some(installed.len() - 1)
    } else {
        last_index_of_id(installed.drop_last(), id)
    }
}

pub open spec fn marketplace_is(m: MarketplacePluginSummary, e: CachedEntitlement, installed: Seq<InstalledPluginInfo>) -> bool {
    &&& m.plugin_id@ == e.plugin_id@
    &&& m.name@ == shown_name(e, installed)
    &&& m.owned == e.owned
    &&& ov(m.latest_version) == ov(e.latest_version)
    &&& ov(m.download_url) == ov(e.download_url)
    &&& ov(m.buy_url) == ov(e.buy_url)
    &&& ov(m.homepage_url) == ov(e.homepage_url)
}

/// The summary of a saved state.
pub open spec fn summary_is(p: PurchaseConnectionSummary, s: PersistedAppAuthState) -> bool {
    &&& p.state@ == connection_text(
        if lost_session(s) {
            ConnectionState::Expired
        } else {
            s.connection_state
        },
    )
    &&& ov(p.email) == ov(s.email)
    &&& ov(p.pending_email) == ov(s.pending_email)
    &&& ov(p.pending_expires_at) == ov(s.pending_expires_at)
    &&& ov(p.last_synced_at) == ov(s.last_synced_at)
    &&& p.has_cached_entitlements == (s.entitlements@.len() > 0)
    &&& ov(p.status_message) == if lost_session(s) {
        Some(reconnect_message())
    } else {
        ov(s.last_error)
    }
    &&& ov(p.storage_warning) == ov(s.storage_warning)
}

fn shown_name_exec(e: &CachedEntitlement, installed: &Vec<InstalledPluginInfo>) -> (r: String)
    ensures
        r@ == shown_name(*e, installed@),
{
    match &e.name {
        Some(n) => n.clone(),
        None => {
            let mut k: usize = installed.len();
            assert(installed@.take(k as int) =~= installed@);
            while k > 0
                invariant
                    k <= installed.len(),
                    e.name is None,
                    last_index_of_id(installed@, e.plugin_id@) == last_index_of_id(
                        installed@.take(k as int),
                        e.plugin_id@,
                    ),
                decreases k,
            {
                assert(installed@.take(k as int).drop_last() =~= installed@.take(k - 1));
                assert(installed@.take(k as int).last() == installed@[k - 1]);
                if str_eq(installed[k - 1].id.as_str(), e.plugin_id.as_str()) {
                    assert(last_index_of_id(installed@.take(k as int), e.plugin_id@) == Some(k - 1));
                    return installed[k - 1].name.clone();
                }
                k = k - 1;
            }
            assert(installed@.take(k as int) =~= Seq::<InstalledPluginInfo>::empty());
            e.plugin_id.clone()
        },
    }
}

impl AppAuthRuntime {
    /// The connection's files in a state directory.
    pub fn new(base_dir: &str) -> (r: AppAuthRuntime)
        ensures
            r.state_path@ == join_comps(path_comps(base_dir@).push(Comp::Normal("app-auth.json"@))),
            r.linux_plaintext_token_path@ == join_comps(
                path_comps(base_dir@).push(Comp::Normal("app-auth-session-token.txt"@)),
            ),
    {
        AppAuthRuntime {
            state_path: file_in(base_dir, "app-auth.json"),
            linux_plaintext_token_path: file_in(base_dir, "app-auth-session-token.txt"),
        }
    }

    /// What the settings view shows: the connection (expired when it says
    /// connected without a session), and each marketplace plugin.
    pub fn purchase_summary(&self, state: &PersistedAppAuthState, installed_plugins: &Vec<InstalledPluginInfo>) -> (r: (
        PurchaseConnectionSummary,
        Vec<MarketplacePluginSummary>,
    ))
        ensures
            summary_is(r.0, *state),
            r.1@.len() == state.entitlements@.len(),
            forall|i: int|
                0 <= i < r.1@.len() ==> marketplace_is(
                    #[trigger] r.1@[i],
                    state.entitlements@[i],
                    installed_plugins@,
                ),
    {
        let lost = match state.connection_state {
            ConnectionState::Connected => !state.has_session_token,
            _ => false,
        };
        let effective = if lost {
            ConnectionState::Expired
        } else {
            state.connection_state
        };
        let status_message = if lost {
            Some(
                to_string(
                    "Reconnect purchases to restore the secure session for refresh and install actions.",
                ),
            )
        } else {
            clone_opt(&state.last_error)
        };
        let mut plugins: Vec<MarketplacePluginSummary> = Vec::new();
        let mut i: usize = 0;
        while i < state.entitlements.len()
            invariant
                i <= state.entitlements.len(),
                plugins@.len() == i,
                forall|j: int|
                    0 <= j < i ==> marketplace_is(
                        #[trigger] plugins@[j],
                        state.entitlements@[j],
                        installed_plugins@,
                    ),
            decreases state.entitlements.len() - i,
        {
            let e = &state.entitlements[i];
            plugins.push(
                MarketplacePluginSummary {
                    plugin_id: e.plugin_id.clone(),
                    name: shown_name_exec(e, installed_plugins),
                    owned: e.owned,
                    latest_version: clone_opt(&e.latest_version),
                    download_url: clone_opt(&e.download_url),
                    buy_url: clone_opt(&e.buy_url),
                    homepage_url: clone_opt(&e.homepage_url),
                },
            );
            i = i + 1;
        }
        (
            PurchaseConnectionSummary {
                state: to_string(effective.as_str()),
                email: clone_opt(&state.email),
                pending_email: clone_opt(&state.pending_email),
                pending_expires_at: clone_opt(&state.pending_expires_at),
                last_synced_at: clone_opt(&state.last_synced_at),
                has_cached_entitlements: state.entitlements.len() > 0,
                status_message,
                storage_warning: clone_opt(&state.storage_warning),
            },
            plugins,
        )
    }
}

fn file_in(dir: &str, name: &str) -> (r: String)
    ensures
        r@ == join_comps(path_comps(dir@).push(Comp::Normal(name@))),
{
    let mut cs = components(dir);
    let n = crate::text::chars_of(name);
    let ghost before = comps_view(cs@);
    cs.push(Component::Normal(n));
    assert(comps_view(cs@) =~= before.push(Comp::Normal(name@)));
    join_string(&cs)
}

/// A refresh failure whose message says that the session is gone: it
/// expires the connection; any other failure is only recorded.
pub open spec fn failure_expires(message: Seq<char>) -> bool {
    contains_seq(message, "expired"@) || contains_seq(message, "401"@) || contains_seq(
        message,
        "Connect purchases before"@,
    )
}

/// Whether a refresh failure expires the connection.
pub fn reconcile_refresh_failure(message: &str) -> (r: bool)
    ensures
        r == failure_expires(message@),
{
    contains(message, "expired") || contains(message, "401") || contains(
        message,
        "Connect purchases before",
    )
}

/// The email address a verification is started for: the trimmed address,
/// which must not be empty.
pub fn required_email(email: &str) -> (r: Result<String, String>)
    ensures
        r is Ok <==> trim(email@).len() > 0,
        r matches Ok(e) ==> e@ == trim(email@),
        r matches Err(m) ==> m@ == "Email is required."@,
{
    let e = trim_str(email);
    if e.as_str().unicode_len() == 0 {
        Err(to_string("Email is required."))
    } else {
        Ok(e)
    }
}

pub open spec fn entitlement_ids(v: Seq<CachedEntitlement>) -> Seq<Seq<char>> {
    v.map_values(|e: CachedEntitlement| e.plugin_id@)
}

/// Where a purchased plugin is downloaded from, or why it cannot be.
pub open spec fn download_of(s: PersistedAppAuthState, plugin_id: Seq<char>) -> Result<Seq<char>, Seq<char>> {
    match first_index(entitlement_ids(s.entitlements@), plugin_id) {
        None => Err("Plugin "@ + plugin_id + " is not available in your purchases."@),
        Some(k) => {
            let e = s.entitlements@[k];
            if !e.owned {
                Err("Plugin "@ + plugin_id + " has not been purchased."@)
            } else {
                match e.download_url {
                    Some(u) => Ok(u@),
                    None => Err("Plugin download is not available for "@ + plugin_id + "."@),
                }
            }
        },
    }
}

/// The download address of a purchased plugin.
pub fn marketplace_download_url(state: &PersistedAppAuthState, plugin_id: &str) -> (r: Result<String, String>)
    ensures
        match (r, download_of(*state, plugin_id@)) {
            (Ok(u), Ok(v)) => u@ == v,
            (Err(e), Err(f)) => e@ == f,
            _ => false,
        },
{
    let ghost keys = entitlement_ids(state.entitlements@);
    let mut i: usize = 0;
    while i < state.entitlements.len()
        invariant
            i <= state.entitlements.len(),
            keys == entitlement_ids(state.entitlements@),
            forall|j: int| 0 <= j < i ==> keys[j] != plugin_id@,
        decreases state.entitlements.len() - i,
    {
        if str_eq(state.entitlements[i].plugin_id.as_str(), plugin_id) {
            proof {
                lemma_first_index_unique(keys, plugin_id@, i as int);
            }
            let e = &state.entitlements[i];
            if !e.owned {
                return Err(concat3("Plugin ", plugin_id, " has not been purchased."));
            }
            return match &e.download_url {
                Some(u) => Ok(u.clone()),
                None => Err(concat3("Plugin download is not available for ", plugin_id, ".")),
            };
        }
        i = i + 1;
    }
    proof {
        lemma_first_index_none(keys, plugin_id@);
    }
    Err(concat3("Plugin ", plugin_id, " is not available in your purchases."))
}

/// The platform name used by the marketplace for an operating system and
/// architecture.
pub open spec fn platform_string_of(os: Seq<char>, arch: Seq<char>) -> Seq<char> {
    match crate::manifest::platform_for(os, arch) {
        Some(p) => crate::manifest::platform_name(p),
        None => os + "-"@ + arch,
    }
}

pub fn current_platform_string(os: &str, arch: &str) -> (r: String)
    ensures
        r@ == platform_string_of(os@, arch@),
{
    match crate::manifest::current_platform(os, arch) {
        Ok(p) => to_string(p.as_str()),
        Err(_) => concat3(os, "-", arch),
    }
}

/// A verification was started for `email`.
pub fn start_pending(state: &mut PersistedAppAuthState, email: String, request_id: String, expires_at: String)
    ensures
        final(state).connection_state == ConnectionState::Pending,
        !final(state).has_session_token,
        ov(final(state).pending_email) == Some(email@),
        ov(final(state).pending_request_id) == Some(request_id@),
        ov(final(state).pending_expires_at) == Some(expires_at@),
        ov(final(state).last_error) == Some("Check your email to approve this device."@),
        ov(final(state).email) == ov(old(state).email),
        ov(final(state).last_synced_at) == ov(old(state).last_synced_at),
        ov(final(state).storage_warning) == ov(old(state).storage_warning),
        final(state).entitlements@ == old(state).entitlements@,
{
    state.connection_state = ConnectionState::Pending;
    state.has_session_token = false;
    state.pending_email = Some(email);
    state.pending_request_id = Some(request_id);
    state.pending_expires_at = Some(expires_at);
    state.last_error = Some(to_string("Check your email to approve this device."));
}

/// The account was connected: the pending request is done, the session is
/// stored, and the entitlements are the ones the service gave.
pub fn persist_connected(
    state: &mut PersistedAppAuthState,
    email: Option<String>,
    entitlements: Vec<CachedEntitlement>,
    synced_at: String,
    plaintext_session: bool,
)
    ensures
        final(state).connection_state == ConnectionState::Connected,
        final(state).has_session_token,
        ov(final(state).email) == ov(email),
        final(state).pending_email is None,
        final(state).pending_request_id is None,
        final(state).pending_expires_at is None,
        ov(final(state).last_synced_at) == Some(synced_at@),
        final(state).last_error is None,
        ov(final(state).storage_warning) == if plaintext_session {
            Some(
                "Secure storage is unavailable on this Linux system. The purchase session is stored in plain text."@,
            )
        } else {
            None
        },
        final(state).entitlements@ == entitlements@,
{
    state.connection_state = ConnectionState::Connected;
    state.email = email;
    state.pending_email = None;
    state.pending_request_id = None;
    state.pending_expires_at = None;
    state.last_synced_at = Some(synced_at);
    state.last_error = None;
    state.has_session_token = true;
    state.storage_warning = if plaintext_session {
        Some(
            to_string(
                "Secure storage is unavailable on this Linux system. The purchase session is stored in plain text.",
            ),
        )
    } else {
        None
    };
    state.entitlements = entitlements;
}

/// The session was found expired: the connection says so and keeps the
/// message.
pub fn mark_expired(state: &mut PersistedAppAuthState, message: &str)
    ensures
        final(state).connection_state == ConnectionState::Expired,
        !final(state).has_session_token,
        final(state).pending_email is None,
        final(state).pending_request_id is None,
        final(state).pending_expires_at is None,
        ov(final(state).last_error) == Some(message@),
        ov(final(state).email) == ov(old(state).email),
        ov(final(state).last_synced_at) == ov(old(state).last_synced_at),
        ov(final(state).storage_warning) == ov(old(state).storage_warning),
        final(state).entitlements@ == old(state).entitlements@,
{
    state.connection_state = ConnectionState::Expired;
    state.has_session_token = false;
    state.pending_email = None;
    state.pending_request_id = None;
    state.pending_expires_at = None;
    state.last_error = Some(to_string(message));
}

/// The user disconnected: everything is forgotten.
pub fn disconnect(state: &mut PersistedAppAuthState)
    ensures
        final(state).connection_state == ConnectionState::NotConnected,
        !final(state).has_session_token,
        final(state).email is None,
        final(state).pending_email is None,
        final(state).pending_request_id is None,
        final(state).pending_expires_at is None,
        final(state).last_synced_at is None,
        final(state).last_error is None,
        final(state).storage_warning is None,
        final(state).entitlements@.len() == 0,
{
    state.connection_state = ConnectionState::NotConnected;
    state.email = None;
    state.has_session_token = false;
    state.pending_email = None;
    state.pending_request_id = None;
    state.pending_expires_at = None;
    state.last_synced_at = None;
    state.last_error = None;
    state.storage_warning = None;
    state.entitlements = Vec::new();
}

// ---------------------------------------------------------------------------
// Entitlements in the service's responses

/// A marketplace plugin the account can see, as a mathematical value.
pub struct EntitlementView {
    pub plugin_id: Seq<char>,
    pub name: Option<Seq<char>>,
    pub owned: bool,
    pub latest_version: Option<Seq<char>>,
    pub download_url: Option<Seq<char>>,
    pub buy_url: Option<Seq<char>>,
    pub homepage_url: Option<Seq<char>>,
}

pub open spec fn entitlement_view(e: CachedEntitlement) -> EntitlementView {
    EntitlementView {
        plugin_id: e.plugin_id@,
        name: ov(e.name),
        owned: e.owned,
        latest_version: ov(e.latest_version),
        download_url: ov(e.download_url),
        buy_url: ov(e.buy_url),
        homepage_url: ov(e.homepage_url),
    }
}

pub open spec fn entitlements_view(v: Seq<CachedEntitlement>) -> Seq<EntitlementView> {
    v.map_values(|e: CachedEntitlement| entitlement_view(e))
}

pub open spec fn or_else(a: Option<Seq<char>>, b: Option<Seq<char>>) -> Option<Seq<char>> {
    match a {
        Some(x) => Some(x),
        None => b,
    }
}

pub open spec fn id_keys() -> Seq<Seq<char>> {
    seq!["plugin_id"@, "id"@, "slug"@]
}

pub open spec fn name_keys() -> Seq<Seq<char>> {
    seq!["name"@, "title"@]
}

pub open spec fn owned_keys() -> Seq<Seq<char>> {
    seq!["owned"@, "purchased"@, "entitled"@, "active"@]
}

pub open spec fn version_keys() -> Seq<Seq<char>> {
    seq!["latest_version"@, "version"@]
}

pub open spec fn platform_version_keys() -> Seq<Seq<char>> {
    seq!["version"@, "latest_version"@]
}

pub open spec fn download_keys() -> Seq<Seq<char>> {
    seq!["download_url"@, "package_url"@, "install_url"@, "asset_url"@]
}

pub open spec fn buy_keys() -> Seq<Seq<char>> {
    seq!["buy_url"@, "product_url"@, "checkout_url"@, "purchase_url"@]
}

pub open spec fn homepage_keys() -> Seq<Seq<char>> {
    seq!["homepage_url"@, "url"@, "homepage"@]
}

/// The names under which a response lists entitlements.
pub open spec fn list_keys() -> Seq<Seq<char>> {
    seq!["entitlements"@, "plugins"@, "items"@]
}

/// A field of the item's entry for `platform` in its `platforms` object
/// (nothing when `platforms` is not an object).
pub open spec fn platform_field_of(doc: Seq<char>, item: Seq<char>, platform: Seq<char>, keys: Seq<Seq<char>>) -> Option<Seq<char>> {
    let platforms = member_pointer(item, "platforms"@);
    if node(doc, platforms) is Object {
        string_field_of(doc, member_pointer(platforms, platform), keys)
    } else {
        None
    }
}

/// The entitlement that the item at pointer `item` of `doc` describes, for
/// a machine of `platform`: none without an id; owned unless it says
/// otherwise; version and download falling back to the platform's entry,
/// the purchase link to `pricing.purchase_url`.
pub open spec fn entitlement_of(doc: Seq<char>, item: Seq<char>, platform: Seq<char>) -> Option<EntitlementView> {
    match string_field_of(doc, item, id_keys()) {
        None => None,
        Some(id) => Some(
            EntitlementView {
                plugin_id: id,
                name: string_field_of(doc, item, name_keys()),
                owned: match bool_field_of(doc, item, owned_keys()) {
                    Some(b) => b,
                    None => true,
                },
                latest_version: or_else(
                    string_field_of(doc, item, version_keys()),
                    platform_field_of(doc, item, platform, platform_version_keys()),
                ),
                download_url: or_else(
                    string_field_of(doc, item, download_keys()),
                    platform_field_of(doc, item, platform, download_keys()),
                ),
                buy_url: or_else(
                    string_field_of(doc, item, buy_keys()),
                    text_value(node(doc, member_pointer(member_pointer(item, "pricing"@), "purchase_url"@))),
                ),
                homepage_url: string_field_of(doc, item, homepage_keys()),
            },
        ),
    }
}

/// The entitlements of the first `n` items of the array at `list`.
pub open spec fn items_of(doc: Seq<char>, list: Seq<char>, platform: Seq<char>, n: nat) -> Seq<
    EntitlementView,
>
    decreases n,
{
    if n == 0 {
        seq![]
    } else {
        let prev = items_of(doc, list, platform, (n - 1) as nat);
        match entitlement_of(doc, member_pointer(list, decimal((n - 1) as nat)), platform) {
            Some(e) => prev.push(e),
            None => prev,
        }
    }
}

/// The entitlements a response lists: the items, with an id, of the first
/// of `entitlements`, `plugins` and `items` that it has, when that is an
/// array.
pub open spec fn entitlements_of(doc: Seq<char>, platform: Seq<char>) -> Seq<EntitlementView> {
    match first_present_key(doc, ""@, list_keys()) {
        Some(k) => match node(doc, member_pointer(""@, k)) {
            JsonNodeView::Array(n) => items_of(doc, member_pointer(""@, k), platform, n),
            _ => seq![],
        },
        None => seq![],
    }
}

fn keys2(a: &str, b: &str) -> (r: Vec<String>)
    ensures
        strings_view(r@) == seq![a@, b@],
{
    let mut r: Vec<String> = Vec::new();
    r.push(to_string(a));
    r.push(to_string(b));
    assert(strings_view(r@) =~= seq![a@, b@]);
    r
}

fn keys3(a: &str, b: &str, c: &str) -> (r: Vec<String>)
    ensures
        strings_view(r@) == seq![a@, b@, c@],
{
    let mut r = keys2(a, b);
    let ghost before = strings_view(r@);
    r.push(to_string(c));
    assert(strings_view(r@) =~= before.push(c@));
    assert(strings_view(r@) =~= seq![a@, b@, c@]);
    r
}

fn keys4(a: &str, b: &str, c: &str, d: &str) -> (r: Vec<String>)
    ensures
        strings_view(r@) == seq![a@, b@, c@, d@],
{
    let mut r = keys3(a, b, c);
    let ghost before = strings_view(r@);
    r.push(to_string(d));
    assert(strings_view(r@) =~= before.push(d@));
    assert(strings_view(r@) =~= seq![a@, b@, c@, d@]);
    r
}

/// The first of two optional texts that is present.
fn first_of(a: Option<String>, b: Option<String>) -> (r: Option<String>)
    ensures
        ov(r) == or_else(ov(a), ov(b)),
{
    match a {
        Some(x) => Some(x),
        None => b,
    }
}

/// Reads one item of a response (at pointer `item` of `doc`; the empty
/// pointer is the whole document) as an entitlement for `platform`.
pub fn parse_entitlement_item(doc: &str, item: &str, platform: &str) -> (r: Option<CachedEntitlement>)
    ensures
        match r {
            Some(e) => entitlement_of(doc@, item@, platform@) == Some(entitlement_view(e)),
            None => entitlement_of(doc@, item@, platform@) is None,
        },
{
    let plugin_id = match string_field(doc, item, &keys3("plugin_id", "id", "slug")) {
        Some(id) => id,
        None => return None,
    };
    let platforms = member_pointer_of(item, "platforms");
    let platforms_object = match node_of(doc, platforms.as_str()) {
        JsonNode::Object => true,
        _ => false,
    };
    let entry = member_pointer_of(platforms.as_str(), platform);
    let platform_version = if platforms_object {
        string_field(doc, entry.as_str(), &keys2("version", "latest_version"))
    } else {
        None
    };
    let download = keys4("download_url", "package_url", "install_url", "asset_url");
    let platform_download = if platforms_object {
        string_field(doc, entry.as_str(), &download)
    } else {
        None
    };
    let pricing = member_pointer_of(item, "pricing");
    let purchase = member_pointer_of(pricing.as_str(), "purchase_url");
    let deep_buy = text_of(&node_of(doc, purchase.as_str()));
    let owned = match bool_field(doc, item, &keys4("owned", "purchased", "entitled", "active")) {
        Some(b) => b,
        None => true,
    };
    Some(
        CachedEntitlement {
            plugin_id,
            name: string_field(doc, item, &keys2("name", "title")),
            owned,
            latest_version: first_of(
                string_field(doc, item, &keys2("latest_version", "version")),
                platform_version,
            ),
            download_url: first_of(string_field(doc, item, &download), platform_download),
            buy_url: first_of(
                string_field(
                    doc,
                    item,
                    &keys4("buy_url", "product_url", "checkout_url", "purchase_url"),
                ),
                deep_buy,
            ),
            homepage_url: string_field(doc, item, &keys3("homepage_url", "url", "homepage")),
        },
    )
}

/// The entitlements a response lists (see `entitlements_of`).
pub fn extract_entitlements(doc: &str, platform: &str) -> (r: Vec<CachedEntitlement>)
    ensures
        entitlements_view(r@) == entitlements_of(doc@, platform@),
{
    let mut out: Vec<CachedEntitlement> = Vec::new();
    let key = match first_present_key_of(doc, "", &keys3("entitlements", "plugins", "items")) {
        Some(k) => k,
        None => {
            assert(entitlements_view(out@) =~= Seq::<EntitlementView>::empty());
            return out;
        },
    };
    let list = member_pointer_of("", key.as_str());
    let n = match node_of(doc, list.as_str()) {
        JsonNode::Array(n) => n,
        _ => {
            assert(entitlements_view(out@) =~= Seq::<EntitlementView>::empty());
            return out;
        },
    };
    let mut i: usize = 0;
    assert(entitlements_view(out@) =~= items_of(doc@, list@, platform@, 0));
    while i < n
        invariant
            i <= n,
            entitlements_view(out@) == items_of(doc@, list@, platform@, i as nat),
        decreases n - i,
    {
        let index = u64_to_decimal(i as u64);
        let item = member_pointer_of(list.as_str(), index.as_str());
        let ghost before = entitlements_view(out@);
        match parse_entitlement_item(doc, item.as_str(), platform) {
            Some(e) => {
                out.push(e);
                assert(entitlements_view(out@) =~= before.push(entitlement_view(e)));
            },
            None => {},
        }
        i = i + 1;
    }
    out
}

} // verus!
