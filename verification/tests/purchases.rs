use searchmonkey::app_auth::{
    current_platform_string, disconnect, extract_entitlements, mark_expired,
    marketplace_download_url, parse_entitlement_item, persist_connected, reconcile_refresh_failure, required_email, start_pending, AppAuthRuntime,
    CachedEntitlement, ConnectionState, PersistedAppAuthState,
};
use searchmonkey::json::{first_member_of, member_pointer_of, node_of, string_field, JsonNode};
use searchmonkey::runtime::{InstalledPluginInfo, PluginCapabilitySummary};

fn state() -> PersistedAppAuthState {
    PersistedAppAuthState {
        connection_state: ConnectionState::NotConnected,
        email: None,
        has_session_token: false,
        pending_email: None,
        pending_request_id: None,
        pending_expires_at: None,
        last_synced_at: None,
        last_error: None,
        storage_warning: None,
        entitlements: Vec::new(),
    }
}

fn entitlement(id: &str, name: Option<&str>, owned: bool, url: Option<&str>) -> CachedEntitlement {
    CachedEntitlement {
        plugin_id: id.to_string(),
        name: name.map(|n| n.to_string()),
        owned,
        latest_version: Some("0.2.9".to_string()),
        download_url: url.map(|u| u.to_string()),
        buy_url: None,
        homepage_url: None,
    }
}

fn installed(id: &str, name: &str) -> InstalledPluginInfo {
    InstalledPluginInfo {
        id: id.to_string(),
        name: name.to_string(),
        version: "1.0.0".to_string(),
        is_active: true,
        enabled: true,
        requires_entitlement: true,
        handles: Vec::new(),
        root_path: "/p".to_string(),
        capabilities: PluginCapabilitySummary { text: true, layout: false, ocr: false },
    }
}

#[test]
fn summary_shows_lost_sessions_as_expired() {
    let rt = AppAuthRuntime::new("/home/u/.config/searchmonkey-3");
    assert_eq!(rt.state_path, "/home/u/.config/searchmonkey-3/app-auth.json");
    assert_eq!(
        rt.linux_plaintext_token_path,
        "/home/u/.config/searchmonkey-3/app-auth-session-token.txt"
    );
    let mut s = state();
    s.connection_state = ConnectionState::Connected;
    s.last_error = Some("old".to_string());
    s.entitlements = vec![
        entitlement("sm.plugin.pdf", None, true, None),
        entitlement("sm.plugin.ocr", None, false, None),
        entitlement("sm.plugin.x", Some("X"), true, None),
    ];
    let installed = vec![installed("sm.plugin.pdf", "PDF old"), installed("sm.plugin.pdf", "PDF")];
    let (summary, plugins) = rt.purchase_summary(&s, &installed);
    assert_eq!(summary.state, "expired");
    assert_eq!(
        summary.status_message.as_deref(),
        Some("Reconnect purchases to restore the secure session for refresh and install actions.")
    );
    assert!(summary.has_cached_entitlements);
    assert_eq!(plugins[0].name, "PDF");
    assert_eq!(plugins[1].name, "sm.plugin.ocr");
    assert_eq!(plugins[2].name, "X");
    assert!(!plugins[1].owned);

    s.has_session_token = true;
    let (summary, _) = rt.purchase_summary(&s, &Vec::new());
    assert_eq!(summary.state, "connected");
    assert_eq!(summary.status_message.as_deref(), Some("old"));
}

#[test]
fn connection_state_changes() {
    let mut s = state();
    start_pending(&mut s, "a@b.c".to_string(), "req-1".to_string(), "2026-01-01T00:10:00Z".to_string());
    assert_eq!(s.connection_state, ConnectionState::Pending);
    assert_eq!(s.pending_request_id.as_deref(), Some("req-1"));
    assert_eq!(s.last_error.as_deref(), Some("Check your email to approve this device."));
    persist_connected(
        &mut s,
        Some("a@b.c".to_string()),
        vec![entitlement("sm.plugin.pdf", None, true, Some("https://dl/pdf"))],
        "2026-01-01T00:05:00Z".to_string(),
        true,
    );
    assert_eq!(s.connection_state, ConnectionState::Connected);
    assert!(s.has_session_token);
    assert!(s.pending_request_id.is_none());
    assert!(s.storage_warning.is_some());
    assert_eq!(marketplace_download_url(&s, "sm.plugin.pdf"), Ok("https://dl/pdf".to_string()));
    assert_eq!(
        marketplace_download_url(&s, "sm.plugin.ocr"),
        Err("Plugin sm.plugin.ocr is not available in your purchases.".to_string())
    );
    mark_expired(&mut s, "Your purchase connection has expired.");
    assert_eq!(s.connection_state, ConnectionState::Expired);
    assert!(!s.has_session_token);
    assert_eq!(s.entitlements.len(), 1);
    disconnect(&mut s);
    assert_eq!(s.connection_state, ConnectionState::NotConnected);
    assert!(s.entitlements.is_empty());
    assert_eq!(ConnectionState::NotConnected.as_str(), "not_connected");
}

#[test]
fn downloads_need_ownership_and_an_address() {
    let mut s = state();
    s.entitlements = vec![
        entitlement("a", None, false, Some("u")),
        entitlement("b", None, true, None),
    ];
    assert_eq!(marketplace_download_url(&s, "a"), Err("Plugin a has not been purchased.".to_string()));
    assert_eq!(
        marketplace_download_url(&s, "b"),
        Err("Plugin download is not available for b.".to_string())
    );
}

#[test]
fn refresh_failures_that_expire_the_session() {
    assert!(reconcile_refresh_failure("Your purchase connection has expired."));
    assert!(reconcile_refresh_failure("Purchase refresh failed with 401 Unauthorized"));
    assert!(reconcile_refresh_failure("Connect purchases before refreshing."));
    assert!(!reconcile_refresh_failure("Purchase refresh failed with 500"));
    assert_eq!(required_email("  a@b.c "), Ok("a@b.c".to_string()));
    assert_eq!(required_email("   "), Err("Email is required.".to_string()));
    assert_eq!(current_platform_string("macos", "aarch64"), "macos-arm64");
    assert_eq!(current_platform_string("freebsd", "x86_64"), "freebsd-x86_64");
}

#[test]
fn parses_catalog_style_plugin_payload() {
    let current_platform = current_platform_string("linux", "x86_64");
    let download_url = format!(
        "https://searchmonkey.dev/api/plugins/sm.plugin.pdf/download?platform={current_platform}"
    );
    let doc = format!(
        r#"{{
            "id": "sm.plugin.pdf",
            "name": "PDF Extractor",
            "latest_version": "0.2.9",
            "homepage_url": "https://searchmonkey.dev/plugins/sm.plugin.pdf",
            "platforms": {{
                "{current_platform}": {{
                    "version": "0.2.9",
                    "download_url": "{download_url}"
                }}
            }},
            "pricing": {{
                "purchase_url": "https://buy.stripe.com/example"
            }}
        }}"#
    );
    let plugin = parse_entitlement_item(&doc, "", &current_platform).expect("plugin should parse");

    assert_eq!(plugin.plugin_id, "sm.plugin.pdf");
    assert_eq!(plugin.latest_version.as_deref(), Some("0.2.9"));
    assert_eq!(plugin.download_url.as_deref(), Some(download_url.as_str()));
    assert_eq!(plugin.buy_url.as_deref(), Some("https://buy.stripe.com/example"));
}

#[test]
fn extracts_plugins_from_catalog_root() {
    let doc = r#"{
        "schema": "sm.plugin-catalog.v1",
        "plugins": [
            {
                "id": "sm.plugin.ocr",
                "name": "Image OCR",
                "latest_version": "0.1.9",
                "platforms": {
                    "linux-x64": {
                        "version": "0.1.9",
                        "download_url": "https://searchmonkey.dev/api/plugins/sm.plugin.ocr/download?platform=linux-x64"
                    }
                }
            }
        ]
    }"#;
    let entitlements = extract_entitlements(doc, "linux-x64");

    assert_eq!(entitlements.len(), 1);
    assert_eq!(entitlements[0].plugin_id, "sm.plugin.ocr");
    assert_eq!(entitlements[0].latest_version.as_deref(), Some("0.1.9"));
}

#[test]
fn entitlement_fields_fall_back_in_order() {
    let doc = r#"{
        "slug": "  sm.plugin.x  ",
        "title": "X",
        "purchased": false,
        "platforms": { "macos-arm64": { "latest_version": "2.0.0", "asset_url": " https://a/x.smplugin " } },
        "url": "https://x.example"
    }"#;
    let e = parse_entitlement_item(doc, "", "macos-arm64").unwrap();
    assert_eq!(e.plugin_id, "sm.plugin.x");
    assert_eq!(e.name.as_deref(), Some("X"));
    assert!(!e.owned);
    assert_eq!(e.latest_version.as_deref(), Some("2.0.0"));
    assert_eq!(e.download_url.as_deref(), Some("https://a/x.smplugin"));
    assert!(e.buy_url.is_none());
    assert_eq!(e.homepage_url.as_deref(), Some("https://x.example"));

    // Another platform's entry is not used, and owned is the default.
    let e = parse_entitlement_item(doc, "", "linux-x64").unwrap();
    assert!(e.latest_version.is_none() && e.download_url.is_none());

    // The first name that is present decides, even when it is not text.
    assert!(parse_entitlement_item(r#"{"plugin_id": 5, "id": "x"}"#, "", "linux-x64").is_none());
    assert!(parse_entitlement_item(r#"{"id": "   "}"#, "", "linux-x64").is_none());
    assert!(parse_entitlement_item("not json", "", "linux-x64").is_none());
}

#[test]
fn entitlements_come_from_the_first_list_present() {
    let doc = r#"{"items": [{"id": "a"}, {"name": "no id"}, {"id": "b", "owned": true}]}"#;
    let list = extract_entitlements(doc, "linux-x64");
    let ids: Vec<&str> = list.iter().map(|e| e.plugin_id.as_str()).collect();
    assert_eq!(ids, vec!["a", "b"]);

    // `entitlements` is present but not a list: nothing, even with `items`.
    let doc = r#"{"entitlements": null, "items": [{"id": "a"}]}"#;
    assert!(extract_entitlements(doc, "linux-x64").is_empty());
    assert!(extract_entitlements("[1, 2]", "linux-x64").is_empty());
}

#[test]
fn reads_json_by_pointer() {
    let doc = r#"{"a/b": {"~k": [true, null, 3, "t"]}}"#;
    assert_eq!(member_pointer_of("", "a/b"), "/a~1b");
    let inner = member_pointer_of(&member_pointer_of("", "a/b"), "~k");
    assert_eq!(inner, "/a~1b/~0k");
    assert_eq!(node_of(doc, &inner), JsonNode::Array(4));
    assert_eq!(node_of(doc, &format!("{inner}/0")), JsonNode::Bool(true));
    assert_eq!(node_of(doc, &format!("{inner}/1")), JsonNode::Null);
    assert_eq!(node_of(doc, &format!("{inner}/2")), JsonNode::Number);
    assert_eq!(node_of(doc, &format!("{inner}/3")), JsonNode::Str("t".to_string()));
    assert_eq!(node_of(doc, "/missing"), JsonNode::Absent);
    assert_eq!(node_of(doc, ""), JsonNode::Object);
    let keys = vec!["x".to_string(), "a/b".to_string()];
    assert_eq!(first_member_of(doc, "", &keys), JsonNode::Object);
    assert_eq!(string_field(r#"{"s": " v "}"#, "", &vec!["s".to_string()]).as_deref(), Some("v"));
}
