use lan_manager::channel::{ChannelReply, InboundMessage, RealtimeChannel, command_reply};
use lan_manager::client::{
    classify_peer_error, connect_decision, HealthStatus, KnownDeviceStore, PeerFailure,
    SavedDevice, SecretStore,
};
use lan_manager::models::AuthResult;
use lan_manager::command::CommandPolicy;
use lan_manager::discovery::device_from_resolved;
use lan_manager::models::CommandResult;
use lan_manager::registry::{DeviceRegistry, DiscoveryEvent, NetAddress, TxtProperty};
use lan_manager::auth::AuthManager;
use lan_manager::crypto::calculate_hmac;

fn strings(items: &[&str]) -> Vec<String> {
    items.iter().map(|s| s.to_string()).collect()
}

fn lan_addr(text: &str) -> NetAddress {
    NetAddress { text: text.to_string(), is_ipv4: true, is_loopback: false }
}

fn loopback_addr() -> NetAddress {
    NetAddress { text: "127.0.0.1".to_string(), is_ipv4: true, is_loopback: true }
}

fn v6_addr() -> NetAddress {
    NetAddress { text: "fe80::1".to_string(), is_ipv4: false, is_loopback: false }
}

fn txt(pairs: &[(&str, &str)]) -> Vec<TxtProperty> {
    pairs
        .iter()
        .map(|(k, v)| TxtProperty { key: k.to_string(), value: v.to_string() })
        .collect()
}

fn resolved(service_name: &str, uuid: &str, ip: &str, port: u16) -> DiscoveryEvent {
    DiscoveryEvent::Resolved {
        service_name: service_name.to_string(),
        hostname: "desk.local.".to_string(),
        addresses: vec![lan_addr(ip)],
        port,
        txt: txt(&[("uuid", uuid), ("auth", "required")]),
    }
}

#[test]
fn same_uuid_replaces_the_old_ephemeral_record() {
    let mut registry = DeviceRegistry::new();
    registry.handle_event(resolved("svc", "abc", "192.168.1.7", 9000), 1);
    registry.handle_event(resolved("svc2", "abc", "192.168.1.7", 9001), 2);

    let devices = registry.get_devices();
    assert_eq!(devices.len(), 1);
    assert_eq!(devices[0].uuid, "abc");
    assert_eq!(devices[0].id, "svc2");
    assert_eq!(devices[0].port, 9001);
    assert!(devices.iter().all(|d| d.id != "svc"));

    let by_uuid = registry.get_device_by_uuid("abc").expect("by uuid");
    assert_eq!(by_uuid.port, 9001);
}

#[test]
fn removal_clears_record_and_identity() {
    let mut registry = DeviceRegistry::new();
    registry.handle_event(resolved("svc", "abc", "192.168.1.7", 9000), 1);
    registry.handle_event(
        DiscoveryEvent::Removed { service_name: "svc".to_string() },
        2,
    );
    assert_eq!(registry.count(), 0);
    assert!(registry.get_device_by_uuid("abc").is_none());
    // Removing again is idempotent.
    registry.handle_event(
        DiscoveryEvent::Removed { service_name: "svc".to_string() },
        3,
    );
    assert_eq!(registry.count(), 0);
}

#[test]
fn txt_metadata_is_read_case_insensitively() {
    let d = device_from_resolved(
        "svc".to_string(),
        "desk.local.",
        &vec![lan_addr("10.1.2.3")],
        9000,
        &txt(&[("UUID", "abc"), ("AUTH", "required"), ("VERSION", "2.1.0")]),
        7,
    )
    .expect("device");
    assert_eq!(d.uuid, "abc");
    assert!(d.requires_auth);
    assert_eq!(d.version, "2.1.0");
    assert_eq!(d.name, "desk");
    assert_eq!(d.ip_address, "10.1.2.3");
    assert_eq!(d.discovered_at, 7);
}

#[test]
fn missing_metadata_falls_back() {
    let d = device_from_resolved(
        "svc.fallback".to_string(),
        "host.local",
        &vec![lan_addr("10.1.2.3")],
        9000,
        &txt(&[]),
        0,
    )
    .expect("device");
    assert_eq!(d.uuid, "svc.fallback");
    assert_eq!(d.version, "1.0.0");
    assert!(!d.requires_auth);
    assert_eq!(d.name, "host");

    let none = device_from_resolved(
        "svc".to_string(),
        "host.local.",
        &Vec::new(),
        9000,
        &txt(&[]),
        0,
    );
    assert!(none.is_none());
}

#[test]
fn address_choice_prefers_lan_ipv4() {
    let d = device_from_resolved(
        "svc".to_string(),
        "h.local.",
        &vec![loopback_addr(), v6_addr(), lan_addr("192.168.0.9")],
        1,
        &txt(&[]),
        0,
    )
    .expect("device");
    assert_eq!(d.ip_address, "192.168.0.9");

    let d2 = device_from_resolved(
        "svc".to_string(),
        "h.local.",
        &vec![loopback_addr(), v6_addr()],
        1,
        &txt(&[]),
        0,
    )
    .expect("device");
    assert_eq!(d2.ip_address, "fe80::1");

    let d3 = device_from_resolved(
        "svc".to_string(),
        "h.local.",
        &vec![loopback_addr()],
        1,
        &txt(&[]),
        0,
    )
    .expect("device");
    assert_eq!(d3.ip_address, "127.0.0.1");
}

fn open_policy() -> CommandPolicy {
    CommandPolicy {
        builtin_allow: strings(&["shutdown", "lock"]),
        custom_allow: strings(&[]),
        custom_names: strings(&[]),
    }
}

fn auth_with_session(now: u64) -> (AuthManager, String) {
    let mut auth = AuthManager::new(None, 10);
    auth.set_password("password123").expect("set password");
    let challenge = auth.generate_challenge(now);
    let response = calculate_hmac(&challenge, "password123");
    let grant = auth
        .authenticate(&challenge, &response, "password123", now)
        .expect("login");
    (auth, grant.token)
}

#[test]
fn command_request_before_auth_is_refused_without_invocation() {
    let (mut auth, _token) = auth_with_session(100);
    let mut channel = RealtimeChannel::new();
    let policy = open_policy();

    let outcome = channel.handle_message(
        InboundMessage::CommandRequest {
            id: "req-1".to_string(),
            command: "shutdown".to_string(),
            args: Vec::new(),
        },
        &mut auth,
        &policy,
        101,
    );
    match outcome.reply {
        Some(ChannelReply::Error { message }) => assert_eq!(message, "Not authenticated"),
        other => panic!("unexpected reply: {:?}", other.is_some()),
    }
    assert!(outcome.invoke.is_none());
    assert!(!outcome.close);
}

#[test]
fn channel_authenticates_and_dispatches() {
    let (mut auth, token) = auth_with_session(100);
    let mut channel = RealtimeChannel::new();
    let policy = open_policy();

    // A wrong token leaves the channel unauthenticated.
    let bad = channel.handle_message(
        InboundMessage::Auth { token: "wrong".to_string() },
        &mut auth,
        &policy,
        101,
    );
    assert!(matches!(bad.reply, Some(ChannelReply::AuthError { .. })));

    // The right token authenticates.
    let ok = channel.handle_message(
        InboundMessage::Auth { token: token.clone() },
        &mut auth,
        &policy,
        102,
    );
    assert!(matches!(ok.reply, Some(ChannelReply::AuthSuccess)));

    // An allowed command now yields an invocation and no reply yet.
    let run = channel.handle_message(
        InboundMessage::CommandRequest {
            id: "req-2".to_string(),
            command: "lock".to_string(),
            args: Vec::new(),
        },
        &mut auth,
        &policy,
        103,
    );
    assert!(run.reply.is_none());
    let invocation = run.invoke.expect("invocation");
    assert_eq!(invocation.id, "req-2");
    assert_eq!(invocation.command, "lock");

    // A refused command answers with a failed response instead.
    let refused = channel.handle_message(
        InboundMessage::CommandRequest {
            id: "req-3".to_string(),
            command: "restart".to_string(),
            args: Vec::new(),
        },
        &mut auth,
        &policy,
        104,
    );
    match refused.reply {
        Some(ChannelReply::CommandResponse { id, success, output }) => {
            assert_eq!(id, "req-3");
            assert!(!success);
            assert_eq!(output, "Command is not in whitelist");
        }
        _ => panic!("expected a command response"),
    }
    assert!(refused.invoke.is_none());
}

#[test]
fn ping_malformed_and_close_frames() {
    let mut auth = AuthManager::new(None, 10);
    let mut channel = RealtimeChannel::new();
    let policy = open_policy();

    let pong = channel.handle_message(InboundMessage::Ping, &mut auth, &policy, 1);
    assert!(matches!(pong.reply, Some(ChannelReply::Pong)));
    assert!(!pong.close);

    let bad = channel.handle_message(InboundMessage::Malformed, &mut auth, &policy, 2);
    match bad.reply {
        Some(ChannelReply::Error { message }) => assert_eq!(message, "Invalid message format"),
        _ => panic!("expected an error reply"),
    }
    assert!(!bad.close);

    let done = channel.handle_message(InboundMessage::Close, &mut auth, &policy, 3);
    assert!(done.reply.is_none());
    assert!(done.close);
}

#[test]
fn command_reply_carries_the_right_stream() {
    let ok = CommandResult {
        success: true,
        stdout: "out".to_string(),
        stderr: "err".to_string(),
        exit_code: Some(0),
        execution_time_ms: 4,
    };
    match command_reply("a".to_string(), &ok) {
        ChannelReply::CommandResponse { id, success, output } => {
            assert_eq!(id, "a");
            assert!(success);
            assert_eq!(output, "out");
        }
        _ => panic!("expected a command response"),
    }
    let failed = CommandResult { success: false, ..ok };
    match command_reply("b".to_string(), &failed) {
        ChannelReply::CommandResponse { id, success, output } => {
            assert_eq!(id, "b");
            assert!(!success);
            assert_eq!(output, "err");
        }
        _ => panic!("expected a command response"),
    }
}

fn saved(uuid: &str, id: &str, ip: &str, port: u16) -> SavedDevice {
    SavedDevice {
        id: id.to_string(),
        uuid: uuid.to_string(),
        name: "desk".to_string(),
        ip_address: ip.to_string(),
        port,
        custom_name: None,
        last_connected: None,
        created_at: 1,
    }
}

#[test]
fn saved_devices_merge_by_uuid() {
    let mut store = KnownDeviceStore::new();
    store.save_device(saved("abc", "svc", "10.0.0.2", 9000));
    let mut renamed = saved("abc", "svc2", "10.0.0.3", 9001);
    renamed.created_at = 99;
    store.save_device(renamed);

    let devices = store.get_saved_devices();
    assert_eq!(devices.len(), 1);
    assert_eq!(devices[0].id, "svc2");
    assert_eq!(devices[0].ip_address, "10.0.0.3");
    assert_eq!(devices[0].port, 9001);
    // The first record's creation time survives the merge.
    assert_eq!(devices[0].created_at, 1);
    assert!(store.take_dirty());
    assert!(!store.take_dirty());
}

#[test]
fn discovery_sync_updates_saved_coordinates() {
    let mut store = KnownDeviceStore::new();
    store.save_device(saved("abc", "svc", "10.0.0.2", 9000));
    store.take_dirty();

    let discovered = device_from_resolved(
        "svc2".to_string(),
        "desk.local.",
        &vec![lan_addr("10.0.0.9")],
        9001,
        &txt(&[("uuid", "abc")]),
        5,
    )
    .expect("device");
    store.sync_discovered(&vec![discovered]);

    let devices = store.get_saved_devices();
    assert_eq!(devices.len(), 1);
    assert_eq!(devices[0].id, "svc2");
    assert_eq!(devices[0].ip_address, "10.0.0.9");
    assert_eq!(devices[0].port, 9001);
    assert!(store.take_dirty());
}

#[test]
fn delete_and_rename_accept_either_key() {
    let mut store = KnownDeviceStore::new();
    store.save_device(saved("abc", "svc", "10.0.0.2", 9000));
    store.save_device(saved("def", "svc2", "10.0.0.3", 9001));

    assert!(store.update_device_name("def", "Office"));
    let devices = store.get_saved_devices();
    let office = devices.iter().find(|d| d.uuid == "def").expect("device");
    assert_eq!(office.custom_name.as_deref(), Some("Office"));

    assert!(store.delete_device("svc"));
    assert!(!store.delete_device("svc"));
    assert_eq!(store.get_saved_devices().len(), 1);
}

#[test]
fn secret_store_keeps_one_secret_per_device() {
    let mut store = SecretStore::new();
    store.insert("dev-1".to_string(), "pw-one".to_string());
    store.insert("dev-2".to_string(), "pw-two".to_string());
    store.insert("dev-1".to_string(), "pw-three".to_string());

    assert_eq!(store.get("dev-1").as_deref(), Some("pw-three"));
    assert_eq!(store.get("dev-2").as_deref(), Some("pw-two"));
    assert!(store.get("dev-3").is_none());

    assert!(store.remove("dev-1"));
    assert!(!store.remove("dev-1"));
    assert!(store.get("dev-1").is_none());
}

#[test]
fn peer_errors_classify_exactly() {
    assert!(matches!(
        classify_peer_error("Invalid or expired token"),
        PeerFailure::AuthExpired
    ));
    match classify_peer_error("connection reset") {
        PeerFailure::Other(m) => assert_eq!(m, "connection reset"),
        PeerFailure::AuthExpired => panic!("not an expiry"),
    }
}

#[test]
fn connect_flow_decisions() {
    let down = connect_decision(
        HealthStatus::Unreachable("timed out".to_string()),
        false,
        false,
        None,
    );
    assert!(!down.success);
    assert_eq!(down.error.as_deref(), Some("Connection failed: timed out"));

    let silent = connect_decision(HealthStatus::NotResponding, false, false, None);
    assert!(!silent.success);
    assert_eq!(silent.error.as_deref(), Some("Device not responding"));

    let open = connect_decision(HealthStatus::Responding, false, false, None);
    assert!(open.success);
    assert!(!open.requires_auth);

    let needs_pw = connect_decision(HealthStatus::Responding, true, false, None);
    assert!(!needs_pw.success);
    assert!(needs_pw.requires_auth);
    assert_eq!(needs_pw.error.as_deref(), Some("Password required"));

    let granted = connect_decision(
        HealthStatus::Responding,
        true,
        true,
        Some(AuthResult {
            success: true,
            token: Some("tok".to_string()),
            expires_in: Some(3600),
            error: None,
        }),
    );
    assert!(granted.success);
    assert!(granted.requires_auth);

    let denied = connect_decision(
        HealthStatus::Responding,
        true,
        true,
        Some(AuthResult {
            success: false,
            token: None,
            expires_in: None,
            error: Some("Invalid password".to_string()),
        }),
    );
    assert!(!denied.success);
    assert_eq!(denied.error.as_deref(), Some("Invalid password"));
}

#[test]
fn loading_persisted_records_keeps_the_first_per_identity() {
    let records = vec![
        saved("abc", "svc-a", "10.0.0.1", 9000),
        saved("def", "svc-b", "10.0.0.2", 9001),
        saved("abc", "svc-c", "10.0.0.3", 9002),
    ];
    let mut store = KnownDeviceStore::load(records);
    let devices = store.get_saved_devices();
    assert_eq!(devices.len(), 2);
    assert_eq!(devices[0].uuid, "abc");
    assert_eq!(devices[0].id, "svc-a");
    assert_eq!(devices[1].uuid, "def");
    assert!(!store.take_dirty());
}
