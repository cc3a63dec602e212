use lan_manager::access::{is_ip_blacklisted, BlacklistPolicy};
use lan_manager::command::{
    decide_command, CommandDecision, CommandError, CommandExecutor, CommandPolicy,
};

fn strings(items: &[&str]) -> Vec<String> {
    items.iter().map(|s| s.to_string()).collect()
}

fn blacklist(enabled: bool, entries: &[&str]) -> BlacklistPolicy {
    BlacklistPolicy { enabled, entries: strings(entries) }
}

#[test]
fn wildcard_blacklist_matches_within_a_segment() {
    let policy = blacklist(true, &["10.0.0.*"]);
    assert!(is_ip_blacklisted("10.0.0.5:51342", &policy));
    assert!(!is_ip_blacklisted("10.0.1.5:1", &policy));

    let disabled = blacklist(false, &["10.0.0.*"]);
    assert!(!is_ip_blacklisted("10.0.0.5:51342", &disabled));
    assert!(!is_ip_blacklisted("10.0.1.5:1", &disabled));
}

#[test]
fn wildcard_does_not_cross_a_dot() {
    let policy = blacklist(true, &["192.168.1.*"]);
    assert!(is_ip_blacklisted("192.168.1.50:80", &policy));
    assert!(!is_ip_blacklisted("192.168.2.50:80", &policy));
    assert!(!is_ip_blacklisted("192.168.1.5.1:80", &policy));
}

#[test]
fn exact_entries_and_trimming() {
    let policy = blacklist(true, &[" 172.16.0.9 "]);
    assert!(is_ip_blacklisted("172.16.0.9:4711", &policy));
    assert!(is_ip_blacklisted("172.16.0.9", &policy));
    assert!(!is_ip_blacklisted("172.16.0.90:4711", &policy));
}

#[test]
fn empty_blacklist_blocks_nothing() {
    let policy = blacklist(true, &[]);
    assert!(!is_ip_blacklisted("10.0.0.5:1", &policy));
}

fn policy(builtin: &[&str], custom_allow: &[&str], custom_names: &[&str]) -> CommandPolicy {
    CommandPolicy {
        builtin_allow: strings(builtin),
        custom_allow: strings(custom_allow),
        custom_names: strings(custom_names),
    }
}

#[test]
fn custom_invocation_resolves_and_is_authorized() {
    let p = policy(&["custom"], &["ping"], &["ping"]);
    let decision = decide_command(&p, "custom", &strings(&["ping 127.0.0.1"]));
    match decision {
        CommandDecision::Approved { command, args } => {
            assert_eq!(command, "ping");
            assert_eq!(args, strings(&["127.0.0.1"]));
        }
        CommandDecision::Rejected { .. } => panic!("expected approval"),
    }
}

#[test]
fn custom_master_switch_gates_custom_commands() {
    let p = policy(&[], &["ping"], &["ping"]);
    let decision = decide_command(&p, "custom", &strings(&["ping 127.0.0.1"]));
    assert!(matches!(
        decision,
        CommandDecision::Rejected { error: CommandError::CustomDisabled }
    ));
}

#[test]
fn unlisted_custom_command_is_not_whitelisted() {
    let p = policy(&["custom"], &[], &["ping"]);
    let decision = decide_command(&p, "ping", &strings(&["127.0.0.1"]));
    assert!(matches!(
        decision,
        CommandDecision::Rejected { error: CommandError::NotWhitelisted }
    ));
}

#[test]
fn split_forms_reach_the_same_decision() {
    let p = policy(&["custom"], &["ping"], &["ping"]);
    for (cmd, args) in [
        ("ping", strings(&["127.0.0.1"])),
        ("ping 127.0.0.1", strings(&[])),
        ("custom", strings(&["ping 127.0.0.1"])),
    ] {
        match decide_command(&p, cmd, &args) {
            CommandDecision::Approved { command, args } => {
                assert_eq!(command, "ping");
                assert_eq!(args, strings(&["127.0.0.1"]));
            }
            CommandDecision::Rejected { .. } => panic!("expected approval for {cmd}"),
        }
    }
}

#[test]
fn builtins_need_their_whitelist_entry() {
    let p = policy(&["shutdown", "lock"], &[], &[]);
    assert!(matches!(
        decide_command(&p, "shutdown", &strings(&["30"])),
        CommandDecision::Approved { .. }
    ));
    assert!(matches!(
        decide_command(&p, "restart", &strings(&[])),
        CommandDecision::Rejected { error: CommandError::NotWhitelisted }
    ));
    assert!(matches!(
        decide_command(&p, "frobnicate", &strings(&[])),
        CommandDecision::Rejected { error: CommandError::UnknownCommand }
    ));
}

#[test]
fn executor_exposes_its_policy() {
    let exec = CommandExecutor::new(policy(&["shutdown"], &["ping"], &["ping"]));
    assert_eq!(exec.timeout_seconds, 30);
    assert_eq!(exec.get_whitelist(), strings(&["shutdown", "ping"]));
    assert!(exec.is_allowed("shutdown"));
    assert!(exec.is_allowed("ping"));
    assert!(!exec.is_allowed("restart"));
    assert!(matches!(
        exec.execute("shutdown", &strings(&[])),
        CommandDecision::Approved { .. }
    ));
}

#[test]
fn several_wildcards_match_segment_by_segment() {
    let policy = blacklist(true, &["10.*.0.*"]);
    assert!(is_ip_blacklisted("10.5.0.7:80", &policy));
    assert!(!is_ip_blacklisted("10.5.1.7:80", &policy));
    assert!(!is_ip_blacklisted("11.5.0.7:80", &policy));
}

#[test]
fn split_head_prepends_its_tail_to_explicit_args() {
    let p = policy(&["custom"], &["ping"], &["ping"]);
    match decide_command(&p, "ping 127.0.0.1", &strings(&["-c", "3"])) {
        CommandDecision::Approved { command, args } => {
            assert_eq!(command, "ping");
            assert_eq!(args, strings(&["127.0.0.1", "-c", "3"]));
        }
        CommandDecision::Rejected { .. } => panic!("expected approval"),
    }
}
