use igrok::telemetry::context::{collect_git_context, git_walk_step, GitWalkStep};
use igrok::telemetry::external::{
    export_health, is_active, is_settings_gate_open, mark_external_otel_settings_resolved,
    set_settings_gate_max_wait, settings_gate_max_wait, settings_gate_window_expired, settings_resolved,
    suppress_external_otel_until_settings, CredentialSnapshot, IdentityAttrs, SettingsGate,
};
use igrok::telemetry::otel_layer::{otel_guard, shutdown_otel, OtelExporterConfig};
use igrok::telemetry::sentry::{flush_on_shutdown, init, Config, ReportingScope};

#[test]
fn settings_switch_starts_open() {
    let gate = SettingsGate::new();
    assert!(is_settings_gate_open(&gate, 0));
    assert_eq!(settings_gate_max_wait(&gate), 30_000);
}

#[test]
fn closed_switch_fails_closed_until_the_window_runs_out() {
    let mut gate = SettingsGate::new();
    set_settings_gate_max_wait(&mut gate, 1_000);
    suppress_external_otel_until_settings(&mut gate, 5_000);
    assert!(!is_settings_gate_open(&gate, 5_000));
    assert!(!is_settings_gate_open(&gate, 5_999));
    assert!(!settings_gate_window_expired(&gate, 5_999));
    assert!(is_settings_gate_open(&gate, 6_000));
    assert!(!is_settings_gate_open(&gate, 4_000));
    assert!(!settings_resolved(&gate));
    assert!(mark_external_otel_settings_resolved(&mut gate));
    assert!(settings_resolved(&gate));
    assert!(is_settings_gate_open(&gate, 5_000));
    assert!(!mark_external_otel_settings_resolved(&mut gate));
}

#[test]
fn max_wait_saturates() {
    let mut gate = SettingsGate::new();
    set_settings_gate_max_wait(&mut gate, u128::MAX);
    assert_eq!(settings_gate_max_wait(&gate), u64::MAX);
    set_settings_gate_max_wait(&mut gate, 0);
    suppress_external_otel_until_settings(&mut gate, 10);
    assert!(is_settings_gate_open(&gate, 10));
}

#[test]
fn stream_stays_inactive() {
    assert!(!is_active());
    assert!(export_health().is_none());
    shutdown_otel();
    let _g = otel_guard();
    flush_on_shutdown();
    let cfg = OtelExporterConfig::default();
    assert!(!cfg.enabled);
}

#[test]
fn identity_attributes_copy_the_snapshot() {
    let snap = CredentialSnapshot {
        user_id: Some("u".to_string()),
        organization_id: None,
        team_id: Some("t".to_string()),
        deployment_id: None,
    };
    let attrs = IdentityAttrs::from_snapshot(&snap);
    assert_eq!(attrs.user_id.as_deref(), Some("u"));
    assert_eq!(attrs.organization_id, None);
    assert_eq!(attrs.team_id.as_deref(), Some("t"));
}

#[test]
fn reporting_keeps_the_first_config() {
    let mut scope = ReportingScope::new();
    let _ = init(&mut scope, Config { client: "a", client_version: "1", release: "r", disabled: false });
    let _ = init(&mut scope, Config { client: "b", client_version: "2", release: "s", disabled: true });
    assert_eq!(scope.config.as_ref().unwrap().client, "a");
}

#[test]
fn git_context_outside_any_repository() {
    assert!(!collect_git_context("/nonexistent-igrok-dir/sub").is_git_repo);
    // "/" exists but holds no ".git": only the marker path may count.
    assert!(!collect_git_context("/").is_git_repo);
}

#[test]
fn git_walk_steps_up_until_found_or_root() {
    assert!(matches!(git_walk_step("/a/b", true), GitWalkStep::Found));
    assert!(matches!(git_walk_step("/a/b", false), GitWalkStep::Up(p) if p == "/a"));
    assert!(matches!(git_walk_step("/", false), GitWalkStep::Stop));
    assert!(matches!(git_walk_step("", false), GitWalkStep::Stop));
}
