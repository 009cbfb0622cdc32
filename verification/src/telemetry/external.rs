//! External telemetry stream: the fail-closed settings switch and the inert
//! lifecycle entry points (the stream never activates).
//!
//! The switch starts open. The leader closes it before init (and on account
//! switch) and opens it when remote settings resolve; a closed switch also
//! counts as open once it has been closed for the configured maximum wait,
//! so a missing policy cannot hold emission back forever.

use vstd::prelude::*;

verus! {

/// Identity attributes (plain id strings, never tokens).
#[derive(Clone, Debug, Default)]
pub struct IdentityAttrs {
    pub user_id: Option<String>,
    pub organization_id: Option<String>,
    pub team_id: Option<String>,
    pub deployment_id: Option<String>,
}

/// The identity part of a credential snapshot, as identity attributes read it.
#[derive(Clone, Debug, Default)]
pub struct CredentialSnapshot {
    pub user_id: Option<String>,
    pub organization_id: Option<String>,
    pub team_id: Option<String>,
    pub deployment_id: Option<String>,
}

fn clone_opt(s: &Option<String>) -> (r: Option<String>)
    ensures
        r == *s,
{
    match s {
        Some(v) => Some(v.clone()),
        None => None,
    }
}

impl IdentityAttrs {
    /// The identity attributes of a credential snapshot.
    pub fn from_snapshot(snapshot: &CredentialSnapshot) -> (r: Self)
        ensures
            r.user_id == snapshot.user_id,
            r.organization_id == snapshot.organization_id,
            r.team_id == snapshot.team_id,
            r.deployment_id == snapshot.deployment_id,
    {
        IdentityAttrs {
            user_id: clone_opt(&snapshot.user_id),
            organization_id: clone_opt(&snapshot.organization_id),
            team_id: clone_opt(&snapshot.team_id),
            deployment_id: clone_opt(&snapshot.deployment_id),
        }
    }
}

/// Remote-settings policy for the external stream; restrictive only.
#[derive(Clone, Copy, Debug, Default)]
pub struct ExternalOtelRemotePolicy {
    /// Flush, then drop subsequent emissions in-process.
    pub force_disable: bool,
    /// Force the content gates off regardless of local env/config.
    pub lock_content_gates: bool,
}

/// Snapshot of export-health counters.
#[derive(Clone, Copy, Debug, Default, PartialEq, Eq)]
pub struct ExportHealthSnapshot {
    pub records_dropped: u64,
    pub metric_exports_dropped: u64,
    pub export_failures: u64,
    pub export_successes: u64,
}

/// The default bound on the fail-closed window, in milliseconds (30 s).
pub const DEFAULT_SETTINGS_GATE_MAX_WAIT_MS: u64 = 30_000;

/// The state of the settings switch.
pub struct SettingsGate {
    resolved: bool,
    max_wait_ms: u64,
    closed_at_ms: u64,
}

/// The switch as contracts see it.
pub ghost struct GateState {
    /// Settings have resolved (or the switch was never closed).
    pub resolved: bool,
    /// The bound on the fail-closed window, in milliseconds.
    pub max_wait_ms: nat,
    /// Process uptime (ms) at the last close.
    pub closed_at_ms: nat,
}

impl View for SettingsGate {
    type V = GateState;

    closed spec fn view(&self) -> GateState {
        GateState {
            resolved: self.resolved,
            max_wait_ms: self.max_wait_ms as nat,
            closed_at_ms: self.closed_at_ms as nat,
        }
    }
}

/// The closed window has lasted at least the maximum wait at uptime `now_ms`
/// (a clock reading before the close counts as no time waited).
pub open spec fn window_expired(g: GateState, now_ms: nat) -> bool {
    let waited = if now_ms >= g.closed_at_ms { now_ms - g.closed_at_ms } else { 0 };
    waited >= g.max_wait_ms
}

/// Emission is allowed at uptime `now_ms`.
pub open spec fn gate_open(g: GateState, now_ms: nat) -> bool {
    g.resolved || window_expired(g, now_ms)
}

impl SettingsGate {
    /// The switch at process start: open, with the default maximum wait.
    pub fn new() -> (g: Self)
        ensures
            g@.resolved,
            g@.max_wait_ms == DEFAULT_SETTINGS_GATE_MAX_WAIT_MS,
            g@.closed_at_ms == 0,
    {
        SettingsGate {
            resolved: true,
            max_wait_ms: DEFAULT_SETTINGS_GATE_MAX_WAIT_MS,
            closed_at_ms: 0,
        }
    }
}

/// Sets the bound on the fail-closed window (milliseconds, saturating at
/// `u64::MAX`).
pub fn set_settings_gate_max_wait(gate: &mut SettingsGate, max_wait_ms: u128)
    ensures
        final(gate)@.max_wait_ms == if max_wait_ms <= u64::MAX { max_wait_ms as nat } else {
            u64::MAX as nat
        },
        final(gate)@.resolved == old(gate)@.resolved,
        final(gate)@.closed_at_ms == old(gate)@.closed_at_ms,
{
    gate.max_wait_ms = if max_wait_ms <= u64::MAX as u128 {
        max_wait_ms as u64
    } else {
        u64::MAX
    };
}

/// The current bound on the fail-closed window, in milliseconds.
pub fn settings_gate_max_wait(gate: &SettingsGate) -> (ms: u64)
    ensures
        ms == gate@.max_wait_ms,
{
    gate.max_wait_ms
}

/// Closes the switch at uptime `now_ms` (leader preinit, account switch).
pub fn suppress_external_otel_until_settings(gate: &mut SettingsGate, now_ms: u64)
    ensures
        !final(gate)@.resolved,
        final(gate)@.closed_at_ms == now_ms,
        final(gate)@.max_wait_ms == old(gate)@.max_wait_ms,
{
    gate.closed_at_ms = now_ms;
    gate.resolved = false;
}

/// Opens the switch: settings have resolved. Returns whether it was closed
/// before (the moment worth logging).
pub fn mark_external_otel_settings_resolved(gate: &mut SettingsGate) -> (was_closed: bool)
    ensures
        final(gate)@.resolved,
        final(gate)@.closed_at_ms == old(gate)@.closed_at_ms,
        final(gate)@.max_wait_ms == old(gate)@.max_wait_ms,
        was_closed == !old(gate)@.resolved,
{
    let was_closed = !gate.resolved;
    gate.resolved = true;
    was_closed
}

/// Whether settings have resolved, so that the switch is open for good.
pub fn settings_resolved(gate: &SettingsGate) -> (r: bool)
    ensures
        r == gate@.resolved,
{
    gate.resolved
}

/// Whether the closed window has run out at uptime `now_ms`.
pub fn settings_gate_window_expired(gate: &SettingsGate, now_ms: u64) -> (r: bool)
    ensures
        r == window_expired(gate@, now_ms as nat),
{
    let waited = now_ms.saturating_sub(gate.closed_at_ms);
    waited >= gate.max_wait_ms
}

/// Whether emission is allowed at uptime `now_ms`.
pub fn is_settings_gate_open(gate: &SettingsGate, now_ms: u64) -> (r: bool)
    ensures
        r == gate_open(gate@, now_ms as nat),
{
    gate.resolved || settings_gate_window_expired(gate, now_ms)
}

/// Fail-closed: right after a close at `t`, the switch stays closed for every
/// moment before `t + max_wait`, and opens by itself from then on.
pub proof fn lemma_closed_window(g: GateState, t: nat, now_ms: nat)
    requires
        !g.resolved,
        g.closed_at_ms == t,
    ensures
        t <= now_ms < t + g.max_wait_ms ==> !gate_open(g, now_ms),
        now_ms >= t + g.max_wait_ms ==> gate_open(g, now_ms),
{
}

/// Resolving settings opens the switch at every moment, whatever came before.
pub proof fn lemma_resolved_open(g: GateState, now_ms: nat)
    requires
        g.resolved,
    ensures
        gate_open(g, now_ms),
{
}

/// Once open by expiry, a closed switch stays open as time goes on.
pub proof fn lemma_expiry_monotone(g: GateState, t1: nat, t2: nat)
    requires
        t1 <= t2,
        gate_open(g, t1),
    ensures
        gate_open(g, t2),
{
}

/// Initializes the external stream. It never activates.
pub fn init<C>(cfg: Option<C>) {
}

/// Whether the external stream is active: never.
pub fn is_active() -> (r: bool)
    ensures
        !r,
{
    false
}

/// Emits one telemetry event: dropped, the stream being inactive.
pub fn emit<T>(data: &T) {
}

/// Stores identity attributes: no consumer, nothing is kept.
pub fn set_identity(attrs: IdentityAttrs) {
}

/// Applies a remote policy: nothing to tighten on an inactive stream.
pub fn apply_remote_policy(policy: ExternalOtelRemotePolicy) {
}

/// Flushes in-flight exports: there are none.
pub fn flush() {
}

/// Shuts the stream down: nothing to stop.
pub fn shutdown() {
}

/// Export-health counters: none, as there are no exporters.
pub fn export_health() -> (r: Option<ExportHealthSnapshot>)
    ensures
        r is None,
{
    None
}

} // verus!
