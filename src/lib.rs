//! Remediation control plane for a fleet of validator nodes: the shared data
//! model, hard-coded playbooks, checks on planner output, and the per-validator
//! action queues and metrics store that agents attach to.

mod channel;
pub mod clock;
pub mod control;
pub mod plan;
pub mod playbook;
pub mod text;
mod types;

pub use clock::{now_ts, unix_seconds};
pub use playbook::choose_playbook;
pub use types::{
    action_views, validator_id, Action, ActionEnvelope, ActionResult, ActionView,
    AgenticDecision, Config, ConnectRequest, IssueKind, MetricsUpdate, MetricsUpdateView,
    MetricsWatchRequest, Playbook, ValidatorConfig, ValidatorId,
};
