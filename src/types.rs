use vstd::prelude::*;

verus! {

/// Stable identity of a managed validator node.
#[derive(Debug, Clone, PartialEq, Eq, Hash)]
pub struct ValidatorId(pub String);

/// Class of operational problem detected from a validator's metrics.
#[derive(Debug, Clone, Copy, PartialEq, Eq, Structural)]
pub enum IssueKind {
    SlotLagHigh,
    VoteFailureSpike,
    HardwareOverload,
    DiskAlmostFull,
    RpcOverload,
    NetworkUnstable,
    Unknown,
}

/// A remediation step addressed to one validator.
#[derive(Debug, Clone, PartialEq)]
pub enum Action {
    DisableRpc { validator: ValidatorId },
    EnableRpc { validator: ValidatorId },
    RestartValidator { validator: ValidatorId },
    ThrottleRpcClient { validator: ValidatorId },
    RunMaintenanceScript { validator: ValidatorId, script_name: String },
    SendAlert { validator: ValidatorId, message: String },
}

/// Mathematical picture of an [`Action`]: every string is its character sequence.
pub enum ActionView {
    DisableRpc { validator: Seq<char> },
    EnableRpc { validator: Seq<char> },
    RestartValidator { validator: Seq<char> },
    ThrottleRpcClient { validator: Seq<char> },
    RunMaintenanceScript { validator: Seq<char>, script_name: Seq<char> },
    SendAlert { validator: Seq<char>, message: Seq<char> },
}

impl View for Action {
    type V = ActionView;

    open spec fn view(&self) -> ActionView {
        match self {
            Action::DisableRpc { validator } => ActionView::DisableRpc { validator: validator.0@ },
            Action::EnableRpc { validator } => ActionView::EnableRpc { validator: validator.0@ },
            Action::RestartValidator { validator } => ActionView::RestartValidator {
                validator: validator.0@,
            },
            Action::ThrottleRpcClient { validator } => ActionView::ThrottleRpcClient {
                validator: validator.0@,
            },
            Action::RunMaintenanceScript { validator, script_name } =>
                ActionView::RunMaintenanceScript {
                    validator: validator.0@,
                    script_name: script_name@,
                },
            Action::SendAlert { validator, message } => ActionView::SendAlert {
                validator: validator.0@,
                message: message@,
            },
        }
    }
}

impl ActionView {
    /// The validator an action is addressed to.
    pub open spec fn target(self) -> Seq<char> {
        match self {
            ActionView::DisableRpc { validator } => validator,
            ActionView::EnableRpc { validator } => validator,
            ActionView::RestartValidator { validator } => validator,
            ActionView::ThrottleRpcClient { validator } => validator,
            ActionView::RunMaintenanceScript { validator, .. } => validator,
            ActionView::SendAlert { validator, .. } => validator,
        }
    }
}

/// The views of a list of actions.
pub open spec fn action_views(steps: Seq<Action>) -> Seq<ActionView> {
    steps.map_values(|a: Action| a@)
}

/// An ordered list of remediation steps chosen for one kind of issue.
#[derive(Debug, Clone, PartialEq)]
pub struct Playbook {
    pub id: String,
    pub trigger: IssueKind,
    pub steps: Vec<Action>,
}

/// A plan proposed by the planner, with its stated reason if it gave one.
#[derive(Debug, Clone)]
pub struct AgenticDecision {
    pub playbook: Playbook,
    pub rationale: Option<String>,
}

/// Registry entry of one validator: where it runs and the secret it presents.
#[derive(Debug, Clone, PartialEq, Eq)]
pub struct ValidatorConfig {
    pub id: ValidatorId,
    pub host: String,
    pub prometheus_url: String,
    pub auth_token: String,
}

/// Process configuration: the validator registry and the Redis endpoint.
#[derive(Debug, Clone, PartialEq)]
pub struct Config {
    pub validators: Vec<ValidatorConfig>,
    pub redis_url: String,
}

/// An agent's request to attach its action stream.
#[derive(Debug, Clone)]
pub struct ConnectRequest {
    pub validator_id: String,
    pub auth_token: String,
}

/// The unit of transport and queueing: a serialized action for one validator.
#[derive(Debug, Clone)]
pub struct ActionEnvelope {
    pub validator_id: String,
    pub action_json: String,
}

/// An agent's report on the outcome of one action.
#[derive(Debug, Clone)]
pub struct ActionResult {
    pub validator_id: String,
    pub action_json: String,
    pub success: bool,
    pub message: String,
}

/// A metrics publication; the secret is present on the way in only.
#[derive(Debug, Clone)]
pub struct MetricsUpdate {
    pub validator_id: String,
    pub auth_token: String,
    pub metrics_json: String,
}

/// Mathematical picture of a [`MetricsUpdate`].
pub struct MetricsUpdateView {
    pub validator_id: Seq<char>,
    pub auth_token: Seq<char>,
    pub metrics_json: Seq<char>,
}

impl View for MetricsUpdate {
    type V = MetricsUpdateView;

    open spec fn view(&self) -> MetricsUpdateView {
        MetricsUpdateView {
            validator_id: self.validator_id@,
            auth_token: self.auth_token@,
            metrics_json: self.metrics_json@,
        }
    }
}

/// A metrics subscription: which validators (none listed means all), and
/// whether the current values come first.
#[derive(Debug, Clone)]
pub struct MetricsWatchRequest {
    pub validator_ids: Vec<String>,
    pub include_snapshot: bool,
}

/// The validator id embedded in an action.
pub fn validator_id(action: &Action) -> (r: String)
    ensures
        r@ == action@.target(),
{
    match action {
        Action::DisableRpc { validator }
        | Action::EnableRpc { validator }
        | Action::RestartValidator { validator }
        | Action::ThrottleRpcClient { validator }
        | Action::RunMaintenanceScript { validator, .. }
        | Action::SendAlert { validator, .. } => validator.0.clone(),
    }
}

} // verus!
