//! Turning a planner's proposed remediation plan into a playbook. Every action
//! must be of a known kind and carry the fields its kind requires; nothing
//! malformed is coerced.
use crate::types::{action_views, Action, ActionView, AgenticDecision, IssueKind, Playbook, ValidatorId};
use vstd::prelude::*;
use crate::text::{blank, is_blank};
use vstd::string::StringExecFns;

verus! {

/// Why a proposed plan was rejected.
#[derive(Debug, Clone, Copy, PartialEq, Eq, Structural)]
pub enum PlanError {
    /// A `run_maintenance_script` step without a script name.
    MissingScriptName,
    /// A `send_alert` step without a message.
    MissingMessage,
    /// The plan holds no step.
    NoActions,
}

/// The kinds of step a planner may propose.
#[derive(Debug, Clone, Copy, PartialEq, Eq, Structural)]
pub enum LlmActionKind {
    DisableRpc,
    EnableRpc,
    RestartValidator,
    ThrottleRpcClient,
    RunMaintenanceScript,
    SendAlert,
}

/// One proposed step, as the planner wrote it.
#[derive(Debug)]
pub struct LlmActionSpec {
    pub kind: LlmActionKind,
    pub message: Option<String>,
    pub script_name: Option<String>,
}

/// A proposed plan, as the planner wrote it.
#[derive(Debug)]
pub struct LlmPlan {
    pub playbook_id: String,
    pub rationale: Option<String>,
    pub actions: Vec<LlmActionSpec>,
}

/// A field that is present and not blank.
pub open spec fn filled(f: Option<String>) -> Option<Seq<char>> {
    match f {
        Some(s) => if blank(s@) {
            None
        } else {
            Some(s@)
        },
        None => None,
    }
}

/// The action a proposed step stands for on validator `v`.
pub open spec fn step_action(step: LlmActionSpec, v: Seq<char>) -> Result<ActionView, PlanError> {
    match step.kind {
        LlmActionKind::DisableRpc => Ok(ActionView::DisableRpc { validator: v }),
        LlmActionKind::EnableRpc => Ok(ActionView::EnableRpc { validator: v }),
        LlmActionKind::RestartValidator => Ok(ActionView::RestartValidator { validator: v }),
        LlmActionKind::ThrottleRpcClient => Ok(ActionView::ThrottleRpcClient { validator: v }),
        LlmActionKind::RunMaintenanceScript => match filled(step.script_name) {
            Some(s) => Ok(ActionView::RunMaintenanceScript { validator: v, script_name: s }),
            None => Err(PlanError::MissingScriptName),
        },
        LlmActionKind::SendAlert => match filled(step.message) {
            Some(m) => Ok(ActionView::SendAlert { validator: v, message: m }),
            None => Err(PlanError::MissingMessage),
        },
    }
}

/// The actions of a list of steps, or the error of the first bad one.
pub open spec fn steps_actions(steps: Seq<LlmActionSpec>, v: Seq<char>) -> Result<
    Seq<ActionView>,
    PlanError,
>
    decreases steps.len(),
{
    if steps.len() == 0 {
        Ok(Seq::empty())
    } else {
        match steps_actions(steps.drop_last(), v) {
            Err(e) => Err(e),
            Ok(prev) => match step_action(steps.last(), v) {
                Err(e) => Err(e),
                Ok(a) => Ok(prev.push(a)),
            },
        }
    }
}

/// The picture of an action result.
pub open spec fn action_result_view(r: Result<Action, PlanError>) -> Result<ActionView, PlanError> {
    match r {
        Ok(a) => Ok(a@),
        Err(e) => Err(e),
    }
}

/// The playbook id given to a plan that came without one.
pub open spec fn default_plan_id(issue: IssueKind) -> Seq<char> {
    match issue {
        IssueKind::SlotLagHigh => "agentic-slotlaghigh"@,
        IssueKind::VoteFailureSpike => "agentic-votefailurespike"@,
        IssueKind::HardwareOverload => "agentic-hardwareoverload"@,
        IssueKind::DiskAlmostFull => "agentic-diskalmostfull"@,
        IssueKind::RpcOverload => "agentic-rpcoverload"@,
        IssueKind::NetworkUnstable => "agentic-networkunstable"@,
        IssueKind::Unknown => "agentic-unknown"@,
    }
}

/// The playbook id given to a plan that came without one: the issue's name,
/// in lower case, after `agentic-`.
pub fn default_playbook_id(issue: IssueKind) -> (r: String)
    ensures
        r@ == default_plan_id(issue),
{
    match issue {
        IssueKind::SlotLagHigh => String::from_str("agentic-slotlaghigh"),
        IssueKind::VoteFailureSpike => String::from_str("agentic-votefailurespike"),
        IssueKind::HardwareOverload => String::from_str("agentic-hardwareoverload"),
        IssueKind::DiskAlmostFull => String::from_str("agentic-diskalmostfull"),
        IssueKind::RpcOverload => String::from_str("agentic-rpcoverload"),
        IssueKind::NetworkUnstable => String::from_str("agentic-networkunstable"),
        IssueKind::Unknown => String::from_str("agentic-unknown"),
    }
}

/// The picture of a decision: playbook id, trigger, steps and rationale.
pub open spec fn decision_view(d: AgenticDecision) -> (
    Seq<char>,
    IssueKind,
    Seq<ActionView>,
    Option<Seq<char>>,
) {
    (d.playbook.id@, d.playbook.trigger, action_views(d.playbook.steps@), match d.rationale {
        Some(r) => Some(r@),
        None => None,
    })
}

/// The decision a plan stands for, for `issue` on validator `v`.
pub open spec fn plan_decision(plan: LlmPlan, issue: IssueKind, v: Seq<char>) -> Result<
    (Seq<char>, IssueKind, Seq<ActionView>, Option<Seq<char>>),
    PlanError,
> {
    match steps_actions(plan.actions@, v) {
        Err(e) => Err(e),
        Ok(steps) => if steps.len() == 0 {
            Err(PlanError::NoActions)
        } else {
            Ok(
                (
                    if blank(plan.playbook_id@) {
                        default_plan_id(issue)
                    } else {
                        plan.playbook_id@
                    },
                    issue,
                    steps,
                    filled(plan.rationale),
                ),
            )
        },
    }
}

/// The picture of a decision result.
pub open spec fn decision_result_view(r: Result<AgenticDecision, PlanError>) -> Result<
    (Seq<char>, IssueKind, Seq<ActionView>, Option<Seq<char>>),
    PlanError,
> {
    match r {
        Ok(d) => Ok(decision_view(d)),
        Err(e) => Err(e),
    }
}

/// A field's value if it is present and not blank.
fn take_filled(f: Option<String>) -> (r: Option<String>)
    ensures
        match r {
            Some(s) => filled(f) == Some(s@),
            None => filled(f) is None,
        },
{
    match f {
        Some(s) => if is_blank(s.as_str()) {
            None
        } else {
            Some(s)
        },
        None => None,
    }
}

impl LlmActionSpec {
    /// The action this step stands for on `validator`.
    pub fn into_action(self, validator: &ValidatorId) -> (r: Result<Action, PlanError>)
        ensures
            action_result_view(r) == step_action(self, validator.0@),
    {
        let v = ValidatorId(validator.0.clone());
        match self.kind {
            LlmActionKind::DisableRpc => Ok(Action::DisableRpc { validator: v }),
            LlmActionKind::EnableRpc => Ok(Action::EnableRpc { validator: v }),
            LlmActionKind::RestartValidator => Ok(Action::RestartValidator { validator: v }),
            LlmActionKind::ThrottleRpcClient => Ok(Action::ThrottleRpcClient { validator: v }),
            LlmActionKind::RunMaintenanceScript => match take_filled(self.script_name) {
                Some(script_name) => Ok(Action::RunMaintenanceScript { validator: v, script_name }),
                None => Err(PlanError::MissingScriptName),
            },
            LlmActionKind::SendAlert => match take_filled(self.message) {
                Some(message) => Ok(Action::SendAlert { validator: v, message }),
                None => Err(PlanError::MissingMessage),
            },
        }
    }
}

impl LlmPlan {
    /// The playbook this plan stands for: every step must be a valid action,
    /// and there must be at least one. A blank playbook id is replaced by one
    /// named after the issue; a blank rationale is dropped.
    pub fn into_decision(self, issue: IssueKind, validator: &ValidatorId) -> (r: Result<
        AgenticDecision,
        PlanError,
    >)
        ensures
            decision_result_view(r) == plan_decision(self, issue, validator.0@),
    {
        let ghost specs = self.actions@;
        let ghost v = validator.0@;
        let mut rest = self.actions;
        let mut steps: Vec<Action> = Vec::new();
        let ghost mut k: int = 0;
        assert(specs.take(0) =~= Seq::<LlmActionSpec>::empty());
        assert(action_views(steps@) =~= Seq::<ActionView>::empty());
        while rest.len() > 0
            invariant
                0 <= k <= specs.len(),
                v == validator.0@,
                specs == self.actions@,
                rest@ == specs.skip(k),
                steps_actions(specs.take(k), v) == Ok::<Seq<ActionView>, PlanError>(
                    action_views(steps@),
                ),
            decreases rest@.len(),
        {
            let step = rest.remove(0);
            assert(step == specs[k]);
            assert(specs.take(k + 1).drop_last() =~= specs.take(k));
            assert(specs.take(k + 1).last() == step);
            let ghost before = steps@;
            assert(steps_actions(specs.take(k + 1), v) == match steps_actions(specs.take(k), v) {
                Err(e) => Err(e),
                Ok(prev) => match step_action(step, v) {
                    Err(e) => Err(e),
                    Ok(a) => Ok(prev.push(a)),
                },
            });
            match step.into_action(validator) {
                Ok(a) => {
                    steps.push(a);
                    assert(action_views(steps@) =~= action_views(before).push(a@));
                },
                Err(e) => {
                    proof {
                        lemma_steps_error_stays(specs, v, k + 1);
                    }
                    return Err(e);
                },
            }
            proof {
                k = k + 1;
            }
            assert(rest@ =~= specs.skip(k));
        }
        assert(specs.take(k) =~= specs);
        if steps.len() == 0 {
            return Err(PlanError::NoActions);
        }
        let id = if is_blank(self.playbook_id.as_str()) {
            default_playbook_id(issue)
        } else {
            self.playbook_id
        };
        let rationale = take_filled(self.rationale);
        Ok(AgenticDecision { playbook: Playbook { id, trigger: issue, steps }, rationale })
    }
}

/// Once a prefix of the steps fails, every longer prefix fails the same way.
proof fn lemma_steps_error_stays(specs: Seq<LlmActionSpec>, v: Seq<char>, n: int)
    requires
        0 <= n <= specs.len(),
        steps_actions(specs.take(n), v) is Err,
    ensures
        steps_actions(specs, v) == steps_actions(specs.take(n), v),
    decreases specs.len() - n,
{
    if n < specs.len() {
        assert(specs.take(n + 1).drop_last() =~= specs.take(n));
        lemma_steps_error_stays(specs, v, n + 1);
    } else {
        assert(specs.take(n) =~= specs);
    }
}

} // verus!
