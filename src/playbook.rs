//! Hard-coded remediation playbooks and the local command behind each action.
use crate::types::{action_views, Action, ActionView, IssueKind, Playbook, ValidatorId};
use vstd::prelude::*;
use vstd::string::StringExecFns;

verus! {

/// The playbook id chosen for an issue.
pub open spec fn playbook_id_for(issue: IssueKind) -> Seq<char> {
    match issue {
        IssueKind::SlotLagHigh => "slot-lag-recovery"@,
        IssueKind::RpcOverload => "rpc-overload"@,
        IssueKind::DiskAlmostFull => "disk-cleanup"@,
        IssueKind::HardwareOverload => "hardware-throttle"@,
        IssueKind::VoteFailureSpike => "vote-health"@,
        _ => "unknown-issue"@,
    }
}

/// The steps chosen for an issue on validator `v`.
pub open spec fn steps_for(issue: IssueKind, v: Seq<char>) -> Seq<ActionView> {
    match issue {
        IssueKind::SlotLagHigh => seq![
            ActionView::DisableRpc { validator: v },
            ActionView::RestartValidator { validator: v },
            ActionView::EnableRpc { validator: v },
        ],
        IssueKind::RpcOverload => seq![
            ActionView::ThrottleRpcClient { validator: v },
            ActionView::SendAlert { validator: v, message: "RPC overload detected"@ },
        ],
        IssueKind::DiskAlmostFull => seq![
            ActionView::RunMaintenanceScript { validator: v, script_name: "cleanup-logs.sh"@ },
        ],
        IssueKind::HardwareOverload => seq![
            ActionView::DisableRpc { validator: v },
            ActionView::SendAlert { validator: v, message: "Hardware overload detected"@ },
        ],
        IssueKind::VoteFailureSpike => seq![
            ActionView::SendAlert { validator: v, message: "Vote success degraded"@ },
        ],
        _ => seq![ActionView::SendAlert { validator: v, message: "Unknown issue detected"@ }],
    }
}

fn copy_id(validator: &ValidatorId) -> (r: ValidatorId)
    ensures
        r.0@ == validator.0@,
{
    ValidatorId(validator.0.clone())
}

/// The hard-coded playbook for an issue on one validator.
pub fn choose_playbook(issue: IssueKind, validator: &ValidatorId) -> (r: Playbook)
    ensures
        r.id@ == playbook_id_for(issue),
        r.trigger == issue,
        action_views(r.steps@) == steps_for(issue, validator.0@),
{
    let (id, steps) = match issue {
        IssueKind::SlotLagHigh => (
            String::from_str("slot-lag-recovery"),
            vec![
                Action::DisableRpc { validator: copy_id(validator) },
                Action::RestartValidator { validator: copy_id(validator) },
                Action::EnableRpc { validator: copy_id(validator) },
            ],
        ),
        IssueKind::RpcOverload => (
            String::from_str("rpc-overload"),
            vec![
                Action::ThrottleRpcClient { validator: copy_id(validator) },
                Action::SendAlert {
                    validator: copy_id(validator),
                    message: String::from_str("RPC overload detected"),
                },
            ],
        ),
        IssueKind::DiskAlmostFull => (
            String::from_str("disk-cleanup"),
            vec![
                Action::RunMaintenanceScript {
                    validator: copy_id(validator),
                    script_name: String::from_str("cleanup-logs.sh"),
                },
            ],
        ),
        IssueKind::HardwareOverload => (
            String::from_str("hardware-throttle"),
            vec![
                Action::DisableRpc { validator: copy_id(validator) },
                Action::SendAlert {
                    validator: copy_id(validator),
                    message: String::from_str("Hardware overload detected"),
                },
            ],
        ),
        IssueKind::VoteFailureSpike => (
            String::from_str("vote-health"),
            vec![
                Action::SendAlert {
                    validator: copy_id(validator),
                    message: String::from_str("Vote success degraded"),
                },
            ],
        ),
        _ => (
            String::from_str("unknown-issue"),
            vec![
                Action::SendAlert {
                    validator: copy_id(validator),
                    message: String::from_str("Unknown issue detected"),
                },
            ],
        ),
    };
    assert(action_views(steps@) =~= steps_for(issue, validator.0@));
    Playbook { id, trigger: issue, steps }
}

/// The shell command that carries out an action on the validator's host.
pub open spec fn command_for(a: ActionView) -> Seq<char> {
    match a {
        ActionView::DisableRpc { .. } => "echo disabling rpc"@,
        ActionView::EnableRpc { .. } => "echo enabling rpc"@,
        ActionView::RestartValidator { .. } => "echo restarting validator"@,
        ActionView::ThrottleRpcClient { .. } => "echo throttling rpc client"@,
        ActionView::RunMaintenanceScript { script_name, .. } => "sh "@ + script_name,
        ActionView::SendAlert { message, .. } => "echo alert: "@ + message,
    }
}

/// The shell command that carries out an action on the validator's host.
pub fn action_command(action: &Action) -> (r: String)
    ensures
        r@ == command_for(action@),
{
    match action {
        Action::DisableRpc { .. } => String::from_str("echo disabling rpc"),
        Action::EnableRpc { .. } => String::from_str("echo enabling rpc"),
        Action::RestartValidator { .. } => String::from_str("echo restarting validator"),
        Action::ThrottleRpcClient { .. } => String::from_str("echo throttling rpc client"),
        Action::RunMaintenanceScript { script_name, .. } => String::from_str("sh ").concat(
            script_name.as_str(),
        ),
        Action::SendAlert { message, .. } => String::from_str("echo alert: ").concat(
            message.as_str(),
        ),
    }
}

} // verus!
