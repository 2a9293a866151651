use validator_copilot::plan::{default_playbook_id, LlmActionKind, LlmActionSpec, LlmPlan, PlanError};
use validator_copilot::text::{embedded_object, trimmed_reply};
use validator_copilot::{Action, IssueKind, ValidatorId};

fn validator_id() -> ValidatorId {
    ValidatorId("validator-test".into())
}

fn step(kind: LlmActionKind) -> LlmActionSpec {
    LlmActionSpec { kind, message: None, script_name: None }
}

fn alert(message: &str) -> LlmActionSpec {
    LlmActionSpec { kind: LlmActionKind::SendAlert, message: Some(message.to_string()), script_name: None }
}

#[test]
fn parses_clean_json_payload() {
    let raw = r#"{
            "playbook_id": "plan-123",
            "rationale": "Restart to clear slot lag.",
            "actions": [
                {"kind": "disable_rpc"},
                {"kind": "restart_validator"},
                {"kind": "send_alert", "message": "Restarting validator to clear slot lag"}
            ]
        }"#;
    let trimmed = trimmed_reply(raw).expect("plan parsed");
    let value: serde_json::Value = serde_json::from_str(trimmed).expect("plan parsed");
    assert_eq!(value["actions"].as_array().map(|a| a.len()), Some(3));
    let plan = LlmPlan {
        playbook_id: "plan-123".to_string(),
        rationale: Some("Restart to clear slot lag.".to_string()),
        actions: vec![
            step(LlmActionKind::DisableRpc),
            step(LlmActionKind::RestartValidator),
            alert("Restarting validator to clear slot lag"),
        ],
    };
    let decision = plan.into_decision(IssueKind::SlotLagHigh, &validator_id()).expect("decision");
    assert_eq!(decision.playbook.steps.len(), 3);
    assert_eq!(decision.playbook.id, "plan-123");
    assert_eq!(decision.rationale.as_deref(), Some("Restart to clear slot lag."));
}

#[test]
fn extracts_json_from_code_fence() {
    let raw = "Here you go:\n```json\n{\"playbook_id\":\"abc\",\"actions\":[{\"kind\":\"disable_rpc\"},{\"kind\":\"send_alert\",\"message\":\"done\"}]}\n```";
    let trimmed = trimmed_reply(raw).expect("parse from fence");
    assert!(serde_json::from_str::<serde_json::Value>(trimmed).is_err());
    let object = embedded_object(trimmed).expect("parse from fence");
    let value: serde_json::Value = serde_json::from_str(object).expect("parse from fence");
    assert_eq!(value["actions"].as_array().map(|a| a.len()), Some(2));
}

#[test]
fn rejects_missing_required_fields() {
    let plan = LlmPlan {
        playbook_id: String::new(),
        rationale: None,
        actions: vec![step(LlmActionKind::RunMaintenanceScript)],
    };
    assert!(plan.into_decision(IssueKind::HardwareOverload, &validator_id()).is_err());
}

#[test]
fn blank_fields_count_as_missing() {
    let blank_alert = alert("   ");
    assert_eq!(blank_alert.into_action(&validator_id()).err(), Some(PlanError::MissingMessage));
    let blank_script = LlmActionSpec {
        kind: LlmActionKind::RunMaintenanceScript,
        message: None,
        script_name: Some("\t\n".to_string()),
    };
    assert_eq!(blank_script.into_action(&validator_id()).err(), Some(PlanError::MissingScriptName));
}

#[test]
fn filled_fields_are_kept() {
    let script = LlmActionSpec {
        kind: LlmActionKind::RunMaintenanceScript,
        message: None,
        script_name: Some(" cleanup.sh ".to_string()),
    };
    match script.into_action(&validator_id()) {
        Ok(Action::RunMaintenanceScript { validator, script_name }) => {
            assert_eq!(validator, validator_id());
            assert_eq!(script_name, " cleanup.sh ");
        }
        other => panic!("unexpected {other:?}"),
    }
}

#[test]
fn empty_plan_is_rejected() {
    let plan = LlmPlan { playbook_id: "p".to_string(), rationale: None, actions: vec![] };
    assert_eq!(plan.into_decision(IssueKind::Unknown, &validator_id()).err(), Some(PlanError::NoActions));
}

#[test]
fn first_bad_step_decides_the_error() {
    let plan = LlmPlan {
        playbook_id: "p".to_string(),
        rationale: None,
        actions: vec![step(LlmActionKind::SendAlert), step(LlmActionKind::RunMaintenanceScript)],
    };
    assert_eq!(plan.into_decision(IssueKind::Unknown, &validator_id()).err(), Some(PlanError::MissingMessage));
}

#[test]
fn blank_id_and_rationale_get_defaults() {
    let plan = LlmPlan {
        playbook_id: "  ".to_string(),
        rationale: Some(" ".to_string()),
        actions: vec![step(LlmActionKind::EnableRpc)],
    };
    let decision = plan.into_decision(IssueKind::SlotLagHigh, &validator_id()).unwrap();
    assert_eq!(decision.playbook.id, "agentic-slotlaghigh");
    assert_eq!(decision.playbook.trigger, IssueKind::SlotLagHigh);
    assert!(decision.rationale.is_none());
    assert_eq!(
        decision.playbook.steps,
        vec![Action::EnableRpc { validator: validator_id() }]
    );
}

#[test]
fn default_ids_follow_the_issue_name() {
    assert_eq!(default_playbook_id(IssueKind::VoteFailureSpike), "agentic-votefailurespike");
    assert_eq!(default_playbook_id(IssueKind::DiskAlmostFull), "agentic-diskalmostfull");
    assert_eq!(default_playbook_id(IssueKind::NetworkUnstable), "agentic-networkunstable");
}
