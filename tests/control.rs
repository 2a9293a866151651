use tokio::sync::broadcast::error::TryRecvError as BusEmpty;
use tokio::sync::mpsc::error::TryRecvError;
use validator_copilot::control::{live_event, ControlError, ControlState, ReportLevel, MAILBOX_CAPACITY};
use validator_copilot::{
    Action, ActionEnvelope, ActionResult, ConnectRequest, MetricsUpdate, MetricsWatchRequest,
    ValidatorConfig, ValidatorId,
};

fn config(id: &str, token: &str) -> ValidatorConfig {
    ValidatorConfig {
        id: ValidatorId(id.to_string()),
        host: format!("{id}.example"),
        prometheus_url: format!("http://{id}.example:9100/metrics"),
        auth_token: token.to_string(),
    }
}

fn state() -> ControlState {
    ControlState::new(vec![config("a", "secret-a"), config("b", "secret-b")])
}

fn connect(id: &str, token: &str) -> ConnectRequest {
    ConnectRequest { validator_id: id.to_string(), auth_token: token.to_string() }
}

fn envelope(id: &str, n: usize) -> (ActionEnvelope, Action) {
    let action = Action::SendAlert {
        validator: ValidatorId(id.to_string()),
        message: format!("step {n}"),
    };
    let env = ActionEnvelope {
        validator_id: id.to_string(),
        action_json: format!("{{\"kind\":\"send_alert\",\"validator\":\"{id}\",\"message\":\"step {n}\"}}"),
    };
    (env, action)
}

fn submit(s: &mut ControlState, id: &str, n: usize) -> Result<(), ControlError> {
    let (env, action) = envelope(id, n);
    s.submit_action(env, Some(action))
}

fn metrics(id: &str, token: &str, json: &str) -> MetricsUpdate {
    MetricsUpdate {
        validator_id: id.to_string(),
        auth_token: token.to_string(),
        metrics_json: json.to_string(),
    }
}

fn expected_json(id: &str, n: usize) -> String {
    envelope(id, n).0.action_json
}

#[test]
fn unknown_validator_is_not_found_everywhere() {
    let mut s = state();
    assert_eq!(s.stream_actions(&connect("zz", "secret-a")).err(), Some(ControlError::NotFound));
    assert_eq!(submit(&mut s, "zz", 1), Err(ControlError::NotFound));
    assert_eq!(s.submit_action(envelope("zz", 1).0, None), Err(ControlError::NotFound));
    assert_eq!(s.publish_metrics(metrics("zz", "secret-a", "{}"), true), Err(ControlError::NotFound));
    let report = ActionResult {
        validator_id: "zz".to_string(),
        action_json: "{}".to_string(),
        success: true,
        message: "ok".to_string(),
    };
    assert_eq!(s.report_result(&report, &Some(envelope("zz", 1).1)), Err(ControlError::NotFound));
    // Nothing was queued or stored for the known validators either.
    let mut rx = s.stream_actions(&connect("a", "secret-a")).unwrap().mailbox;
    assert!(matches!(rx.try_recv(), Err(TryRecvError::Empty)));
    let (snapshot, _live) = s.subscribe_metrics(&MetricsWatchRequest {
        validator_ids: vec![],
        include_snapshot: true,
    });
    assert!(snapshot.is_empty());
}

#[test]
fn wrong_secret_is_unauthenticated() {
    let mut s = state();
    assert_eq!(s.stream_actions(&connect("a", "secret-b")).err(), Some(ControlError::Unauthenticated));
    assert_eq!(s.stream_actions(&connect("a", "")).err(), Some(ControlError::Unauthenticated));
    assert_eq!(
        s.publish_metrics(metrics("a", "wrong", "{}"), true),
        Err(ControlError::Unauthenticated)
    );
    assert_eq!(
        s.publish_metrics(metrics("a", "wrong", "not json"), false),
        Err(ControlError::Unauthenticated)
    );
}

#[test]
fn actions_arrive_in_submission_order() {
    let mut s = state();
    let mut rx = s.stream_actions(&connect("a", "secret-a")).unwrap().mailbox;
    for n in 1..=3 {
        assert_eq!(submit(&mut s, "a", n), Ok(()));
    }
    for n in 1..=3 {
        assert_eq!(rx.try_recv().unwrap().action_json, expected_json("a", n));
    }
    assert!(matches!(rx.try_recv(), Err(TryRecvError::Empty)));
}

#[test]
fn backlog_is_drained_on_attach() {
    let mut s = state();
    for n in 1..=3 {
        submit(&mut s, "a", n).unwrap();
    }
    let mut rx = s.stream_actions(&connect("a", "secret-a")).unwrap().mailbox;
    for n in 1..=3 {
        assert_eq!(rx.try_recv().unwrap().action_json, expected_json("a", n));
    }
}

#[test]
fn full_mailbox_loses_nothing() {
    let mut s = state();
    let mut rx = s.stream_actions(&connect("a", "secret-a")).unwrap().mailbox;
    let extra = 5;
    let total = MAILBOX_CAPACITY + extra;
    for n in 0..total {
        assert_eq!(submit(&mut s, "a", n), Ok(()));
    }
    let mut seen = Vec::new();
    while seen.len() < total {
        match rx.try_recv() {
            Ok(env) => seen.push(env.action_json),
            Err(TryRecvError::Empty) => s.retry_pending(),
            Err(TryRecvError::Disconnected) => panic!("mailbox closed"),
        }
    }
    let expected: Vec<String> = (0..total).map(|n| expected_json("a", n)).collect();
    assert_eq!(seen, expected);
    assert!(matches!(rx.try_recv(), Err(TryRecvError::Empty)));
}

#[test]
fn reconnect_resumes_without_loss_or_repeat() {
    let mut s = state();
    let mut first = s.stream_actions(&connect("a", "secret-a")).unwrap().mailbox;
    submit(&mut s, "a", 1).unwrap();
    submit(&mut s, "a", 2).unwrap();
    assert_eq!(first.try_recv().unwrap().action_json, expected_json("a", 1));
    assert_eq!(first.try_recv().unwrap().action_json, expected_json("a", 2));
    drop(first);
    for n in 3..=5 {
        submit(&mut s, "a", n).unwrap();
    }
    let mut second = s.stream_actions(&connect("a", "secret-a")).unwrap().mailbox;
    for n in 3..=5 {
        assert_eq!(second.try_recv().unwrap().action_json, expected_json("a", n));
    }
    assert!(matches!(second.try_recv(), Err(TryRecvError::Empty)));
}

#[test]
fn second_attach_supersedes_first() {
    let mut s = state();
    let mut first = s.stream_actions(&connect("a", "secret-a")).unwrap().mailbox;
    let mut second = s.stream_actions(&connect("a", "secret-a")).unwrap().mailbox;
    assert!(matches!(first.try_recv(), Err(TryRecvError::Disconnected)));
    submit(&mut s, "a", 7).unwrap();
    assert_eq!(second.try_recv().unwrap().action_json, expected_json("a", 7));
    assert!(matches!(first.try_recv(), Err(TryRecvError::Disconnected)));
}

#[test]
fn envelope_naming_another_validator_is_rejected() {
    let mut s = state();
    let mut rx = s.stream_actions(&connect("a", "secret-a")).unwrap().mailbox;
    let (env, _) = envelope("a", 1);
    let (_, other) = envelope("b", 1);
    assert_eq!(s.submit_action(env, Some(other)), Err(ControlError::InvalidArgument));
    assert_eq!(s.submit_action(envelope("a", 2).0, None), Err(ControlError::InvalidArgument));
    assert!(matches!(rx.try_recv(), Err(TryRecvError::Empty)));
}

#[test]
fn stuck_validator_does_not_hold_up_others() {
    let mut s = state();
    let _stuck = s.stream_actions(&connect("a", "secret-a")).unwrap().mailbox;
    for n in 0..(MAILBOX_CAPACITY + 10) {
        submit(&mut s, "a", n).unwrap();
    }
    let mut rx = s.stream_actions(&connect("b", "secret-b")).unwrap().mailbox;
    submit(&mut s, "b", 1).unwrap();
    assert_eq!(rx.try_recv().unwrap().action_json, expected_json("b", 1));
}

#[test]
fn report_result_picks_log_level() {
    let s = state();
    let mut report = ActionResult {
        validator_id: "a".to_string(),
        action_json: expected_json("a", 1),
        success: true,
        message: "ok".to_string(),
    };
    let action = Some(envelope("a", 1).1);
    assert_eq!(s.report_result(&report, &action), Ok(ReportLevel::Info));
    report.success = false;
    assert_eq!(s.report_result(&report, &action), Ok(ReportLevel::Error));
    assert_eq!(s.report_result(&report, &None), Err(ControlError::InvalidArgument));
}

#[test]
fn published_metrics_reach_subscribers_without_secret() {
    let mut s = state();
    let (snapshot, mut live) = s.subscribe_metrics(&MetricsWatchRequest {
        validator_ids: vec![],
        include_snapshot: true,
    });
    assert!(snapshot.is_empty());
    assert_eq!(s.publish_metrics(metrics("a", "secret-a", "{\"slot_lag\":3}"), true), Ok(()));
    let event = live.try_recv().unwrap();
    assert_eq!(event.validator_id, "a");
    assert_eq!(event.auth_token, "");
    assert_eq!(event.metrics_json, "{\"slot_lag\":3}");
    assert!(matches!(live.try_recv(), Err(BusEmpty::Empty)));
    assert_eq!(s.publish_metrics(metrics("a", "secret-a", "{\"slot_lag\":4}"), true), Ok(()));
    assert_eq!(live.try_recv().unwrap().metrics_json, "{\"slot_lag\":4}");
}

#[test]
fn bad_metrics_payload_is_rejected() {
    let mut s = state();
    let (_, mut live) = s.subscribe_metrics(&MetricsWatchRequest {
        validator_ids: vec![],
        include_snapshot: false,
    });
    assert_eq!(
        s.publish_metrics(metrics("a", "secret-a", "garbage"), false),
        Err(ControlError::InvalidArgument)
    );
    assert!(matches!(live.try_recv(), Err(BusEmpty::Empty)));
    let (snapshot, _) = s.subscribe_metrics(&MetricsWatchRequest {
        validator_ids: vec![],
        include_snapshot: true,
    });
    assert!(snapshot.is_empty());
}

#[test]
fn snapshot_holds_latest_value_per_validator() {
    let mut s = state();
    s.publish_metrics(metrics("a", "secret-a", "{\"v\":1}"), true).unwrap();
    s.publish_metrics(metrics("a", "secret-a", "{\"v\":2}"), true).unwrap();
    s.publish_metrics(metrics("b", "secret-b", "{\"v\":3}"), true).unwrap();
    let (all, _) = s.subscribe_metrics(&MetricsWatchRequest {
        validator_ids: vec![],
        include_snapshot: true,
    });
    assert_eq!(all.len(), 2);
    assert_eq!(all[0].validator_id, "a");
    assert_eq!(all[0].metrics_json, "{\"v\":2}");
    assert_eq!(all[1].validator_id, "b");
    assert!(all.iter().all(|u| u.auth_token.is_empty()));
    let (only_b, _) = s.subscribe_metrics(&MetricsWatchRequest {
        validator_ids: vec!["b".to_string()],
        include_snapshot: true,
    });
    assert_eq!(only_b.len(), 1);
    assert_eq!(only_b[0].metrics_json, "{\"v\":3}");
    let (none, _) = s.subscribe_metrics(&MetricsWatchRequest {
        validator_ids: vec![],
        include_snapshot: false,
    });
    assert!(none.is_empty());
}

#[test]
fn live_events_follow_the_filter_and_drop_the_secret() {
    let req = MetricsWatchRequest { validator_ids: vec!["a".to_string()], include_snapshot: false };
    let admitted = live_event(&req, metrics("a", "secret-a", "{}")).unwrap();
    assert_eq!(admitted.auth_token, "");
    assert_eq!(admitted.validator_id, "a");
    assert!(live_event(&req, metrics("b", "secret-b", "{}")).is_none());
    let all = MetricsWatchRequest { validator_ids: vec![], include_snapshot: false };
    assert!(live_event(&all, metrics("new", "x", "{}")).is_some());
}

#[test]
fn later_registry_entry_wins() {
    let mut s = ControlState::new(vec![config("a", "old"), config("a", "new")]);
    assert_eq!(s.stream_actions(&connect("a", "old")).err(), Some(ControlError::Unauthenticated));
    assert!(s.stream_actions(&connect("a", "new")).is_ok());
}

#[test]
fn unread_envelopes_return_when_agent_goes_away() {
    let mut s = state();
    let first = s.stream_actions(&connect("a", "secret-a")).unwrap();
    let mut rx = first.mailbox;
    for n in 1..=5 {
        submit(&mut s, "a", n).unwrap();
    }
    assert_eq!(rx.try_recv().unwrap().action_json, expected_json("a", 1));
    assert_eq!(rx.try_recv().unwrap().action_json, expected_json("a", 2));
    // The agent disconnects: its receiver is closed with three envelopes unread.
    rx.close();
    let unread = rx.len();
    assert_eq!(unread, 3);
    drop(rx);
    assert_eq!(s.detach(&"a".to_string(), first.connection, unread), Ok(()));
    let mut second = s.stream_actions(&connect("a", "secret-a")).unwrap().mailbox;
    for n in 3..=5 {
        assert_eq!(second.try_recv().unwrap().action_json, expected_json("a", n));
    }
    assert!(matches!(second.try_recv(), Err(TryRecvError::Empty)));
}

#[test]
fn detach_of_superseded_connection_changes_nothing() {
    let mut s = state();
    let first = s.stream_actions(&connect("a", "secret-a")).unwrap();
    let second = s.stream_actions(&connect("a", "secret-a")).unwrap();
    assert_ne!(first.connection, second.connection);
    assert_eq!(s.detach(&"a".to_string(), first.connection, 5), Ok(()));
    let mut rx = second.mailbox;
    submit(&mut s, "a", 1).unwrap();
    assert_eq!(rx.try_recv().unwrap().action_json, expected_json("a", 1));
    assert_eq!(s.detach(&"zz".to_string(), 0, 0), Err(ControlError::NotFound));
}

#[test]
fn closed_mailbox_keeps_the_queue() {
    let mut s = state();
    let first = s.stream_actions(&connect("a", "secret-a")).unwrap();
    drop(first.mailbox);
    submit(&mut s, "a", 1).unwrap();
    submit(&mut s, "a", 2).unwrap();
    let mut rx = s.stream_actions(&connect("a", "secret-a")).unwrap().mailbox;
    assert_eq!(rx.try_recv().unwrap().action_json, expected_json("a", 1));
    assert_eq!(rx.try_recv().unwrap().action_json, expected_json("a", 2));
}
