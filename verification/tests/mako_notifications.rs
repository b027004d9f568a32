use std::sync::{Arc, Mutex};

use picky::module::{ActivationOutcome, MatchKind, Module, ModuleError, DEFAULT_ACTION_ID};
use picky::modules::mako_notifications::{
    dismiss_result, invoke_result, notification_from, notification_results, notifications_from, MakoBackend,
    MakoNotificationsModule, Notification, RawNotification, DISMISS_ACTION_ID,
};

#[derive(Default)]
struct FakeState {
    raws: Vec<RawNotification>,
    answers: Vec<Result<bool, ModuleError>>,
    calls: Vec<(String, String)>,
}

struct FakeMako {
    state: Arc<Mutex<FakeState>>,
}

impl MakoBackend for FakeMako {
    fn list_notifications(&self) -> Result<Vec<RawNotification>, ModuleError> {
        Ok(self.state.lock().unwrap().raws.clone())
    }

    fn makoctl(&self, verb: &str, id: &str) -> Result<bool, ModuleError> {
        let mut state = self.state.lock().unwrap();
        state.calls.push((verb.to_string(), id.to_string()));
        if state.answers.is_empty() {
            Ok(true)
        } else {
            state.answers.remove(0)
        }
    }
}

fn raw(id: Option<u64>, summary: &str, app: &str, body: &str, urgency: Option<u64>) -> RawNotification {
    RawNotification {
        id,
        summary: Some(summary.to_string()),
        app_name: Some(app.to_string()),
        body: Some(body.to_string()),
        urgency,
    }
}

fn note(id: u64, summary: &str, app: &str, body: &str, urgency: u8) -> Notification {
    Notification {
        id,
        app_name: app.to_string(),
        summary: summary.to_string(),
        body: body.to_string(),
        urgency,
    }
}

#[test]
fn raw_notifications_need_an_id_and_a_summary() {
    assert!(notification_from(raw(None, "Hi", "", "", None)).is_none());
    assert!(notification_from(raw(Some(1), "  ", "", "", None)).is_none());
    let n = notification_from(raw(Some(2), "Hi", "app", "b", Some(300))).unwrap();
    assert_eq!(n.urgency, 0);
    let n = notification_from(RawNotification {
        id: Some(3),
        summary: Some("S".to_string()),
        app_name: None,
        body: None,
        urgency: Some(2),
    })
    .unwrap();
    assert_eq!(n.app_name, "");
    assert_eq!(n.urgency, 2);
    assert_eq!(
        notifications_from(vec![raw(None, "x", "", "", None), raw(Some(4), "y", "", "", None)]).len(),
        1
    );
}

#[test]
fn empty_query_lists_newest_first() {
    let notes = vec![note(1, "Old", "mail", "", 0), note(2, "New", "", "body", 0)];
    let results = notification_results("  ", &notes).unwrap();
    assert_eq!(results.len(), 2);
    assert_eq!(results[0].item_id, "2");
    assert_eq!(results[0].score, 10_000);
    assert_eq!(results[0].subtitle, "body");
    assert_eq!(results[1].score, 9_999);
    assert_eq!(results[1].subtitle, "mail");
    assert_eq!(results[0].kind, MatchKind::Notification);
    assert_eq!(results[0].actions[0].id, DISMISS_ACTION_ID);
}

#[test]
fn query_scores_add_urgency() {
    let notes = vec![note(1, "Build failed", "ci", "job 12", 2), note(2, "Lunch", "chat", "soon", 0)];
    let results = notification_results("build", &notes).unwrap();
    assert_eq!(results.len(), 1);
    assert_eq!(results[0].title, "Build failed");
    assert_eq!(results[0].subtitle, "ci  job 12");
    // "build" starts the summary: 180 - length penalty 1 + bonus 130 + urgency 2.
    assert_eq!(results[0].score, 311);
}

#[test]
fn dismissal_outcomes_name_their_cause() {
    assert!(dismiss_result("7", Ok(true)).is_ok());
    assert_eq!(
        dismiss_result("7", Ok(false)).unwrap_err().message(),
        "mako refused to dismiss notification 7"
    );
    assert_eq!(
        dismiss_result("7", Err(ModuleError::new("spawn".to_string())))
            .unwrap_err()
            .message(),
        "failed to dismiss notification 7"
    );
}

#[test]
fn activation_invokes_then_dismisses() {
    let state = Arc::new(Mutex::new(FakeState {
        raws: vec![raw(Some(7), "Hello", "", "", None)],
        ..FakeState::default()
    }));
    let mut module = MakoNotificationsModule::new(FakeMako {
        state: Arc::clone(&state),
    });

    assert_eq!(module.search("").unwrap().len(), 1);
    assert_eq!(
        module.activate("7", DEFAULT_ACTION_ID).unwrap(),
        ActivationOutcome::ClosePicker
    );
    assert_eq!(
        module.activate("7", DISMISS_ACTION_ID).unwrap(),
        ActivationOutcome::RefreshResults
    );
    assert_eq!(
        state.lock().unwrap().calls,
        vec![
            ("invoke".to_string(), "7".to_string()),
            ("dismiss".to_string(), "7".to_string()),
            ("dismiss".to_string(), "7".to_string())
        ]
    );
    let err = module.activate("7", "open").unwrap_err();
    assert_eq!(err.message(), "unknown notification action: open");
}

#[test]
fn failed_invocation_and_dismissal_is_reported() {
    let state = Arc::new(Mutex::new(FakeState {
        answers: vec![Ok(false), Ok(false)],
        ..FakeState::default()
    }));
    let mut module = MakoNotificationsModule::new(FakeMako {
        state: Arc::clone(&state),
    });

    let err = module.activate("9", DEFAULT_ACTION_ID).unwrap_err();
    assert_eq!(err.message(), "mako refused to invoke or dismiss notification 9");
}

#[test]
fn invocation_outcomes_follow_the_dismissal() {
    assert_eq!(invoke_result("3", true, Ok(true)).unwrap(), ActivationOutcome::ClosePicker);
    assert_eq!(invoke_result("3", false, Ok(true)).unwrap(), ActivationOutcome::ClosePicker);
    assert_eq!(
        invoke_result("3", true, Ok(false)).unwrap_err().message(),
        "mako refused to dismiss notification 3"
    );
    assert_eq!(
        invoke_result("3", false, Err(ModuleError::new("x".to_string())))
            .unwrap_err()
            .message(),
        "mako refused to invoke or dismiss notification 3"
    );
}
