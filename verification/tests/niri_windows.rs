use std::collections::VecDeque;
use std::sync::{Arc, Mutex};

use picky::module::{ActivationOutcome, MatchKind, Module, ModuleError, DEFAULT_ACTION_ID};
use picky::modules::niri_windows::{
    encode_window_target, icon_name_for_app_id, parse_window_target, plan_window_action,
    window_listed, window_results, WindowPlan,
    NiriWindow, NiriWindowsModule, NiriWorkspace, WindowsBackend, CLOSE_ACTION_ID,
    CLOSE_POLL_INTERVAL_MS, CLOSE_POLL_TIMEOUT_MS, KILL_ACTION_ID, TERMINATE_ACTION_ID,
};

#[derive(Default)]
struct FakeState {
    windows: Vec<NiriWindow>,
    workspaces: Vec<NiriWorkspace>,
    focused: Vec<String>,
    closed: Vec<String>,
    signaled: Vec<(u32, String)>,
    existence_checks: VecDeque<bool>,
    sleeps: usize,
}

struct FakeWindowsBackend {
    state: Arc<Mutex<FakeState>>,
}

impl WindowsBackend for FakeWindowsBackend {
    fn load_windows(&self) -> Result<Vec<NiriWindow>, ModuleError> {
        Ok(self.state.lock().unwrap().windows.clone())
    }

    fn load_workspaces(&self) -> Result<Vec<NiriWorkspace>, ModuleError> {
        Ok(self.state.lock().unwrap().workspaces.clone())
    }

    fn focus_window(&self, window_id: &str) -> Result<(), ModuleError> {
        self.state.lock().unwrap().focused.push(window_id.to_string());
        Ok(())
    }

    fn close_window(&self, window_id: &str) -> Result<(), ModuleError> {
        self.state.lock().unwrap().closed.push(window_id.to_string());
        Ok(())
    }

    fn signal_window_process(&self, pid: u32, signal: &str) -> Result<(), ModuleError> {
        self.state.lock().unwrap().signaled.push((pid, signal.to_string()));
        Ok(())
    }

    fn window_exists(&self, _window_id: &str) -> Result<bool, ModuleError> {
        let mut state = self.state.lock().unwrap();
        Ok(state.existence_checks.pop_front().unwrap_or(false))
    }

    fn sleep(&self, millis: u64) {
        assert_eq!(millis, 50);
        self.state.lock().unwrap().sleeps += 1;
    }
}

fn window(id: u64, title: &str, app_id: &str, pid: Option<u32>, workspace_id: u64) -> NiriWindow {
    NiriWindow {
        id,
        title: title.to_string(),
        app_id: app_id.to_string(),
        pid,
        workspace_id,
    }
}

fn workspace(id: u64, idx: u64, name: Option<&str>, output: &str) -> NiriWorkspace {
    NiriWorkspace {
        id,
        idx,
        name: name.map(ToOwned::to_owned),
        output: output.to_string(),
    }
}

fn module_with(state: &Arc<Mutex<FakeState>>) -> NiriWindowsModule<FakeWindowsBackend> {
    NiriWindowsModule::with_backend(
        Vec::new(),
        FakeWindowsBackend {
            state: Arc::clone(state),
        },
    )
}

#[test]
fn search_exposes_close_terminate_and_kill_actions() {
    let state = Arc::new(Mutex::new(FakeState {
        windows: vec![window(1, "Firefox", "firefox", Some(111), 10)],
        workspaces: vec![workspace(10, 2, Some("code"), "DP-1")],
        ..FakeState::default()
    }));
    let mut module = module_with(&state);

    let results = module.search("fire").unwrap();

    assert_eq!(results[0].actions.len(), 3);
    assert_eq!(results[0].actions[0].id, CLOSE_ACTION_ID);
    assert_eq!(results[0].actions[1].id, TERMINATE_ACTION_ID);
    assert_eq!(results[0].actions[2].id, KILL_ACTION_ID);
}

#[test]
fn default_activate_focuses_window() {
    let state = Arc::new(Mutex::new(FakeState::default()));
    let mut module = module_with(&state);

    let outcome = module.activate("42", DEFAULT_ACTION_ID).unwrap();

    assert_eq!(outcome, ActivationOutcome::ClosePicker);
    assert_eq!(state.lock().unwrap().focused.as_slice(), ["42"]);
}

#[test]
fn close_refreshes_when_window_disappears() {
    let state = Arc::new(Mutex::new(FakeState {
        existence_checks: VecDeque::from([false]),
        ..FakeState::default()
    }));
    let mut module = module_with(&state);

    let outcome = module.activate("42", CLOSE_ACTION_ID).unwrap();

    assert_eq!(outcome, ActivationOutcome::RefreshResults);
    let state = state.lock().unwrap();
    assert_eq!(state.closed.as_slice(), ["42"]);
    assert!(state.focused.is_empty());
}

#[test]
fn close_focuses_window_if_it_persists() {
    let checks = std::iter::repeat(true)
        .take((CLOSE_POLL_TIMEOUT_MS / CLOSE_POLL_INTERVAL_MS) as usize + 1)
        .collect();
    let state = Arc::new(Mutex::new(FakeState {
        existence_checks: checks,
        ..FakeState::default()
    }));
    let mut module = module_with(&state);

    let outcome = module.activate("42", CLOSE_ACTION_ID).unwrap();

    assert_eq!(outcome, ActivationOutcome::ClosePicker);
    assert_eq!(state.lock().unwrap().focused.as_slice(), ["42"]);
}

#[test]
fn terminate_and_kill_signal_process() {
    let state = Arc::new(Mutex::new(FakeState::default()));
    let mut module = module_with(&state);

    module.activate("42:99", TERMINATE_ACTION_ID).unwrap();
    module.activate("42:99", KILL_ACTION_ID).unwrap();

    assert_eq!(
        state.lock().unwrap().signaled.as_slice(),
        [(99, "TERM".to_string()), (99, "KILL".to_string())]
    );
}

#[test]
fn close_waits_one_interval_per_check_until_the_timeout() {
    let state = Arc::new(Mutex::new(FakeState {
        existence_checks: std::iter::repeat(true).take(16).collect(),
        ..FakeState::default()
    }));
    let mut module = module_with(&state);

    module.activate("7", CLOSE_ACTION_ID).unwrap();

    let state = state.lock().unwrap();
    assert_eq!(state.sleeps, 15);
    assert!(state.existence_checks.is_empty());
}

#[test]
fn close_refreshes_when_window_disappears_after_a_few_checks() {
    let state = Arc::new(Mutex::new(FakeState {
        existence_checks: VecDeque::from([true, true, false]),
        ..FakeState::default()
    }));
    let mut module = module_with(&state);

    let outcome = module.activate("7:3", CLOSE_ACTION_ID).unwrap();

    assert_eq!(outcome, ActivationOutcome::RefreshResults);
    let state = state.lock().unwrap();
    assert_eq!(state.sleeps, 2);
    assert_eq!(state.closed.as_slice(), ["7"]);
}

#[test]
fn signalling_without_a_process_id_fails() {
    let state = Arc::new(Mutex::new(FakeState::default()));
    let mut module = module_with(&state);

    let err = module.activate("42", KILL_ACTION_ID).unwrap_err();

    assert_eq!(err.message(), "window has no process id available");
    assert!(state.lock().unwrap().signaled.is_empty());
}

#[test]
fn unknown_actions_and_bad_process_ids_are_refused() {
    let state = Arc::new(Mutex::new(FakeState::default()));
    let mut module = module_with(&state);

    let err = module.activate("42", "maximize").unwrap_err();
    assert_eq!(err.message(), "unknown window action: maximize");

    let err = module.activate("42:x", "maximize").unwrap_err();
    assert_eq!(err.message(), "invalid window pid in item id: 42:x");
}

#[test]
fn window_targets_read_back() {
    assert_eq!(encode_window_target(42, Some(99)), "42:99");
    assert_eq!(encode_window_target(7, None), "7");

    let target = parse_window_target("42:99").unwrap();
    assert_eq!(target.window_id, "42");
    assert_eq!(target.pid, Some(99));

    let target = parse_window_target("7").unwrap();
    assert_eq!(target.window_id, "7");
    assert_eq!(target.pid, None);

    assert!(parse_window_target("1:4294967296").is_err());
    assert_eq!(parse_window_target("1:+5").unwrap().pid, Some(5));
}

#[test]
fn window_results_describe_workspace_and_output() {
    let windows = vec![
        window(1, "Editor", "code", Some(5), 10),
        window(2, "Terminal", "", None, 11),
        window(3, "Mail", "thunderbird", None, 99),
    ];
    let workspaces = vec![
        workspace(10, 1, Some("dev"), "DP-1"),
        workspace(11, 2, None, "HDMI-A-1"),
    ];
    let index = vec![("code.desktop".to_string(), "vscode".to_string())];

    let results = window_results("", &windows, &workspaces, &index).unwrap();

    assert_eq!(results.len(), 3);
    assert_eq!(results[0].title, "Editor");
    assert_eq!(results[0].subtitle, "code  dev on DP-1");
    assert_eq!(results[0].item_id, "1:5");
    assert_eq!(results[0].icon_name.as_deref(), Some("vscode"));
    assert_eq!(results[0].kind, MatchKind::Window);
    assert_eq!(results[0].score, 0);
    assert_eq!(results[1].title, "Mail");
    assert_eq!(results[1].subtitle, "thunderbird  99 on unknown output");
    assert_eq!(results[1].icon_name, None);
    assert_eq!(results[2].title, "Terminal");
    assert_eq!(results[2].subtitle, "2 on HDMI-A-1");

    let results = window_results("hdmi", &windows, &workspaces, &index).unwrap();
    assert_eq!(results.len(), 1);
    assert_eq!(results[0].title, "Terminal");
}

#[test]
fn icons_are_found_by_app_id_then_desktop_id() {
    let index = vec![
        ("firefox".to_string(), "firefox-icon".to_string()),
        ("org.gnome.Nautilus.desktop".to_string(), "folder".to_string()),
    ];
    assert_eq!(
        icon_name_for_app_id(&index, " firefox ").as_deref(),
        Some("firefox-icon")
    );
    assert_eq!(
        icon_name_for_app_id(&index, "org.gnome.Nautilus").as_deref(),
        Some("folder")
    );
    assert_eq!(icon_name_for_app_id(&index, "   "), None);
    assert_eq!(icon_name_for_app_id(&index, "gimp"), None);
}

#[test]
fn window_actions_are_planned_from_item_and_action() {
    assert_eq!(
        plan_window_action("42:7", DEFAULT_ACTION_ID).unwrap(),
        WindowPlan::Focus("42".to_string())
    );
    assert_eq!(
        plan_window_action("42", CLOSE_ACTION_ID).unwrap(),
        WindowPlan::Close("42".to_string())
    );
    assert_eq!(
        plan_window_action("42:7", TERMINATE_ACTION_ID).unwrap(),
        WindowPlan::Signal { pid: 7, signal: "TERM" }
    );
    assert_eq!(
        plan_window_action("42:7", KILL_ACTION_ID).unwrap(),
        WindowPlan::Signal { pid: 7, signal: "KILL" }
    );
    assert_eq!(
        plan_window_action("42", TERMINATE_ACTION_ID).unwrap_err().message(),
        "window has no process id available"
    );
}

#[test]
fn window_listed_compares_decimal_ids() {
    let windows = vec![window(7, "Zed", "dev.zed.Zed", None, 1), window(42, "Firefox", "firefox", None, 1)];
    assert!(window_listed(&windows, "42"));
    assert!(!window_listed(&windows, "4"));
    assert!(!window_listed(&windows, "042"));
    assert!(!window_listed(&[], "42"));
}
