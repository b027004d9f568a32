use std::sync::{Arc, Mutex};

use picky::module::{ActivationOutcome, MatchKind, Module, ModuleError, DEFAULT_ACTION_ID};
use picky::modules::niri_workspaces::{
    focus_targets, reference_of, sort_workspaces, workspace_id_for, workspace_results,
    NiriWorkspace, NiriWorkspacesModule, WorkspaceBackend,
};

#[derive(Default)]
struct FakeState {
    workspaces: Vec<NiriWorkspace>,
    actions: Vec<(String, String)>,
}

struct FakeWorkspaceBackend {
    state: Arc<Mutex<FakeState>>,
}

impl WorkspaceBackend for FakeWorkspaceBackend {
    fn load_workspaces(&self) -> Result<Vec<NiriWorkspace>, ModuleError> {
        Ok(self.state.lock().unwrap().workspaces.clone())
    }

    fn run_action(&self, action: &str, target: &str) -> Result<(), ModuleError> {
        self.state
            .lock()
            .unwrap()
            .actions
            .push((action.to_string(), target.to_string()));
        Ok(())
    }
}

fn workspace(
    id: u64,
    idx: u64,
    name: Option<&str>,
    output: &str,
    is_active: bool,
    is_focused: bool,
) -> NiriWorkspace {
    NiriWorkspace {
        id,
        idx,
        name: name.map(ToOwned::to_owned),
        output: output.to_string(),
        is_active,
        is_focused,
    }
}

#[test]
fn search_empty_query_boosts_focused_workspace() {
    let state = Arc::new(Mutex::new(FakeState {
        workspaces: vec![
            workspace(1, 1, Some("chat"), "DP-1", false, false),
            workspace(2, 2, Some("code"), "DP-1", true, true),
        ],
        ..FakeState::default()
    }));
    let mut module = NiriWorkspacesModule::with_backend(FakeWorkspaceBackend { state });

    let results = module.search("").unwrap();

    assert_eq!(results[0].item_id, "2");
}

#[test]
fn activate_focuses_monitor_then_named_workspace() {
    let state = Arc::new(Mutex::new(FakeState {
        workspaces: vec![workspace(2, 2, Some("code"), "DP-1", true, true)],
        ..FakeState::default()
    }));
    let mut module = NiriWorkspacesModule::with_backend(FakeWorkspaceBackend {
        state: Arc::clone(&state),
    });

    let outcome = module.activate("2", DEFAULT_ACTION_ID).unwrap();

    assert_eq!(outcome, ActivationOutcome::ClosePicker);
    assert_eq!(
        state.lock().unwrap().actions.as_slice(),
        [
            ("focus-monitor".to_string(), "DP-1".to_string()),
            ("focus-workspace".to_string(), "code".to_string())
        ]
    );
}

#[test]
fn activate_falls_back_to_workspace_index() {
    let state = Arc::new(Mutex::new(FakeState {
        workspaces: vec![workspace(3, 7, None, "DP-2", false, false)],
        ..FakeState::default()
    }));
    let mut module = NiriWorkspacesModule::with_backend(FakeWorkspaceBackend {
        state: Arc::clone(&state),
    });

    module.activate("3", DEFAULT_ACTION_ID).unwrap();

    assert_eq!(
        state.lock().unwrap().actions[1],
        ("focus-workspace".to_string(), "7".to_string())
    );
}

#[test]
fn workspace_results_titles_subtitles_and_bonuses() {
    let workspaces = vec![
        workspace(5, 1, Some("  "), "HDMI-A-1", true, false),
        workspace(6, 3, Some(" web "), "DP-1", false, false),
        workspace(7, 2, None, "DP-1", false, true),
    ];

    let results = workspace_results("  ", workspaces.clone()).unwrap();

    assert_eq!(results.len(), 3);
    assert_eq!(results[0].title, "Workspace: [2]");
    assert_eq!(results[0].subtitle, "on DP-1");
    assert_eq!(results[0].score, 15);
    assert_eq!(results[0].kind, MatchKind::Workspace);
    assert_eq!(results[1].title, "Workspace: [1]");
    assert_eq!(results[1].item_id, "5");
    assert_eq!(results[1].score, 10);
    assert_eq!(results[2].title, "Workspace: \"web\"");
    assert_eq!(results[2].score, 0);

    let results = workspace_results("hdmi", workspaces).unwrap();
    assert_eq!(results.len(), 1);
    assert_eq!(results[0].item_id, "5");
    assert!(results[0].score > 0);
}

#[test]
fn workspaces_are_ordered_by_output_index_name_and_id() {
    let sorted = sort_workspaces(vec![
        workspace(4, 1, Some("b"), "DP-2", false, false),
        workspace(3, 2, None, "DP-1", false, false),
        workspace(2, 1, Some("a"), "DP-1", false, false),
        workspace(1, 1, None, "DP-1", false, false),
        workspace(0, 1, Some("a"), "DP-1", false, false),
    ]);
    let ids: Vec<u64> = sorted.iter().map(|w| w.id).collect();
    assert_eq!(ids, vec![1, 0, 2, 3, 4]);
}

#[test]
fn activation_errors_name_their_cause() {
    let err = workspace_id_for("2", "close").unwrap_err();
    assert_eq!(err.message(), "unknown workspace action: close");
    let err = workspace_id_for("two", DEFAULT_ACTION_ID).unwrap_err();
    assert_eq!(err.message(), "invalid workspace id: two");
    assert_eq!(workspace_id_for("+12", DEFAULT_ACTION_ID).unwrap(), 12);

    let workspaces = vec![workspace(3, 7, Some(" mail "), "DP-2", false, false)];
    let err = focus_targets(9, &workspaces).unwrap_err();
    assert_eq!(err.message(), "workspace 9 no longer exists");
    let (output, reference) = focus_targets(3, &workspaces).unwrap();
    assert_eq!(output, "DP-2");
    assert_eq!(reference, "mail");
    assert_eq!(reference_of(&workspace(1, 4, Some(""), "X", false, false)), "4");
}
