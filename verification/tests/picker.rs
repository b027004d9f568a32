use picky::module::{ActivationOutcome, MatchKind, ResultAction, SearchResult};
use picky::picker::{
    kind_symbol, results_character_key, row_key, tiny_skia_warning,
    window_id_for_result, window_thumbnail_path_for_result, AppKey, Command, Event, FocusTarget,
    LoadedWindowThumbnail, PickerApp, ThumbnailState, MAX_WINDOW_THUMBNAIL_REQUESTS_PER_BATCH,
};

fn app_with_results(results: Vec<SearchResult>) -> PickerApp {
    PickerApp {
        has_registry: true,
        has_icon_index: false,
        query: String::new(),
        error_message: String::new(),
        renderer_warning: String::new(),
        selected_index: (!results.is_empty()).then_some(0),
        results,
        focus_target: FocusTarget::Search,
        search_request_id: 0,
        active_search_request_id: 0,
        visible_rows: Vec::new(),
        window_thumbnails: Vec::new(),
        selected_result_visibility_request_id: 0,
        is_starting_up: false,
        is_loading_icon_index: false,
    }
}

fn result(title: &str, actions: Vec<ResultAction>) -> SearchResult {
    SearchResult {
        module_key: "test",
        item_id: title.to_string(),
        title: title.to_string(),
        subtitle: String::new(),
        icon_name: None,
        kind: MatchKind::Application,
        actions,
        score: 1,
    }
}

fn window_result(item_id: &str) -> SearchResult {
    SearchResult {
        module_key: "niri-windows",
        item_id: item_id.to_string(),
        title: format!("Window {item_id}"),
        subtitle: String::new(),
        icon_name: None,
        kind: MatchKind::Window,
        actions: Vec::new(),
        score: 1,
    }
}

#[test]
fn query_changed_updates_query_and_requests_search() {
    let mut app = app_with_results(Vec::new());

    let _ = app.update(Event::QueryChanged("fire".to_string()));

    assert_eq!(app.query, "fire");
    assert_eq!(app.focus_target, FocusTarget::Search);
    assert_eq!(app.search_request_id, 1);
    assert_eq!(app.active_search_request_id, 1);
}

#[test]
fn query_changed_while_starting_up_defers_search_until_registry_is_ready() {
    let mut app = app_with_results(Vec::new());
    app.has_registry = false;
    app.is_starting_up = true;

    let _ = app.update(Event::QueryChanged("fire".to_string()));

    assert_eq!(app.query, "fire");
    assert_eq!(app.search_request_id, 0);
    assert_eq!(app.active_search_request_id, 0);
}

#[test]
fn startup_finished_marks_ready_and_requests_search_for_current_query() {
    let mut app = app_with_results(Vec::new());
    app.has_registry = false;
    app.is_starting_up = true;
    app.query = "fire".to_string();

    let commands = app.update(Event::StartupFinished);

    assert!(!app.is_starting_up);
    assert!(app.has_registry);
    assert_eq!(app.search_request_id, 1);
    assert_eq!(app.active_search_request_id, 1);
    assert_eq!(
        commands,
        vec![Command::Search {
            request_id: 1,
            query: "fire".to_string()
        }]
    );
}

#[test]
fn down_from_search_moves_focus_to_results() {
    let mut app = app_with_results(vec![result("Firefox", Vec::new())]);

    let _ = app.handle_search_key(AppKey::Down);

    assert_eq!(app.focus_target, FocusTarget::Results);
    assert_eq!(app.selected_index, Some(0));
}

#[test]
fn tab_from_search_moves_focus_to_results() {
    let mut app = app_with_results(vec![result("Firefox", Vec::new())]);

    let _ = app.handle_search_key(AppKey::Tab);

    assert_eq!(app.focus_target, FocusTarget::Results);
    assert_eq!(app.selected_index, Some(0));
}

#[test]
fn down_and_up_move_results_selection() {
    let mut app = app_with_results(vec![
        result("Firefox", Vec::new()),
        result("Calculator", Vec::new()),
    ]);
    app.focus_target = FocusTarget::Results;

    let _ = app.handle_results_key(AppKey::Down);
    assert_eq!(app.selected_index, Some(1));

    let _ = app.handle_results_key(AppKey::Up);
    assert_eq!(app.selected_index, Some(0));
}

#[test]
fn up_at_first_result_returns_focus_to_search() {
    let mut app = app_with_results(vec![result("Firefox", Vec::new())]);
    app.focus_target = FocusTarget::Results;
    app.selected_index = Some(0);

    let _ = app.handle_results_key(AppKey::Up);

    assert_eq!(app.focus_target, FocusTarget::Search);
    assert_eq!(app.selected_index, Some(0));
}

#[test]
fn slash_from_results_returns_focus_to_search() {
    let mut app = app_with_results(vec![result("Firefox", Vec::new())]);
    app.focus_target = FocusTarget::Results;
    app.selected_index = Some(0);

    let _ = app.handle_results_key(AppKey::FocusSearch);

    assert_eq!(app.focus_target, FocusTarget::Search);
    assert_eq!(app.selected_index, Some(0));
}

#[test]
fn tab_from_results_returns_focus_to_search() {
    let mut app = app_with_results(vec![result("Firefox", Vec::new())]);
    app.focus_target = FocusTarget::Results;
    app.selected_index = Some(0);

    let _ = app.handle_results_key(AppKey::Tab);

    assert_eq!(app.focus_target, FocusTarget::Search);
    assert_eq!(app.selected_index, Some(0));
}

#[test]
fn shortcut_selects_matching_action_case_insensitively() {
    let app = app_with_results(vec![result(
        "Firefox",
        vec![ResultAction {
            id: "close",
            label: "close",
            shortcut: 'Q',
        }],
    )]);

    assert_eq!(app.selected_action_id_for_shortcut('q'), Some("close"));
    assert_eq!(app.selected_action_id_for_shortcut('Q'), Some("close"));
}

#[test]
fn result_activated_updates_selection_and_focus() {
    let mut app = app_with_results(vec![
        result("Firefox", Vec::new()),
        result("Calculator", Vec::new()),
    ]);
    app.focus_target = FocusTarget::Search;
    app.selected_index = Some(0);

    let commands = app.update(Event::ResultActivated(1));

    assert_eq!(app.selected_index, Some(1));
    assert_eq!(app.focus_target, FocusTarget::Results);
    assert_eq!(
        commands,
        vec![Command::Activate {
            index: 1,
            action_id: "default"
        }]
    );
}

#[test]
fn stale_search_results_are_ignored() {
    let mut app = app_with_results(vec![result("Old", Vec::new())]);
    app.active_search_request_id = 2;

    let commands = app.update(Event::SearchFinished {
        request_id: 1,
        result: Ok(vec![result("New", Vec::new())]),
    });

    assert_eq!(app.results[0].title, "Old");
    assert!(commands.is_empty());
}

#[test]
fn window_id_for_result_reads_niri_window_item_ids() {
    assert_eq!(window_id_for_result(&window_result("42")), Some(42));
    assert_eq!(window_id_for_result(&window_result("42:1234")), Some(42));
    assert_eq!(window_id_for_result(&window_result("not-a-window-id")), None);
    assert_eq!(window_id_for_result(&result("42:1234", Vec::new())), None);
}

#[test]
fn visible_window_thumbnail_requests_are_marked_loading_in_batches() {
    let results = (1..=8)
        .map(|window_id| window_result(&window_id.to_string()))
        .collect::<Vec<_>>();
    let mut app = app_with_results(results);
    app.visible_rows = app.results.iter().map(row_key).collect();

    let commands = app.request_visible_window_thumbnails();

    let loading_count = app
        .window_thumbnails
        .iter()
        .filter(|(_, state)| *state == ThumbnailState::Loading)
        .count();
    assert_eq!(loading_count, MAX_WINDOW_THUMBNAIL_REQUESTS_PER_BATCH);
    assert_eq!(app.window_thumbnails.len(), 6);
    assert!(!app.window_thumbnails.iter().any(|(id, _)| *id == 7));
    assert_eq!(
        commands,
        (1..=6).map(Command::LoadThumbnail).collect::<Vec<_>>()
    );
}

#[test]
fn search_results_replace_state_and_select_first() {
    let mut app = app_with_results(Vec::new());
    app.active_search_request_id = 1;

    let commands = app.update(Event::SearchFinished {
        request_id: 1,
        result: Ok(vec![result("Firefox", Vec::new()), result("Calc", Vec::new())]),
    });

    assert_eq!(app.results.len(), 2);
    assert_eq!(app.selected_index, Some(0));
    assert!(app.error_message.is_empty());
    assert_eq!(
        commands,
        vec![
            Command::ClearRowBounds,
            Command::ScrollToSelected(1),
            Command::LoadIconIndex
        ]
    );
}

#[test]
fn search_error_clears_results_and_error_message() {
    let mut app = app_with_results(vec![result("Firefox", Vec::new())]);
    app.active_search_request_id = 1;
    app.focus_target = FocusTarget::Results;

    let commands = app.update(Event::SearchFinished {
        request_id: 1,
        result: Err("boom".to_string()),
    });

    assert!(app.results.is_empty());
    assert_eq!(app.selected_index, None);
    assert_eq!(app.error_message, "boom");
    assert_eq!(app.focus_target, FocusTarget::Search);
    assert_eq!(commands, vec![Command::FocusSearch]);
}

#[test]
fn refresh_activation_requests_new_search() {
    let mut app = app_with_results(Vec::new());

    let _ = app.update(Event::ActivationFinished(Ok(ActivationOutcome::RefreshResults)));

    assert_eq!(app.search_request_id, 1);
    assert_eq!(app.active_search_request_id, 1);
}

#[test]
fn tiny_skia_backend_sets_warning() {
    let mut app = app_with_results(Vec::new());

    let _ = app.update(Event::RendererReported("tiny-skia".to_string()));

    assert_eq!(
        app.renderer_warning,
        "Using software renderer (tiny-skia); performance may be degraded."
    );
}

#[test]
fn non_tiny_skia_backend_clears_warning() {
    let mut app = app_with_results(Vec::new());
    app.renderer_warning = "old warning".to_string();

    let _ = app.update(Event::RendererReported("wgpu".to_string()));

    assert!(app.renderer_warning.is_empty());
}

#[test]
fn tiny_skia_is_recognised_ignoring_case() {
    assert!(tiny_skia_warning("Tiny-Skia").is_some());
    assert!(tiny_skia_warning("tiny_skia").is_none());
}

#[test]
fn a_new_picker_waits_for_its_modules() {
    let mut app = PickerApp::new();
    assert!(app.is_starting_up);
    assert!(!app.has_registry);
    assert_eq!(app.focus_target, FocusTarget::Search);
    assert!(app.update(Event::QueryChanged("x".to_string())).is_empty());
    assert_eq!(app.search_request_id, 0);
}

#[test]
fn closing_activation_exits_and_failures_are_shown() {
    let mut app = app_with_results(Vec::new());
    assert_eq!(
        app.update(Event::ActivationFinished(Ok(ActivationOutcome::ClosePicker))),
        vec![Command::Exit]
    );
    let commands = app.update(Event::ActivationFinished(Err("no such window".to_string())));
    assert!(commands.is_empty());
    assert_eq!(app.error_message, "no such window");
}

#[test]
fn down_at_last_result_keeps_selection() {
    let mut app = app_with_results(vec![result("A", Vec::new()), result("B", Vec::new())]);
    app.focus_target = FocusTarget::Results;
    app.selected_index = Some(1);

    assert!(app.handle_results_key(AppKey::Down).is_empty());
    assert_eq!(app.selected_index, Some(1));
}

#[test]
fn enter_activates_and_shortcut_is_fed_back() {
    let mut app = app_with_results(vec![result(
        "Firefox",
        vec![ResultAction {
            id: "close",
            label: "close",
            shortcut: 'q',
        }],
    )]);
    app.focus_target = FocusTarget::Results;

    assert_eq!(
        app.update(Event::KeyPressed(AppKey::Enter)),
        vec![Command::Activate {
            index: 0,
            action_id: "default"
        }]
    );
    assert_eq!(
        app.update(Event::KeyPressed(AppKey::Shortcut('Q'))),
        vec![Command::ActivateSelectedAction("close")]
    );
    assert!(app.update(Event::KeyPressed(AppKey::Shortcut('x'))).is_empty());
    assert_eq!(app.update(Event::KeyPressed(AppKey::Escape)), vec![Command::Exit]);
}

#[test]
fn thumbnails_are_recorded_and_looked_up() {
    let mut app = app_with_results(vec![window_result("3:77"), window_result("4")]);
    app.visible_rows = vec![row_key(&app.results[0]), row_key(&app.results[1])];
    let commands = app.request_visible_window_thumbnails();
    assert_eq!(commands, vec![Command::LoadThumbnail(3), Command::LoadThumbnail(4)]);

    let _ = app.update(Event::WindowThumbnailFinished {
        window_id: 3,
        result: Ok(LoadedWindowThumbnail {
            window_id: 3,
            path: "/tmp/3.png".to_string(),
        }),
    });
    let _ = app.update(Event::WindowThumbnailFinished {
        window_id: 4,
        result: Ok(LoadedWindowThumbnail {
            window_id: 5,
            path: "/tmp/5.png".to_string(),
        }),
    });

    assert_eq!(
        window_thumbnail_path_for_result(&app.results[0], &app.window_thumbnails).as_deref(),
        Some("/tmp/3.png")
    );
    assert_eq!(window_thumbnail_path_for_result(&app.results[1], &app.window_thumbnails), None);
    assert!(app
        .window_thumbnails
        .iter()
        .any(|(id, state)| *id == 4 && *state == ThumbnailState::Failed));
}

#[test]
fn measured_visibility_is_applied_only_when_current() {
    let mut app = app_with_results(vec![result("A", Vec::new())]);
    app.selected_result_visibility_request_id = 5;
    assert!(app
        .update(Event::SelectedResultVisibilityMeasured {
            request_id: 4,
            visible_rows: Vec::new()
        })
        .is_empty());
    assert_eq!(
        app.update(Event::SelectedResultVisibilityMeasured {
            request_id: 5,
            visible_rows: Vec::new()
        }),
        vec![Command::ApplyMeasuredLayout]
    );
    assert_eq!(
        app.update(Event::EnsureSelectedResultVisible(9)),
        vec![Command::MeasureSelected(9)]
    );
}

#[test]
fn row_keys_and_symbols() {
    let r = window_result("9");
    assert_eq!(row_key(&r), "result-row:niri-windows:9");
    assert_eq!(kind_symbol(&r), "🗖");
    assert_eq!(results_character_key("/"), Some(AppKey::FocusSearch));
    assert_eq!(results_character_key("qx"), Some(AppKey::Shortcut('q')));
    assert_eq!(results_character_key(""), None);
}

#[test]
fn can_take_refuses_only_exhausted_counters() {
    let mut app = app_with_results(Vec::new());
    assert!(app.can_take(&Event::QueryChanged("fire".to_string())));
    app.search_request_id = u64::MAX;
    assert!(!app.can_take(&Event::QueryChanged("fire".to_string())));
    app.search_request_id = 0;
    app.focus_target = FocusTarget::Results;
    app.selected_index = Some(usize::MAX);
    assert!(!app.can_take(&Event::KeyPressed(AppKey::Down)));
    assert!(app.can_take(&Event::KeyPressed(AppKey::Up)));
}

#[test]
fn the_selection_stays_within_the_results() {
    let mut app = app_with_results(vec![result("Firefox", Vec::new())]);
    app.focus_target = FocusTarget::Results;
    app.update(Event::KeyPressed(AppKey::Down));
    assert_eq!(app.selected_index, Some(0));
    app.update(Event::QueryChanged("zzz".to_string()));
    let id = app.search_request_id;
    app.update(Event::SearchFinished { request_id: id, result: Ok(Vec::new()) });
    assert!(app.results.is_empty());
    assert_eq!(app.selected_index, None);
}
