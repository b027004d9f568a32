use picky::module::{
    ActivationOutcome, MatchKind, Module, ModuleError, ModuleRegistry, ResultAction, SearchResult,
    rank_answers,
};

struct FakeModule {
    key: &'static str,
    results: Vec<SearchResult>,
}

impl Module for FakeModule {
    fn key(&self) -> &'static str {
        self.key
    }

    fn search(&mut self, _query: &str) -> Result<Vec<SearchResult>, ModuleError> {
        Ok(self.results.clone())
    }

    fn activate(&mut self, _item_id: &str, _action_id: &str) -> Result<ActivationOutcome, ModuleError> {
        Ok(ActivationOutcome::ClosePicker)
    }
}

fn result(module_key: &'static str, kind: MatchKind, title: &str, score: i64) -> SearchResult {
    SearchResult {
        module_key,
        item_id: title.to_string(),
        title: title.to_string(),
        subtitle: String::new(),
        icon_name: None,
        kind,
        actions: Vec::<ResultAction>::new(),
        score,
    }
}

#[test]
fn search_prefers_applications_when_scores_tie() {
    let mut registry = ModuleRegistry::new(vec![
        Box::new(FakeModule {
            key: "applications",
            results: vec![result(
                "applications",
                MatchKind::Application,
                "Firefox",
                300,
            )],
        }),
        Box::new(FakeModule {
            key: "niri-windows",
            results: vec![result("niri-windows", MatchKind::Window, "Firefox", 300)],
        }),
    ]);

    let results = registry.search("firefox").unwrap();

    assert_eq!(results[0].kind, MatchKind::Application);
    assert_eq!(results[1].kind, MatchKind::Window);
}

#[test]
fn a_registry_without_modules_finds_nothing() {
    let mut registry = ModuleRegistry::new(Vec::new());
    assert!(registry.search("anything").unwrap().is_empty());
}

#[derive(Default)]
struct Calls {
    searched: Vec<(&'static str, String)>,
    activated: Vec<(&'static str, String, String)>,
}

struct RecordingModule {
    key: &'static str,
    results: Result<Vec<SearchResult>, String>,
    outcome: ActivationOutcome,
    calls: std::sync::Arc<std::sync::Mutex<Calls>>,
}

impl Module for RecordingModule {
    fn key(&self) -> &'static str {
        self.key
    }

    fn search(&mut self, query: &str) -> Result<Vec<SearchResult>, ModuleError> {
        self.calls.lock().unwrap().searched.push((self.key, query.to_string()));
        match &self.results {
            Ok(v) => Ok(v.clone()),
            Err(m) => Err(ModuleError::new(m.clone())),
        }
    }

    fn activate(&mut self, item_id: &str, action_id: &str) -> Result<ActivationOutcome, ModuleError> {
        self.calls
            .lock()
            .unwrap()
            .activated
            .push((self.key, item_id.to_string(), action_id.to_string()));
        Ok(self.outcome)
    }
}

fn recording(
    key: &'static str,
    results: Result<Vec<SearchResult>, String>,
    outcome: ActivationOutcome,
    calls: &std::sync::Arc<std::sync::Mutex<Calls>>,
) -> Box<dyn Module> {
    Box::new(RecordingModule {
        key,
        results,
        outcome,
        calls: std::sync::Arc::clone(calls),
    })
}

#[test]
fn search_asks_every_module_once_with_the_query_and_ranks_all_results() {
    let calls = std::sync::Arc::new(std::sync::Mutex::new(Calls::default()));
    let mut registry = ModuleRegistry::new(vec![
        recording(
            "niri-windows",
            Ok(vec![
                result("niri-windows", MatchKind::Window, "Zed", 100),
                result("niri-windows", MatchKind::Window, "Alacritty", 300),
            ]),
            ActivationOutcome::ClosePicker,
            &calls,
        ),
        recording(
            "applications",
            Ok(vec![result("applications", MatchKind::Application, "Zed", 100)]),
            ActivationOutcome::ClosePicker,
            &calls,
        ),
    ]);

    let results = registry.search("z").unwrap();

    let titles: Vec<(&str, MatchKind)> = results.iter().map(|r| (r.title.as_str(), r.kind)).collect();
    assert_eq!(
        titles,
        vec![
            ("Alacritty", MatchKind::Window),
            ("Zed", MatchKind::Application),
            ("Zed", MatchKind::Window),
        ]
    );
    assert_eq!(
        calls.lock().unwrap().searched,
        vec![("niri-windows", "z".to_string()), ("applications", "z".to_string())]
    );
    assert!(calls.lock().unwrap().activated.is_empty());
}

#[test]
fn search_stops_at_the_first_failing_module_with_its_error() {
    let calls = std::sync::Arc::new(std::sync::Mutex::new(Calls::default()));
    let mut registry = ModuleRegistry::new(vec![
        recording(
            "applications",
            Ok(vec![result("applications", MatchKind::Application, "Firefox", 300)]),
            ActivationOutcome::ClosePicker,
            &calls,
        ),
        recording(
            "niri-windows",
            Err("niri is not running".to_string()),
            ActivationOutcome::ClosePicker,
            &calls,
        ),
        recording("mako-notifications", Ok(Vec::new()), ActivationOutcome::ClosePicker, &calls),
    ]);

    let error = registry.search("fire").unwrap_err();

    assert_eq!(error.message, "niri is not running");
    assert_eq!(
        calls.lock().unwrap().searched,
        vec![("applications", "fire".to_string()), ("niri-windows", "fire".to_string())]
    );
}

#[test]
fn activation_goes_to_the_first_module_with_the_result_key() {
    let calls = std::sync::Arc::new(std::sync::Mutex::new(Calls::default()));
    let mut registry = ModuleRegistry::new(vec![
        recording("applications", Ok(Vec::new()), ActivationOutcome::ClosePicker, &calls),
        recording("niri-windows", Ok(Vec::new()), ActivationOutcome::RefreshResults, &calls),
        recording("niri-windows", Ok(Vec::new()), ActivationOutcome::ClosePicker, &calls),
    ]);
    let target = result("niri-windows", MatchKind::Window, "Firefox", 300);

    let outcome = registry.activate_action(&target, "close").unwrap();
    let default_outcome = registry.activate(&target).unwrap();

    assert_eq!(outcome, ActivationOutcome::RefreshResults);
    assert_eq!(default_outcome, ActivationOutcome::RefreshResults);
    assert_eq!(
        calls.lock().unwrap().activated,
        vec![
            ("niri-windows", "Firefox".to_string(), "close".to_string()),
            ("niri-windows", "Firefox".to_string(), "default".to_string()),
        ]
    );
    assert!(calls.lock().unwrap().searched.is_empty());
}

#[test]
fn activation_of_an_unknown_module_fails() {
    let calls = std::sync::Arc::new(std::sync::Mutex::new(Calls::default()));
    let mut registry = ModuleRegistry::new(vec![recording(
        "applications",
        Ok(Vec::new()),
        ActivationOutcome::ClosePicker,
        &calls,
    )]);
    let target = result("chrome-tabs", MatchKind::Window, "Docs", 10);

    let error = registry.activate(&target).unwrap_err();

    assert_eq!(error.message, "Unknown module: chrome-tabs");
    assert!(calls.lock().unwrap().activated.is_empty());
    let mut empty = ModuleRegistry::new(Vec::new());
    assert_eq!(
        empty.activate_action(&target, "kill").unwrap_err().message,
        "Unknown module: chrome-tabs"
    );
}

#[test]
fn rank_answers_joins_batches_in_order_and_ranks_them() {
    let ranked = rank_answers(vec![
        vec![
            result("niri-windows", MatchKind::Window, "Firefox", 300),
            result("niri-windows", MatchKind::Window, "Btop", 50),
        ],
        Vec::new(),
        vec![
            result("applications", MatchKind::Application, "Firefox", 300),
            result("applications", MatchKind::Application, "Atom", 50),
        ],
    ]);
    let titles: Vec<(&str, MatchKind)> = ranked.iter().map(|r| (r.title.as_str(), r.kind)).collect();
    assert_eq!(
        titles,
        vec![
            ("Firefox", MatchKind::Application),
            ("Firefox", MatchKind::Window),
            ("Atom", MatchKind::Application),
            ("Btop", MatchKind::Window),
        ]
    );
}
