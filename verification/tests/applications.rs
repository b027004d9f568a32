use std::sync::{Arc, Mutex};

use picky::module::{ActivationOutcome, MatchKind, Module, ModuleError, DEFAULT_ACTION_ID};
use picky::modules::applications::{
    application_dirs, application_results, dedupe_entries, default_name_for, desktop_entry_id,
    entry_from_file, icon_search_roots, join_path, parse_bool, parse_entry, ApplicationEntry,
    ApplicationLauncher, ApplicationsModule,
};

struct FakeLauncher {
    launched: Arc<Mutex<Vec<String>>>,
}

impl ApplicationLauncher for FakeLauncher {
    fn launch(&self, desktop_id: &str) -> Result<(), ModuleError> {
        self.launched.lock().unwrap().push(desktop_id.to_string());
        Ok(())
    }
}

fn entry(id: &str, name: &str, comment: &str, keywords: &str) -> ApplicationEntry {
    ApplicationEntry {
        id: id.to_string(),
        name: name.to_string(),
        comment: comment.to_string(),
        keywords: keywords.to_string(),
        icon_name: None,
    }
}

const FIREFOX: &str = "# comment\n[Desktop Entry]\r\nName=Firefox\nName=Other\nComment= Browse the web \nKeywords=web;browser;\nIcon=firefox\nExec=firefox %u\nType=Application\n\n[Desktop Action new]\nName=New Window\nExec=firefox --new-window\n";

#[test]
fn desktop_entries_are_read_from_the_entry_group() {
    let e = parse_entry(FIREFOX, "firefox.desktop", "firefox").unwrap();
    assert_eq!(e.id, "firefox.desktop");
    assert_eq!(e.name, "Firefox");
    assert_eq!(e.comment, "Browse the web");
    assert_eq!(e.keywords, "web browser ");
    assert_eq!(e.icon_name.as_deref(), Some("firefox"));
}

#[test]
fn hidden_undisplayed_commandless_and_foreign_entries_are_skipped() {
    assert!(parse_entry("[Desktop Entry]\nExec=x\nNoDisplay=true\n", "a", "a").is_none());
    assert!(parse_entry("[Desktop Entry]\nExec=x\nHidden= True \n", "a", "a").is_none());
    assert!(parse_entry("[Desktop Entry]\nName=x\n", "a", "a").is_none());
    assert!(parse_entry("[Desktop Entry]\nExec=x\nType=Link\n", "a", "a").is_none());
    assert!(parse_entry("[Other]\nExec=x\n", "a", "a").is_none());
    assert!(parse_entry("[Desktop Entry]\nExec=x\nNoDisplay=true\nNoDisplay=false\n", "a", "a").is_some());
}

#[test]
fn entries_without_a_name_use_the_default() {
    let e = parse_entry("[Desktop Entry]\nExec=tool\n", "tool.desktop", "tool").unwrap();
    assert_eq!(e.name, "tool");
    assert_eq!(e.comment, "");
    assert_eq!(e.keywords, "");
    assert_eq!(e.icon_name, None);
    assert_eq!(default_name_for("/usr/share/applications/tool.desktop"), "tool");
}

#[test]
fn desktop_entry_ids_join_the_path_below_the_directory() {
    assert_eq!(
        desktop_entry_id("/usr/share/applications", "/usr/share/applications/kde/org.kate.desktop")
            .as_deref(),
        Some("kde-org.kate.desktop")
    );
    assert_eq!(
        desktop_entry_id("/usr/share/applications/", "/usr/share/applications/a.desktop").as_deref(),
        Some("a.desktop")
    );
    assert_eq!(desktop_entry_id("/opt/apps", "/usr/share/a.desktop"), None);
    let e = entry_from_file(
        "/usr/share/applications",
        "/usr/share/applications/gnome/calc.desktop",
        "[Desktop Entry]\nExec=calc\n",
    )
    .unwrap();
    assert_eq!(e.id, "gnome-calc.desktop");
    assert_eq!(e.name, "calc");
}

#[test]
fn booleans_follow_the_desktop_format() {
    for (text, value) in [("true", true), ("True", true), (" 1 ", true), ("TRUE", false), ("yes", false)] {
        let chars: Vec<char> = text.chars().collect();
        assert_eq!(parse_bool(&chars), value, "{text}");
    }
}

#[test]
fn application_results_rank_and_describe_entries() {
    let entries = vec![
        entry("org.gnome.Calculator.desktop", "Calculator", "", "math;"),
        entry("firefox.desktop", "Firefox", "Browse the web", ""),
        entry("thunderbird.desktop", "Thunderbird", "Read mail", ""),
    ];

    let results = application_results("fire", &entries).unwrap();
    assert_eq!(results.len(), 1);
    assert_eq!(results[0].title, "Firefox");
    assert_eq!(results[0].subtitle, "Browse the web");
    assert_eq!(results[0].kind, MatchKind::Application);

    let results = application_results("", &entries).unwrap();
    let titles: Vec<&str> = results.iter().map(|r| r.title.as_str()).collect();
    assert_eq!(titles, vec!["Calculator", "Firefox", "Thunderbird"]);
    assert_eq!(results[0].subtitle, "org.gnome.Calculator.desktop");
}

#[test]
fn activation_launches_by_entry_id() {
    let launched = Arc::new(Mutex::new(Vec::new()));
    let mut module = ApplicationsModule::with_entries(
        vec![entry("firefox.desktop", "Firefox", "", "")],
        FakeLauncher {
            launched: Arc::clone(&launched),
        },
    );

    assert_eq!(module.key(), "applications");
    assert_eq!(module.search("firefox").unwrap().len(), 1);
    assert_eq!(
        module.activate("firefox.desktop", DEFAULT_ACTION_ID).unwrap(),
        ActivationOutcome::ClosePicker
    );
    assert_eq!(launched.lock().unwrap().as_slice(), ["firefox.desktop"]);
    let err = module.activate("firefox.desktop", "close").unwrap_err();
    assert_eq!(err.message(), "unknown application action: close");
}

#[test]
fn directories_come_from_the_environment() {
    assert_eq!(
        application_dirs(Some("/home/u"), None, None),
        vec![
            "/home/u/.local/share/applications",
            "/usr/local/share/applications",
            "/usr/share/applications"
        ]
    );
    assert_eq!(
        application_dirs(None, Some("/data/"), Some("/a::/b")),
        vec!["/data/applications", "/a/applications", "/b/applications"]
    );
    assert_eq!(
        application_dirs(None, None, Some("")),
        vec!["/usr/local/share/applications", "/usr/share/applications"]
    );
    assert_eq!(
        icon_search_roots(Some("/home/u"), None, Some("/x")),
        vec![
            "/home/u/.icons",
            "/home/u/.local/share/icons",
            "/home/u/.local/share/pixmaps",
            "/x/icons",
            "/x/pixmaps"
        ]
    );
    assert_eq!(join_path("", "icons"), "icons");
}

#[test]
fn the_first_entry_of_each_id_wins() {
    let kept = dedupe_entries(vec![
        entry("a.desktop", "First", "", ""),
        entry("b.desktop", "B", "", ""),
        entry("a.desktop", "Second", "", ""),
    ]);
    let names: Vec<&str> = kept.iter().map(|e| e.name.as_str()).collect();
    assert_eq!(names, vec!["First", "B"]);
}
