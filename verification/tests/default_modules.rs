use picky::module::{ModuleError, ModuleRegistry, SearchResult};
use picky::modules::applications::{ApplicationLauncher, ApplicationsModule};
use picky::modules::default_modules;
use picky::modules::mako_notifications::{MakoBackend, MakoNotificationsModule, RawNotification};
use picky::modules::niri_windows::{NiriWindow, NiriWindowsModule, NiriWorkspace, WindowsBackend};

struct QuietMako;

impl MakoBackend for QuietMako {
    fn list_notifications(&self) -> Result<Vec<RawNotification>, ModuleError> {
        Ok(Vec::new())
    }

    fn makoctl(&self, _verb: &str, _id: &str) -> Result<bool, ModuleError> {
        Ok(true)
    }
}

struct QuietLauncher;

impl ApplicationLauncher for QuietLauncher {
    fn launch(&self, _desktop_id: &str) -> Result<(), ModuleError> {
        Ok(())
    }
}

struct QuietNiri;

impl WindowsBackend for QuietNiri {
    fn load_windows(&self) -> Result<Vec<NiriWindow>, ModuleError> {
        Ok(Vec::new())
    }

    fn load_workspaces(&self) -> Result<Vec<NiriWorkspace>, ModuleError> {
        Ok(Vec::new())
    }

    fn focus_window(&self, _window_id: &str) -> Result<(), ModuleError> {
        Ok(())
    }

    fn close_window(&self, _window_id: &str) -> Result<(), ModuleError> {
        Ok(())
    }

    fn signal_window_process(&self, _pid: u32, _signal: &str) -> Result<(), ModuleError> {
        Ok(())
    }

    fn window_exists(&self, _window_id: &str) -> Result<bool, ModuleError> {
        Ok(false)
    }

    fn sleep(&self, _millis: u64) {}
}

fn quiet_defaults() -> Vec<Box<dyn picky::module::Module>> {
    default_modules(
        MakoNotificationsModule::new(QuietMako),
        ApplicationsModule::with_entries(Vec::new(), QuietLauncher),
        NiriWindowsModule::with_backend(Vec::new(), QuietNiri),
    )
}

#[test]
fn default_modules_are_notifications_applications_and_windows() {
    let keys: Vec<&str> = quiet_defaults().iter().map(|m| m.key()).collect();
    assert_eq!(keys, vec!["mako-notifications", "applications", "niri-windows"]);
}

#[test]
fn default_registry_with_nothing_to_find_finds_nothing() {
    let mut registry = ModuleRegistry::new(quiet_defaults());
    let found: Vec<SearchResult> = registry.search("anything").unwrap();
    assert!(found.is_empty());
}
