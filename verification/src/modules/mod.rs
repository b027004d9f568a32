//! The search modules of the picker.

pub mod applications;
pub mod mako_notifications;
pub mod niri_windows;
pub mod niri_workspaces;

use vstd::prelude::*;
use crate::module::Module;
use crate::modules::applications::{ApplicationLauncher, ApplicationsModule};
use crate::modules::mako_notifications::{MakoBackend, MakoNotificationsModule};
use crate::modules::niri_windows::{NiriWindowsModule, WindowsBackend};

verus! {

/// The modules a picker searches, in order: notifications, applications,
/// windows.
pub fn default_modules<M: MakoBackend + 'static, L: ApplicationLauncher + 'static, W: WindowsBackend + 'static>(
    notifications: MakoNotificationsModule<M>,
    applications: ApplicationsModule<L>,
    windows: NiriWindowsModule<W>,
) -> (r: Vec<Box<dyn Module>>)
    ensures
        r@.len() == 3,
{
    let first: Box<dyn Module> = Box::new(notifications);
    let second: Box<dyn Module> = Box::new(applications);
    let third: Box<dyn Module> = Box::new(windows);
    vec![first, second, third]
}

} // verus!
