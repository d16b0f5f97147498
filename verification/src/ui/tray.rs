//! The tray's shared switches.
use vstd::prelude::*;

use crate::text::rules::owned;
use crate::ui::tray_menu::TrayMenuState;

verus! {

/// The switches the tray icon and menu show, and the exit request.
#[derive(Debug, Clone, Copy, PartialEq, Eq, Structural)]
pub struct TrayFlags {
    pub recovering: bool,
    pub vad_on: bool,
    pub wake_on: bool,
    pub should_exit: bool,
}

impl TrayFlags {
    /// All switches off.
    pub fn new() -> (r: Self)
        ensures
            r == (TrayFlags { recovering: false, vad_on: false, wake_on: false, should_exit: false }),
    {
        TrayFlags { recovering: false, vad_on: false, wake_on: false, should_exit: false }
    }

    /// The menu state these switches give, with the console window's visibility.
    pub fn menu_state(&self, console_visible: bool) -> (r: TrayMenuState)
        ensures
            r.vad_on == self.vad_on,
            r.wake_on == self.wake_on,
            r.console_visible == console_visible,
    {
        TrayMenuState { vad_on: self.vad_on, wake_on: self.wake_on, console_visible }
    }
}

/// Marks the recognition engine as recovering (or not).
pub fn set_recovering(flags: &mut TrayFlags, v: bool)
    ensures
        *final(flags) == (TrayFlags { recovering: v, ..*old(flags) }),
{
    flags.recovering = v;
}

/// Shows the automatic stop as on or off.
pub fn set_vad_state(flags: &mut TrayFlags, on: bool)
    ensures
        *final(flags) == (TrayFlags { vad_on: on, ..*old(flags) }),
{
    flags.vad_on = on;
}

/// Shows voice activation as on or off.
pub fn set_wake_state(flags: &mut TrayFlags, on: bool)
    ensures
        *final(flags) == (TrayFlags { wake_on: on, ..*old(flags) }),
{
    flags.wake_on = on;
}

/// Asks the tray loop to exit.
pub fn request_exit(flags: &mut TrayFlags)
    ensures
        *final(flags) == (TrayFlags { should_exit: true, ..*old(flags) }),
{
    flags.should_exit = true;
}

/// The tray on a platform where it runs on the main thread.
pub struct TrayManager;

impl TrayManager {
    pub fn new() -> (r: Self) {
        TrayManager
    }

    /// The tray runs elsewhere (on the main thread); this gives the line
    /// the application logs about it.
    pub fn run(&self) -> (r: String)
        ensures
            r@ == "TrayManager: macOS tray runs on main thread via run_tray_main()"@,
    {
        owned("TrayManager: macOS tray runs on main thread via run_tray_main()")
    }
}

} // verus!
