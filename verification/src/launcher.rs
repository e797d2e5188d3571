//! The launchers that can present the device menu.
use vstd::prelude::*;

verus! {

/// A menu program that shows the device lines and returns the chosen one.
#[derive(Debug, Clone, Copy, PartialEq, Eq, Structural)]
pub enum Launcher {
    Walker,
    Rofi,
    Dmenu,
    Fuzzel,
    Vicinae,
}

} // verus!
