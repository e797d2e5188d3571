//! The command-line options and their conversion to the library's types.
use vstd::prelude::*;
use crate::DeviceType;
use crate::backend::Backend;
use crate::launcher::Launcher;

verus! {

/// The options the program is started with.
#[derive(Debug, Clone, Copy, PartialEq, Eq, Structural)]
pub struct Cli {
    /// The kind of device to choose.
    pub device_type: CliDeviceType,
    /// The menu program to show the devices with (`walker` by default).
    pub launcher: CliLauncher,
    /// The sound server to drive (`pipewire` by default).
    pub backend: CliBackend,
    /// Spacing for the launcher (2 by default).
    pub spaces: usize,
    /// Whether running streams follow the new default (true by default).
    pub move_streams: bool,
}

/// The device-type argument.
#[derive(Debug, Clone, Copy, PartialEq, Eq, Structural)]
pub enum CliDeviceType {
    Sink,
    Source,
}

/// The `--launcher` option.
#[derive(Debug, Clone, Copy, PartialEq, Eq, Structural)]
pub enum CliLauncher {
    Walker,
    Rofi,
    Dmenu,
    Fuzzel,
    Vicinae,
}

/// The `--backend` option.
#[derive(Debug, Clone, Copy, PartialEq, Eq, Structural)]
pub enum CliBackend {
    Pipewire,
    Pulseaudio,
}

/// The device type that a device-type argument names.
pub open spec fn device_type_of(cli: CliDeviceType) -> DeviceType {
    match cli {
        CliDeviceType::Sink => DeviceType::Sink,
        CliDeviceType::Source => DeviceType::Source,
    }
}

/// The launcher that a `--launcher` option names.
pub open spec fn launcher_of(cli: CliLauncher) -> Launcher {
    match cli {
        CliLauncher::Walker => Launcher::Walker,
        CliLauncher::Rofi => Launcher::Rofi,
        CliLauncher::Dmenu => Launcher::Dmenu,
        CliLauncher::Fuzzel => Launcher::Fuzzel,
        CliLauncher::Vicinae => Launcher::Vicinae,
    }
}

/// The backend that a `--backend` option names.
pub open spec fn backend_of(cli: CliBackend) -> Backend {
    match cli {
        CliBackend::Pipewire => Backend::PipeWire,
        CliBackend::Pulseaudio => Backend::PulseAudio,
    }
}

impl From<CliDeviceType> for DeviceType {
    fn from(cli: CliDeviceType) -> (r: DeviceType) {
        match cli {
            CliDeviceType::Sink => DeviceType::Sink,
            CliDeviceType::Source => DeviceType::Source,
        }
    }
}

impl vstd::std_specs::convert::FromSpecImpl<CliDeviceType> for DeviceType {
    open spec fn obeys_from_spec() -> bool {
        true
    }

    open spec fn from_spec(cli: CliDeviceType) -> DeviceType {
        device_type_of(cli)
    }
}

impl From<CliLauncher> for Launcher {
    fn from(cli: CliLauncher) -> (r: Launcher) {
        match cli {
            CliLauncher::Walker => Launcher::Walker,
            CliLauncher::Rofi => Launcher::Rofi,
            CliLauncher::Dmenu => Launcher::Dmenu,
            CliLauncher::Fuzzel => Launcher::Fuzzel,
            CliLauncher::Vicinae => Launcher::Vicinae,
        CliLauncher::Vicinae => Launcher::Vicinae,
        }
    }
}

impl vstd::std_specs::convert::FromSpecImpl<CliLauncher> for Launcher {
    open spec fn obeys_from_spec() -> bool {
        true
    }

    open spec fn from_spec(cli: CliLauncher) -> Launcher {
        launcher_of(cli)
    }
}

impl From<CliBackend> for Backend {
    fn from(cli: CliBackend) -> (r: Backend) {
        match cli {
            CliBackend::Pipewire => Backend::PipeWire,
            CliBackend::Pulseaudio => Backend::PulseAudio,
        }
    }
}

impl vstd::std_specs::convert::FromSpecImpl<CliBackend> for Backend {
    open spec fn obeys_from_spec() -> bool {
        true
    }

    open spec fn from_spec(cli: CliBackend) -> Backend {
        backend_of(cli)
    }
}

/// Different options name different things: each conversion is one to one.
pub proof fn law_conversions_one_to_one(
    a: CliDeviceType,
    b: CliDeviceType,
    c: CliLauncher,
    d: CliLauncher,
    e: CliBackend,
    f: CliBackend,
)
    ensures
        device_type_of(a) == device_type_of(b) ==> a == b,
        launcher_of(c) == launcher_of(d) ==> c == d,
        backend_of(e) == backend_of(f) ==> e == f,
{
}

/// Every launcher can be chosen with the `--launcher` option.
pub proof fn law_every_launcher_selectable(l: Launcher)
    ensures
        exists|c: CliLauncher| launcher_of(c) == l,
{
    match l {
        Launcher::Walker => assert(launcher_of(CliLauncher::Walker) == l),
        Launcher::Rofi => assert(launcher_of(CliLauncher::Rofi) == l),
        Launcher::Dmenu => assert(launcher_of(CliLauncher::Dmenu) == l),
        Launcher::Fuzzel => assert(launcher_of(CliLauncher::Fuzzel) == l),
        Launcher::Vicinae => assert(launcher_of(CliLauncher::Vicinae) == l),
    }
}

} // verus!
