use audiomenu::backend::pipewire::{
    info_command, set_default_command, status_command, PipeWireBackend, Program,
};
use audiomenu::backend::switch::{Action, DefaultSwitch};
use audiomenu::backend::{Backend, BackendError};
use audiomenu::cli::{CliBackend, CliDeviceType, CliLauncher};
use audiomenu::launcher::Launcher;
use audiomenu::DeviceType;

#[test]
fn backend_names() {
    assert_eq!(Backend::PipeWire.to_string(), "pipewire");
    assert_eq!(Backend::PulseAudio.to_string(), "pulseaudio");
    assert_eq!(Backend::parse("PipeWire").unwrap(), Backend::PipeWire);
    assert_eq!("pulseaudio".parse::<Backend>().unwrap(), Backend::PulseAudio);
    match Backend::parse("alsa") {
        Err(BackendError::UnknownBackend(n)) => assert_eq!(n, "alsa"),
        _ => panic!("expected an unknown backend"),
    }
    assert_eq!(Backend::from_lowercase_name("PipeWire"), None);
    assert_eq!(Backend::PipeWire.create(), PipeWireBackend::new());
}

#[test]
fn command_shapes() {
    let c = set_default_command(58);
    assert_eq!(c.program, Program::Wpctl);
    assert_eq!(c.args, vec!["set-default", "58"]);
    let c = status_command();
    assert_eq!(c.program, Program::Wpctl);
    assert_eq!(c.args, vec!["status"]);
    let c = info_command(4294967295);
    assert_eq!(c.program, Program::PwCli);
    assert_eq!(c.args, vec!["info", "4294967295"]);
}

#[test]
fn cli_conversions() {
    assert_eq!(DeviceType::from(CliDeviceType::Sink), DeviceType::Sink);
    assert_eq!(DeviceType::from(CliDeviceType::Source), DeviceType::Source);
    assert_eq!(Launcher::from(CliLauncher::Walker), Launcher::Walker);
    assert_eq!(Launcher::from(CliLauncher::Rofi), Launcher::Rofi);
    assert_eq!(Launcher::from(CliLauncher::Dmenu), Launcher::Dmenu);
    assert_eq!(Launcher::from(CliLauncher::Fuzzel), Launcher::Fuzzel);
    assert_eq!(Launcher::from(CliLauncher::Vicinae), Launcher::Vicinae);
    assert_eq!(Backend::from(CliBackend::Pipewire), Backend::PipeWire);
    assert_eq!(Backend::from(CliBackend::Pulseaudio), Backend::PulseAudio);
}

fn run_args(a: &Action) -> Vec<String> {
    match a {
        Action::Run(c) => c.args.clone(),
        Action::Finish(_) => panic!("expected a command"),
    }
}

#[test]
fn switch_without_moving() {
    let (mut s, first) = DefaultSwitch::start(58, DeviceType::Sink, false);
    assert_eq!(first.args, vec!["set-default", "58"]);
    let a = s.step(Ok(String::new()));
    assert!(matches!(a, Action::Finish(Ok(()))));
    assert!(s.is_finished());
}

#[test]
fn switch_default_failure() {
    let (mut s, _) = DefaultSwitch::start(58, DeviceType::Sink, true);
    let a = s.step(Err("boom".to_string()));
    match a {
        Action::Finish(Err(BackendError::SetDefaultFailed(m))) => assert_eq!(m, "boom"),
        _ => panic!("expected failure"),
    }
}

#[test]
fn switch_moves_matching_streams() {
    let (mut s, _) = DefaultSwitch::start(58, DeviceType::Sink, true);
    let a = s.step(Ok(String::new()));
    assert_eq!(run_args(&a), vec!["info", "58"]);
    let a = s.step(Ok("  *\t\tobject.serial = \"2062\"\n".to_string()));
    assert_eq!(run_args(&a), vec!["status"]);
    let status = "Audio\n └─ Streams:\n        56. Firefox\n        60. Recorder\n        61. mpv\nVideo\n";
    let a = s.step(Ok(status.to_string()));
    assert_eq!(run_args(&a), vec!["info", "56"]);
    let a = s.step(Ok("media.class = \"Stream/Output/Audio\"\n".to_string()));
    assert_eq!(run_args(&a), vec!["info", "60"]);
    let a = s.step(Ok("media.class = \"Stream/Input/Audio\"\n".to_string()));
    assert_eq!(run_args(&a), vec!["info", "61"]);
    // A failed lookup does not select the stream.
    let a = s.step(Err("gone".to_string()));
    assert_eq!(run_args(&a), vec!["-n", "default", "56", "target.object", "2062"]);
    // A failed move is ignored.
    let a = s.step(Err("cannot move".to_string()));
    assert!(matches!(a, Action::Finish(Ok(()))));
}

#[test]
fn switch_serial_missing() {
    let (mut s, _) = DefaultSwitch::start(7, DeviceType::Source, true);
    s.step(Ok(String::new()));
    let a = s.step(Ok("object.id = \"7\"\n".to_string()));
    assert!(matches!(a, Action::Finish(Err(BackendError::SerialNotFound(7)))));
}

#[test]
fn switch_without_streams() {
    let (mut s, _) = DefaultSwitch::start(7, DeviceType::Source, true);
    s.step(Ok(String::new()));
    s.step(Ok("object.serial = \"9\"\n".to_string()));
    let a = s.step(Ok("Audio\n └─ Streams:\nVideo\n".to_string()));
    assert!(matches!(a, Action::Finish(Ok(()))));
    let (mut s, _) = DefaultSwitch::start(7, DeviceType::Source, true);
    s.step(Ok(String::new()));
    s.step(Ok("object.serial = \"9\"\n".to_string()));
    let a = s.step(Err("no wpctl".to_string()));
    assert!(matches!(a, Action::Finish(Err(BackendError::StreamListFailed(_)))));
}

#[test]
fn backend_name_reads_back() {
    for b in [Backend::PipeWire, Backend::PulseAudio] {
        assert_eq!(b.to_string().parse::<Backend>().unwrap(), b);
    }
}

#[test]
fn every_launcher_has_an_option() {
    assert_eq!(Launcher::from(CliLauncher::Vicinae), Launcher::Vicinae);
}
