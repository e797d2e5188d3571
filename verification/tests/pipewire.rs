use audiomenu::backend::pipewire::{class_line_matches, PipeWireBackend, Program};
use audiomenu::DeviceType;

#[test]
fn test_backend_creation() {
    let backend = PipeWireBackend::new();
    assert_eq!(backend.name(), "pipewire");
}

#[test]
fn test_parse_sink_devices() {
    let backend = PipeWireBackend::new();
    let sample_output = r#"Audio
 ├─ Devices:
 │      44. Radeon High Definition Audio Controller [Rembrandt/Strix] [alsa]
 │      45. Family 17h/19h/1ah HD Audio Controller [alsa]
 │
 ├─ Sinks:
 │  *   58. Family 17h/19h/1ah HD Audio Controller Speaker [vol: 0.54]
 │      73. Radeon High Definition Audio Controller [Rembrandt/Strix] HDMI / DisplayPort 4 Output [vol: 0.40]
 │     112. Radeon High Definition Audio Controller [Rembrandt/Strix] HDMI / DisplayPort 1 Output [vol: 1.00]
 │
 ├─ Sources:
 │      59. Family 17h/19h/1ah HD Audio Controller Headphones Stereo Microphone [vol: 1.00]
 │  *   82. USB Audio Analog Stereo             [vol: 0.69]

Video
 ├─ Devices:
        "#;

    let devices = backend
        .parse_devices(sample_output, DeviceType::Sink)
        .unwrap();

    assert_eq!(devices.len(), 3);

    // Check first device (default)
    assert_eq!(devices[0].id, 58);
    assert_eq!(
        devices[0].description,
        "Family 17h/19h/1ah HD Audio Controller Speaker"
    );
    assert!(devices[0].is_default);

    // Check second device
    assert_eq!(devices[1].id, 73);
    assert!(!devices[1].is_default);

    // Check third device
    assert_eq!(devices[2].id, 112);
    assert!(!devices[2].is_default);
}

#[test]
fn test_parse_source_devices() {
    let backend = PipeWireBackend::new();
    let sample_output = r#"Audio
 ├─ Sinks:
 │  *   58. Family 17h/19h/1ah HD Audio Controller Speaker [vol: 0.54]
 │
 ├─ Sources:
 │      59. Family 17h/19h/1ah HD Audio Controller Headphones Stereo Microphone [vol: 1.00]
 │      60. Family 17h/19h/1ah HD Audio Controller Digital Microphone [vol: 0.96]
 │  *   82. USB Audio Analog Stereo             [vol: 0.69]

Video
        "#;

    let devices = backend
        .parse_devices(sample_output, DeviceType::Source)
        .unwrap();

    assert_eq!(devices.len(), 3);

    assert_eq!(devices[2].id, 82);
    assert_eq!(devices[2].description, "USB Audio Analog Stereo");
    assert!(devices[2].is_default);

    assert!(!devices[0].is_default);
    assert!(!devices[1].is_default);
}

#[test]
fn test_parse_device_line() {
    let backend = PipeWireBackend::new();

    let line = " │  *   58. Family 17h/19h/1ah HD Audio Controller Speaker [vol: 0.54]";
    let device = backend.parse_device_line(line, DeviceType::Sink).unwrap();
    assert_eq!(device.id, 58);
    assert_eq!(
        device.description,
        "Family 17h/19h/1ah HD Audio Controller Speaker"
    );
    assert!(device.is_default);

    let line = " │      73. Radeon High Definition Audio Controller [Rembrandt/Strix] HDMI / DisplayPort 4 Output [vol: 0.40]";
    let device = backend.parse_device_line(line, DeviceType::Sink).unwrap();
    assert_eq!(device.id, 73);
    assert!(!device.is_default);

    let line = " │  ├─ Devices:";
    assert!(backend.parse_device_line(line, DeviceType::Sink).is_none());
}

#[test]
fn device_line_keeps_brackets_before_the_volume() {
    let backend = PipeWireBackend::new();
    let line = " │      73. Radeon High Definition Audio Controller [Rembrandt/Strix] HDMI / DisplayPort 4 Output [vol: 0.40]";
    let device = backend.parse_device_line(line, DeviceType::Source).unwrap();
    assert_eq!(
        device.description,
        "Radeon High Definition Audio Controller [Rembrandt/Strix] HDMI / DisplayPort 4 Output"
    );
    assert_eq!(device.name, device.description);
    assert_eq!(device.device_type, DeviceType::Source);
}

#[test]
fn device_line_without_volume_keeps_whole_name() {
    let backend = PipeWireBackend::new();
    let device = backend
        .parse_device_line(" │      45. Family 17h/19h/1ah HD Audio Controller [alsa]", DeviceType::Sink)
        .unwrap();
    assert_eq!(device.id, 45);
    assert_eq!(device.description, "Family 17h/19h/1ah HD Audio Controller [alsa]");
}

#[test]
fn device_line_rejections() {
    let backend = PipeWireBackend::new();
    // No tree bar.
    assert!(backend.parse_device_line("   58. Speaker", DeviceType::Sink).is_none());
    // No dot.
    assert!(backend.parse_device_line(" │  58 Speaker", DeviceType::Sink).is_none());
    // ID is not a number.
    assert!(backend.parse_device_line(" │  x8. Speaker", DeviceType::Sink).is_none());
    // ID too large for u32.
    assert!(backend.parse_device_line(" │  4294967296. Speaker", DeviceType::Sink).is_none());
    // Largest u32 and a leading plus are accepted, as str::parse does.
    assert_eq!(backend.parse_device_line(" │  4294967295. Speaker", DeviceType::Sink).unwrap().id, 4294967295);
    assert_eq!(backend.parse_device_line(" │  +7. Speaker", DeviceType::Sink).unwrap().id, 7);
}

#[test]
fn devices_read_with_crlf_and_stop_at_settings() {
    let backend = PipeWireBackend::new();
    let out = "Audio\r\n ├─ Sinks:\r\n │  *   5. A [vol: 1.00]\r\nSettings\r\n │      6. B [vol: 1.00]\r\n";
    let devices = backend.parse_devices(out, DeviceType::Sink).unwrap();
    assert_eq!(devices.len(), 1);
    assert_eq!(devices[0].id, 5);
    assert_eq!(devices[0].description, "A");
    // Before the Audio heading nothing counts.
    let out = " ├─ Sinks:\n │  *   5. A\nAudio\n";
    assert_eq!(backend.parse_devices(out, DeviceType::Sink).unwrap().len(), 0);
}

#[test]
fn serial_from_info() {
    let backend = PipeWireBackend::new();
    let info = "id: 58\n  *\t\tobject.id = \"58\"\n  *\t\tobject.serial = \"2062\"\n  *\t\tnode.name = \"x\"\n";
    assert_eq!(backend.get_device_serial(info, 58).unwrap(), "2062");
    // One quote only: the next serial line is used.
    let info = "object.serial = \"x\nobject.serial = \"77\"\n";
    assert_eq!(backend.get_device_serial(info, 1).unwrap(), "77");
    let err = backend.get_device_serial("object.id = \"58\"\n", 58).unwrap_err();
    assert!(matches!(err, audiomenu::backend::BackendError::SerialNotFound(58)));
}

#[test]
fn stream_candidates_from_status() {
    let backend = PipeWireBackend::new();
    let status = "Audio\n ├─ Sinks:\n │  *   58. Speaker [vol: 0.54]\n │\n └─ Streams:\n        56. Firefox\n             57. output_FL       > Speaker:playback_FL\n        91. mpv\n\nVideo\n        99. camera\n";
    assert_eq!(backend.stream_candidates(status), vec![56, 57, 91]);
}

#[test]
fn stream_classification() {
    let backend = PipeWireBackend::new();
    let info = "id: 56\n  *\t\tmedia.class = \"Stream/Output/Audio\"\n";
    assert!(backend.is_stream_for_device_type(info, DeviceType::Sink));
    assert!(!backend.is_stream_for_device_type(info, DeviceType::Source));
    let info = "  *\t\tMEDIA.CLASS = x\n  *\t\tmedia.class = \"Stream/Input/Audio\"\n";
    assert!(backend.is_stream_for_device_type(info, DeviceType::Source));
    assert!(!backend.is_stream_for_device_type("no class here\n", DeviceType::Sink));
    assert!(class_line_matches("media.class = \"stream/output/audio\"", DeviceType::Sink));
    assert!(!class_line_matches("media.class = \"stream/output/audio\"", DeviceType::Source));
}

#[test]
fn move_command_arguments() {
    let backend = PipeWireBackend::new();
    let c = backend.move_stream_to_device(56, "2062");
    assert_eq!(c.program, Program::PwMetadata);
    assert_eq!(c.args, vec!["-n", "default", "56", "target.object", "2062"]);
}

#[test]
fn default_backend_is_new() {
    let b: PipeWireBackend = Default::default();
    assert_eq!(b, PipeWireBackend::new());
}

#[test]
fn text_after_video_is_ignored() {
    let backend = PipeWireBackend::new();
    let a = "Audio\n ├─ Sinks:\n │  *   5. A [vol: 1.00]\n";
    let more = format!("{}Video\n │      6. B [vol: 1.00]\n ├─ Sinks:\n │  7. C\n", a);
    let x = backend.parse_devices(a, DeviceType::Sink).unwrap();
    let y = backend.parse_devices(&more, DeviceType::Sink).unwrap();
    assert_eq!(x.len(), 1);
    assert_eq!(y.len(), 1);
    assert_eq!(x[0].id, y[0].id);
    assert_eq!(x[0].description, y[0].description);
}

#[test]
fn removing_an_empty_pattern_keeps_the_text() {
    let s: Vec<char> = "a│b".chars().collect();
    assert_eq!(audiomenu::text::remove_all_chars(&s, ""), s);
    assert_eq!(audiomenu::text::remove_all_chars(&s, "│"), vec!['a', 'b']);
}
