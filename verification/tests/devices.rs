use audiomenu::{hint_for_lowercase, AudioDevice, DeviceType};

fn device(id: u32, description: &str, is_default: bool, device_type: DeviceType) -> AudioDevice {
    AudioDevice {
        id,
        name: description.to_string(),
        description: description.to_string(),
        is_default,
        device_type,
    }
}

#[test]
fn display_line_of_default_sink() {
    let d = device(58, "Family 17h/19h/1ah HD Audio Controller Speaker", true, DeviceType::Sink);
    assert_eq!(
        d.format_for_display(),
        "✓ 🔊 Family 17h/19h/1ah HD Audio Controller Speaker 🔈 (ID: 58)"
    );
}

#[test]
fn display_line_without_hint() {
    let d = device(0, "Plain", false, DeviceType::Source);
    assert_eq!(d.format_for_display(), "  🎤 Plain (ID: 0)");
}

#[test]
fn hints_in_order() {
    assert_eq!(device(1, "HDMI out", false, DeviceType::Sink).get_device_hint(), "📺");
    assert_eq!(device(1, "DisplayPort 1", false, DeviceType::Sink).get_device_hint(), "📺");
    assert_eq!(device(1, "USB Audio", false, DeviceType::Sink).get_device_hint(), "🎧");
    assert_eq!(device(1, "Arctis 7", false, DeviceType::Sink).get_device_hint(), "🎧");
    assert_eq!(device(1, "Speaker", false, DeviceType::Sink).get_device_hint(), "🔈");
    assert_eq!(device(1, "Headphones", false, DeviceType::Sink).get_device_hint(), "🎧");
    assert_eq!(device(1, "Digital Microphone", false, DeviceType::Source).get_device_hint(), "🎙️");
    assert_eq!(device(1, "Mic jack", false, DeviceType::Source).get_device_hint(), "🎙️");
    assert_eq!(device(1, "Line in", false, DeviceType::Source).get_device_hint(), "");
    // HDMI wins over speaker.
    assert_eq!(device(1, "HDMI Speaker", false, DeviceType::Sink).get_device_hint(), "📺");
    assert_eq!(hint_for_lowercase("usb headset"), "🎧");
    assert_eq!(hint_for_lowercase("USB"), "");
}

#[test]
fn selection_parsing() {
    assert_eq!(AudioDevice::parse_id_from_selection("✓ 🔊 Speaker 🔈 (ID: 58)"), Some(58));
    assert_eq!(AudioDevice::parse_id_from_selection("x (ID: 7"), Some(7));
    assert_eq!(AudioDevice::parse_id_from_selection("no id here"), None);
    assert_eq!(AudioDevice::parse_id_from_selection("(ID: abc)"), None);
    assert_eq!(AudioDevice::parse_id_from_selection("(ID: )"), None);
    // Only the text after the first marker counts.
    assert_eq!(AudioDevice::parse_id_from_selection("a (ID: 3) b (ID: 4)"), Some(3));
    assert_eq!(AudioDevice::parse_id_from_selection("a (ID: 3(ID: 4)"), Some(3));
}

#[test]
fn selection_reads_back_displayed_id() {
    for (id, desc, def, ty) in [
        (58u32, "Family 17h/19h/1ah HD Audio Controller Speaker", true, DeviceType::Sink),
        (4294967295, "Radeon [Rembrandt/Strix] HDMI / DisplayPort 4 Output", false, DeviceType::Sink),
        (0, "USB (mic) input", false, DeviceType::Source),
        (12, "", true, DeviceType::Source),
    ] {
        let d = device(id, desc, def, ty);
        assert_eq!(AudioDevice::parse_id_from_selection(&d.format_for_display()), Some(id));
    }
}

#[test]
fn selection_misread_when_description_holds_marker() {
    let d = device(5, "odd (ID: 9)", false, DeviceType::Sink);
    assert_eq!(AudioDevice::parse_id_from_selection(&d.format_for_display()), Some(9));
}

#[test]
fn device_type_names() {
    assert_eq!(DeviceType::Sink.to_string(), "sink");
    assert_eq!(DeviceType::Source.to_string(), "source");
}
