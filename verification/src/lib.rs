//! Launcher-driven audio device selection: the parsing and formatting
//! logic, with its contracts.
use vstd::prelude::*;
use crate::text::{
    contains, lemma_decimal_digits, lemma_find, lemma_find_first, lemma_parse_decimal,
    occurs_at, contains_str, decimal, find, find_chars, lowercase_chars, lowercase_of, parse_u32,
    parse_u32_chars, push_decimal, string_of, to_chars,
};

pub mod backend;
pub mod cli;
pub mod launcher;
pub mod text;

verus! {

/// Which side of the audio graph a device belongs to.
#[derive(Debug, Clone, Copy, PartialEq, Eq, Structural)]
pub enum DeviceType {
    Sink,
    Source,
}

impl DeviceType {
    /// The lower-case name of the device type.
    pub open spec fn label(self) -> Seq<char> {
        match self {
            DeviceType::Sink => "sink"@,
            DeviceType::Source => "source"@,
        }
    }

    /// The lower-case name of the device type (`sink` or `source`).
    pub fn to_string(&self) -> (s: String)
        ensures
            s@ == self.label(),
    {
        match self {
            DeviceType::Sink => String::from_str("sink"),
            DeviceType::Source => String::from_str("source"),
        }
    }
}

/// An audio device as the sound server lists it.
#[derive(Debug, Clone)]
pub struct AudioDevice {
    pub id: u32,
    pub name: String,
    pub description: String,
    pub is_default: bool,
    pub device_type: DeviceType,
}

/// The mathematical value of an [`AudioDevice`].
pub struct AudioDeviceView {
    pub id: u32,
    pub name: Seq<char>,
    pub description: Seq<char>,
    pub is_default: bool,
    pub device_type: DeviceType,
}

impl View for AudioDevice {
    type V = AudioDeviceView;

    open spec fn view(&self) -> AudioDeviceView {
        AudioDeviceView {
            id: self.id,
            name: self.name@,
            description: self.description@,
            is_default: self.is_default,
            device_type: self.device_type,
        }
    }
}

/// The marker that precedes a device's ID in its display line.
pub open spec fn id_marker() -> Seq<char> {
    "(ID: "@
}

/// The icon that hints at the kind of hardware, from the lower-cased
/// description.
pub open spec fn hint_for(lower: Seq<char>) -> Seq<char> {
    if contains(lower, "hdmi"@) || contains(lower, "displayport"@) {
        "📺"@
    } else if contains(lower, "usb"@) || contains(lower, "arctis"@) {
        "🎧"@
    } else if contains(lower, "speaker"@) {
        "🔈"@
    } else if contains(lower, "headphone"@) {
        "🎧"@
    } else if contains(lower, "digital microphone"@) || contains(lower, "mic"@) {
        "🎙️"@
    } else {
        seq![]
    }
}

/// The icon for a device's description.
pub open spec fn device_hint(d: AudioDeviceView) -> Seq<char> {
    hint_for(lowercase_of(d.description))
}

/// The mark in front of the default device.
pub open spec fn status_mark(is_default: bool) -> Seq<char> {
    if is_default {
        "✓"@
    } else {
        " "@
    }
}

/// The icon of a device type.
pub open spec fn type_icon(t: DeviceType) -> Seq<char> {
    match t {
        DeviceType::Sink => "🔊"@,
        DeviceType::Source => "🎤"@,
    }
}

/// The hint as it appears in the line: after a space, or nothing.
pub open spec fn hint_part(hint: Seq<char>) -> Seq<char> {
    if hint.len() > 0 {
        " "@ + hint
    } else {
        seq![]
    }
}

/// The line shown for a device whose hint icon is `hint`:
/// `"{status} {icon} {description}{ hint} (ID: {id})"`.
pub open spec fn display_text(d: AudioDeviceView, hint: Seq<char>) -> Seq<char> {
    status_mark(d.is_default) + " "@ + type_icon(d.device_type) + " "@ + d.description + hint_part(
        hint,
    ) + " "@ + id_marker() + decimal(d.id as nat) + ")"@
}

/// The ID that a selected line names: the text after the first marker
/// `(ID: ` (up to a second marker, if any), cut at the first `)`, read as a
/// `u32`.
pub open spec fn selection_id(s: Seq<char>) -> Option<u32> {
    match find(s, id_marker()) {
        None => None,
        Some(a) => {
            let rest = s.skip(a + id_marker().len());
            let field = match find(rest, id_marker()) {
                Some(b) => rest.take(b),
                None => rest,
            };
            let head = match find(field, ")"@) {
                Some(c) => field.take(c),
                None => field,
            };
            parse_u32(head)
        },
    }
}

impl AudioDevice {
    /// The line that the launcher shows for this device.
    pub fn format_for_display(&self) -> (s: String)
        ensures
            s@ == display_text(self@, device_hint(self@)),
    {
        let hint = self.get_device_hint();
        self.format_with_hint(hint.as_str())
    }

    /// The line for this device, given its hint icon.
    pub fn format_with_hint(&self, hint: &str) -> (s: String)
        ensures
            s@ == display_text(self@, hint@),
    {
        let mut s = if self.is_default {
            String::from_str("✓")
        } else {
            String::from_str(" ")
        };
        s.append(" ");
        match self.device_type {
            DeviceType::Sink => s.append("🔊"),
            DeviceType::Source => s.append("🎤"),
        }
        s.append(" ");
        s.append(self.description.as_str());
        if hint.unicode_len() > 0 {
            s.append(" ");
            s.append(hint);
        }
        s.append(" ");
        s.append("(ID: ");
        let mut digits: Vec<char> = Vec::new();
        push_decimal(self.id, &mut digits);
        let id_text = string_of(digits.as_slice());
        s.append(id_text.as_str());
        s.append(")");
        proof {
            assert(digits@ == decimal(self.id as nat));
        }
        s
    }

    /// The icon that hints at the kind of hardware of this device.
    pub fn get_device_hint(&self) -> (h: String)
        ensures
            h@ == device_hint(self@),
    {
        let desc = to_chars(self.description.as_str());
        let lower = lowercase_chars(desc.as_slice());
        let lower_text = string_of(lower.as_slice());
        hint_for_lowercase(lower_text.as_str())
    }

    /// The ID named in a line that the launcher returned, if any.
    pub fn parse_id_from_selection(selection: &str) -> (r: Option<u32>)
        ensures
            r == selection_id(selection@),
    {
        let s = to_chars(selection);
        let marker = to_chars("(ID: ");
        proof {
            reveal_strlit("(ID: ");
        }
        let a = match find_chars(s.as_slice(), marker.as_slice()) {
            Some(a) => a,
            None => return None,
        };
        proof {
            crate::text::lemma_find(s@, marker@);
            assert(crate::text::occurs_at(s@, marker@, a as int));
        }
        assert(a + marker@.len() <= s@.len());
        assert(s@.len() == s.len());
        let start = a + marker.len();
        let rest = vstd::slice::slice_subrange(s.as_slice(), start, s.len());
        assert(rest@ == s@.skip(a + id_marker().len()));
        proof {
            crate::text::lemma_find(rest@, marker@);
        }
        let field = match find_chars(rest, marker.as_slice()) {
            Some(b) => vstd::slice::slice_subrange(rest, 0, b),
            None => rest,
        };
        let close = to_chars(")");
        proof {
            crate::text::lemma_find(field@, close@);
        }
        let head = match find_chars(field, close.as_slice()) {
            Some(c) => vstd::slice::slice_subrange(field, 0, c),
            None => field,
        };
        parse_u32_chars(head)
    }
}

/// The icon for a description that is already in lower case.
pub fn hint_for_lowercase(lower: &str) -> (h: String)
    ensures
        h@ == hint_for(lower@),
{
    let l = to_chars(lower);
    let s = l.as_slice();
    if contains_str(s, "hdmi") || contains_str(s, "displayport") {
        String::from_str("📺")
    } else if contains_str(s, "usb") || contains_str(s, "arctis") {
        String::from_str("🎧")
    } else if contains_str(s, "speaker") {
        String::from_str("🔈")
    } else if contains_str(s, "headphone") {
        String::from_str("🎧")
    } else if contains_str(s, "digital microphone") || contains_str(s, "mic") {
        String::from_str("🎙️")
    } else {
        String::new()
    }
}

/// No character of `h` is one of those of the ID marker.
pub open spec fn free_of_marker_chars(h: Seq<char>) -> bool {
    forall|i: int|
        0 <= i < h.len() ==> {
            let c = #[trigger] h[i];
            c != '(' && c != 'I' && c != 'D' && c != ':' && c != ' '
        }
}

/// Every hint icon is free of the characters of the ID marker.
proof fn lemma_hint_chars(lower: Seq<char>)
    ensures
        free_of_marker_chars(hint_for(lower)),
{
    reveal_strlit("📺");
    reveal_strlit("🎧");
    reveal_strlit("🔈");
    reveal_strlit("🎙️");
}

/// The display line of a device, with any hint free of marker characters,
/// reads back as the device's ID.
proof fn lemma_selection_of_display(d: AudioDeviceView, hint: Seq<char>)
    requires
        free_of_marker_chars(hint),
        !contains(d.description.push(' '), id_marker()),
    ensures
        selection_id(display_text(d, hint)) == Some(d.id),
{
    reveal_strlit("✓");
    reveal_strlit(" ");
    reveal_strlit("🔊");
    reveal_strlit("🎤");
    reveal_strlit("(ID: ");
    reveal_strlit(")");
    let m = id_marker();
    let desc = d.description;
    let digits = decimal(d.id as nat);
    let close: Seq<char> = ")"@;
    let pre = status_mark(d.is_default) + " "@ + type_icon(d.device_type) + " "@ + desc + hint_part(
        hint,
    ) + " "@;
    let t = display_text(d, hint);
    let hp = hint_part(hint);
    let l = pre.len() as int;
    let n = desc.len() as int;
    assert(t == pre + m + digits + close);
    assert(l == 5 + n + hp.len());
    assert(m.len() == 5);
    lemma_decimal_digits(d.id as nat);

    // The first marker is the one in front of the ID.
    assert(t.subrange(l, l + 5) == m);
    assert(occurs_at(t, m, l));
    let e = desc.push(' ');
    assert(t.subrange(4, 5 + n) == e);
    assert forall|j: int| 0 <= j < l implies !occurs_at(t, m, j) by {
        if occurs_at(t, m, j) {
            assert(t.subrange(j, j + 5)[0] == t[j]);
            assert(t[j] == '(');
            if j < 4 {
                assert(t[j] == pre[j]);
            } else if j >= 4 + n {
                assert(t[j] == pre[j]);
                if hint.len() > 0 && 5 + n <= j < l - 1 {
                    assert(pre[j] == hint[j - 5 - n]);
                }
            } else if j + 5 <= 5 + n {
                assert(e.subrange(j - 4, j + 1) == t.subrange(j, j + 5));
                assert(occurs_at(e, m, j - 4));
            } else {
                let p = 5 + n;
                assert(t.subrange(j, j + 5)[p - j] == t[p]);
                assert(m[p - j] == 'I' || m[p - j] == 'D' || m[p - j] == ':' || m[p - j] == ' ');
                if hint.len() > 0 {
                    assert(t[p] == hint[0]);
                } else {
                    assert(t[p] == m[0]);
                }
            }
        }
    }
    lemma_find_first(t, m, l);

    // After the marker come the digits and the closing parenthesis.
    let rest = t.skip(l + 5);
    assert(rest == digits + close);
    assert forall|j: int| 0 <= j < rest.len() implies rest[j] != '(' && rest[j] != ')' || j
        == digits.len() by {
        if j < digits.len() {
            assert(rest[j] == digits[j]);
        }
    }
    assert forall|j: int| !occurs_at(rest, m, j) by {
        if occurs_at(rest, m, j) {
            assert(rest.subrange(j, j + 5)[0] == rest[j]);
        }
    }
    lemma_find(rest, m);
    assert(occurs_at(rest, close, digits.len() as int)) by {
        assert(rest.subrange(digits.len() as int, digits.len() + 1int) == close);
    }
    assert forall|j: int| 0 <= j < digits.len() implies !occurs_at(rest, close, j) by {
        if occurs_at(rest, close, j) {
            assert(rest.subrange(j, j + 1)[0] == rest[j]);
        }
    }
    lemma_find_first(rest, close, digits.len() as int);
    assert(rest.take(digits.len() as int) == digits);
    lemma_parse_decimal(d.id);
}

/// Reading back a display line: the line that [`AudioDevice::format_for_display`]
/// gives for a device names that device's ID, so that
/// [`AudioDevice::parse_id_from_selection`] returns it, whenever the
/// description followed by a space does not itself hold the marker `(ID: `.
pub proof fn law_selection_names_displayed_device(d: AudioDeviceView)
    requires
        !contains(d.description.push(' '), id_marker()),
    ensures
        selection_id(display_text(d, device_hint(d))) == Some(d.id),
{
    lemma_hint_chars(lowercase_of(d.description));
    lemma_selection_of_display(d, device_hint(d));
}

/// The shape of a menu line: it starts with `✓` exactly when the device is
/// the default (a space otherwise), then a space, the icon of the device's
/// type (`🔊` for a sink, `🎤` for a source), a space, and the description
/// as it is; it ends with `(ID: ` and the ID in decimal, closed by `)`.
pub proof fn law_display_line_shape(d: AudioDeviceView, hint: Seq<char>)
    ensures
        ({
            let t = display_text(d, hint);
            let tail = "(ID: "@ + decimal(d.id as nat) + ")"@;
            &&& (t[0] == '✓') <==> d.is_default
            &&& !d.is_default ==> t[0] == ' '
            &&& t[1] == ' '
            &&& t[2] == (if d.device_type == DeviceType::Sink { '🔊' } else { '🎤' })
            &&& t[3] == ' '
            &&& t.subrange(4, 4 + d.description.len() as int) == d.description
            &&& t.len() >= 4 + d.description.len() + tail.len()
            &&& t.subrange(t.len() - tail.len(), t.len() as int) == tail
        }),
{
    reveal_strlit("✓");
    reveal_strlit(" ");
    reveal_strlit("🔊");
    reveal_strlit("🎤");
    reveal_strlit("(ID: ");
    reveal_strlit(")");
    let t = display_text(d, hint);
    let tail = "(ID: "@ + decimal(d.id as nat) + ")"@;
    let pre = status_mark(d.is_default) + " "@ + type_icon(d.device_type) + " "@ + d.description
        + hint_part(hint) + " "@;
    assert(t == pre + tail);
    assert(t[0] == pre[0]);
    assert(t.subrange(4, 4 + d.description.len() as int) == pre.subrange(4, 4 + d.description.len() as int));
    assert(t.subrange(t.len() - tail.len(), t.len() as int) == tail);
}

} // verus!
