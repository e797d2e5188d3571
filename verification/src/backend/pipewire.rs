//! The PipeWire backend: reading `wpctl` and `pw-cli` output, and the
//! commands that select a device.
use vstd::prelude::*;
use crate::text::{
    contains, contains_str, decimal, eq_str, is_digit, is_ws, lacks, lemma_decimal_digits,
    lemma_find_first, lemma_lacks_concat, lemma_lacks_no_occurrence, lemma_parse_decimal,
    lemma_remove_absent, lemma_remove_char_concat, lemma_rfind_last, lemma_trim_start_ws_prefix,
    lemma_trim_unchanged, lacks_after_remove, lemma_remove_char_from_marks, find, find_chars, lemma_find, lines, lines_of,
    lowercase_chars, lowercase_of, occurs_at, parse_u32, parse_u32_chars, push_decimal, remove_all,
    remove_all_chars, rfind, rfind_chars, string_of, to_chars, trim, trim_chars, trim_start,
    trim_start_chars, views,
};
use crate::{AudioDevice, AudioDeviceView, DeviceType};
use crate::backend::BackendError;

verus! {

/// The backend that drives PipeWire through its command-line tools.
#[derive(Debug, Clone, Copy, PartialEq, Eq, Structural)]
pub struct PipeWireBackend;

// ---------------------------------------------------------------------------
// Device lines
// ---------------------------------------------------------------------------

/// A device line with the tree drawing and the default mark taken out, and
/// trimmed.
pub open spec fn cleaned_line(line: Seq<char>) -> Seq<char> {
    trim(remove_all(remove_all(remove_all(remove_all(line, "│"@), "├─"@), "└─"@), "*"@))
}

/// The description in the text after the ID: up to the last `[vol:`, if
/// any, trimmed.
pub open spec fn description_of(name_part: Seq<char>) -> Seq<char> {
    match rfind(name_part, "[vol:"@) {
        Some(v) => trim(name_part.take(v)),
        None => name_part,
    }
}

/// The device that a line of `wpctl status` describes, if it is a device line:
/// a line with `│` and `.`, whose cleaned text is `ID. description`.
pub open spec fn device_line(line: Seq<char>, ty: DeviceType) -> Option<AudioDeviceView> {
    if !contains(line, "│"@) || !contains(line, "."@) {
        None
    } else {
        let c = cleaned_line(line);
        match find(c, "."@) {
            None => None,
            Some(k) => match parse_u32(trim(c.take(k))) {
                None => None,
                Some(id) => {
                    let description = description_of(trim(c.skip(k + 1)));
                    Some(
                        AudioDeviceView {
                            id: id,
                            name: description,
                            description: description,
                            is_default: contains(line, "*"@),
                            device_type: ty,
                        },
                    )
                },
            },
        }
    }
}

/// The heading of the section that lists devices of type `ty`.
pub open spec fn section_heading(ty: DeviceType) -> Seq<char> {
    match ty {
        DeviceType::Sink => "Sinks:"@,
        DeviceType::Source => "Sources:"@,
    }
}

/// The devices of type `ty` in the lines `ls` of `wpctl status`, given
/// whether the `Audio` part and the section of `ty` have been entered.
pub open spec fn devices_from(
    ls: Seq<Seq<char>>,
    ty: DeviceType,
    in_audio: bool,
    in_target: bool,
) -> Seq<AudioDeviceView>
    decreases ls.len(),
{
    if ls.len() == 0 {
        seq![]
    } else {
        let line = ls[0];
        let rest = ls.drop_first();
        let t = trim(line);
        if t == "Audio"@ {
            devices_from(rest, ty, true, in_target)
        } else if in_audio && (t == "Video"@ || t == "Settings"@) {
            seq![]
        } else if in_audio && contains(line, section_heading(ty)) {
            devices_from(rest, ty, in_audio, true)
        } else if in_target && contains(line, "├─"@) && !contains(line, section_heading(ty)) {
            devices_from(rest, ty, in_audio, false)
        } else if in_target && in_audio {
            match device_line(line, ty) {
                Some(d) => seq![d] + devices_from(rest, ty, in_audio, in_target),
                None => devices_from(rest, ty, in_audio, in_target),
            }
        } else {
            devices_from(rest, ty, in_audio, in_target)
        }
    }
}

/// The devices of type `ty` that `wpctl status` lists in `output`.
pub open spec fn devices_in(output: Seq<char>, ty: DeviceType) -> Seq<AudioDeviceView> {
    devices_from(lines(output), ty, false, false)
}

/// The views of a vector of devices.
pub open spec fn device_views(v: Seq<AudioDevice>) -> Seq<AudioDeviceView> {
    v.map_values(|d: AudioDevice| d@)
}

/// The device of a line held as characters.
fn device_from_chars(line: &[char], device_type: DeviceType) -> (r: Option<AudioDevice>)
    ensures
        match r {
            Some(d) => device_line(line@, device_type) == Some(d@),
            None => device_line(line@, device_type) is None,
        },
{
    if !contains_str(line, "│") || !contains_str(line, ".") {
        return None;
    }
    let is_default = contains_str(line, "*");
    proof {
        reveal_strlit("│");
        reveal_strlit("├─");
        reveal_strlit("└─");
        reveal_strlit("*");
    }
    let a = remove_all_chars(line, "│");
    let b = remove_all_chars(a.as_slice(), "├─");
    let c = remove_all_chars(b.as_slice(), "└─");
    let d = remove_all_chars(c.as_slice(), "*");
    let cl = trim_chars(d.as_slice());
    let dot = to_chars(".");
    let k = match find_chars(cl, dot.as_slice()) {
        Some(k) => k,
        None => return None,
    };
    proof {
        lemma_find(cl@, dot@);
        reveal_strlit(".");
        assert(occurs_at(cl@, dot@, k as int));
        assert(dot@.len() == 1);
        assert(cl@.len() == cl.len());
    }
    let id_text = trim_chars(vstd::slice::slice_subrange(cl, 0, k));
    let id = match parse_u32_chars(id_text) {
        Some(id) => id,
        None => return None,
    };
    let name_part = trim_chars(vstd::slice::slice_subrange(cl, k + 1, cl.len()));
    let vol = to_chars("[vol:");
    let desc_chars = match rfind_chars(name_part, vol.as_slice()) {
        Some(v) => {
            proof {
                crate::text::lemma_rfind_before(name_part@, vol@, name_part@.len() - vol@.len() + 1);
            }
            trim_chars(vstd::slice::slice_subrange(name_part, 0, v))
        },
        None => name_part,
    };
    let description = string_of(desc_chars);
    let name = description.clone();
    Some(AudioDevice { id, name, description, is_default, device_type })
}


// ---------------------------------------------------------------------------
// Object properties (`pw-cli info`)
// ---------------------------------------------------------------------------

/// The quoted value on a line that names `object.serial`: the text between
/// its first and its last `"`, when they differ.
pub open spec fn serial_in_line(line: Seq<char>) -> Option<Seq<char>> {
    if !contains(line, "object.serial"@) {
        None
    } else {
        match (find(line, "\""@), rfind(line, "\""@)) {
            (Some(a), Some(b)) => if a < b {
                Some(line.subrange(a + 1, b))
            } else {
                None
            },
            _ => None,
        }
    }
}

/// The first serial that the lines `ls` hold.
pub open spec fn serial_in_lines(ls: Seq<Seq<char>>) -> Option<Seq<char>>
    decreases ls.len(),
{
    if ls.len() == 0 {
        None
    } else {
        match serial_in_line(ls[0]) {
            Some(v) => Some(v),
            None => serial_in_lines(ls.drop_first()),
        }
    }
}

/// The `object.serial` that `pw-cli info` output holds.
pub open spec fn serial_in(output: Seq<char>) -> Option<Seq<char>> {
    serial_in_lines(lines(output))
}

/// The lower-cased `media.class` line of a stream names the direction of
/// `ty`: `output` for sinks, `input` for sources.
pub open spec fn class_matches(lower: Seq<char>, ty: DeviceType) -> bool {
    match ty {
        DeviceType::Sink => contains(lower, "output"@),
        DeviceType::Source => contains(lower, "input"@),
    }
}

/// Whether the first line of `ls` that names `media.class` matches `ty`;
/// false when no line does.
pub open spec fn stream_class_in_lines(ls: Seq<Seq<char>>, ty: DeviceType) -> bool
    decreases ls.len(),
{
    if ls.len() == 0 {
        false
    } else if contains(ls[0], "media.class"@) {
        class_matches(lowercase_of(ls[0]), ty)
    } else {
        stream_class_in_lines(ls.drop_first(), ty)
    }
}

/// Whether the `pw-cli info` output of a stream shows it playing to a sink
/// (for `Sink`) or recording from a source (for `Source`).
pub open spec fn stream_class_in(output: Seq<char>, ty: DeviceType) -> bool {
    stream_class_in_lines(lines(output), ty)
}

// ---------------------------------------------------------------------------
// Streams (`wpctl status`)
// ---------------------------------------------------------------------------

/// The ID of a stream line (already trimmed at the start): a line without
/// tree drawing whose text before the first `.` is a number.
pub open spec fn stream_id_in(t: Seq<char>) -> Option<u32> {
    if contains(t, "│"@) || contains(t, "├"@) || contains(t, "└"@) {
        None
    } else {
        match find(t, "."@) {
            None => None,
            Some(k) => parse_u32(trim(t.take(k))),
        }
    }
}

/// The stream IDs in the lines `ls`, given whether the `Audio` part and
/// its `Streams:` list have been entered.
pub open spec fn streams_from(ls: Seq<Seq<char>>, in_audio: bool, in_streams: bool) -> Seq<u32>
    decreases ls.len(),
{
    if ls.len() == 0 {
        seq![]
    } else {
        let line = ls[0];
        let rest = ls.drop_first();
        let t = trim(line);
        if t == "Audio"@ {
            streams_from(rest, true, in_streams)
        } else if in_audio && (t == "Video"@ || t == "Settings"@) {
            seq![]
        } else if in_audio && contains(line, "└─ Streams:"@) {
            streams_from(rest, in_audio, true)
        } else if in_streams && in_audio {
            match stream_id_in(trim_start(line)) {
                Some(id) => seq![id] + streams_from(rest, in_audio, in_streams),
                None => streams_from(rest, in_audio, in_streams),
            }
        } else {
            streams_from(rest, in_audio, in_streams)
        }
    }
}

/// The IDs of the audio streams that `wpctl status` lists, in order.
pub open spec fn stream_candidates_in(output: Seq<char>) -> Seq<u32> {
    streams_from(lines(output), false, false)
}

// ---------------------------------------------------------------------------
// Commands
// ---------------------------------------------------------------------------

/// The PipeWire tools that the backend runs.
#[derive(Debug, Clone, Copy, PartialEq, Eq, Structural)]
pub enum Program {
    Wpctl,
    PwCli,
    PwMetadata,
}

/// A program to run and its arguments.
#[derive(Debug)]
pub struct Command {
    pub program: Program,
    pub args: Vec<String>,
}

/// The mathematical value of a [`Command`].
pub struct CommandView {
    pub program: Program,
    pub args: Seq<Seq<char>>,
}

impl View for Command {
    type V = CommandView;

    open spec fn view(&self) -> CommandView {
        CommandView { program: self.program, args: self.args@.map_values(|a: String| a@) }
    }
}

/// `wpctl set-default ID`.
pub open spec fn set_default_cmd(id: u32) -> CommandView {
    CommandView { program: Program::Wpctl, args: seq!["set-default"@, decimal(id as nat)] }
}

/// `wpctl status`.
pub open spec fn status_cmd() -> CommandView {
    CommandView { program: Program::Wpctl, args: seq!["status"@] }
}

/// `pw-cli info ID`.
pub open spec fn info_cmd(id: u32) -> CommandView {
    CommandView { program: Program::PwCli, args: seq!["info"@, decimal(id as nat)] }
}

/// `pw-metadata -n default STREAM target.object SERIAL`.
pub open spec fn move_cmd(stream_id: u32, serial: Seq<char>) -> CommandView {
    CommandView {
        program: Program::PwMetadata,
        args: seq!["-n"@, "default"@, decimal(stream_id as nat), "target.object"@, serial],
    }
}

/// The decimal spelling of `n` as a string.
fn decimal_string(n: u32) -> (s: String)
    ensures
        s@ == decimal(n as nat),
{
    let mut digits: Vec<char> = Vec::new();
    push_decimal(n, &mut digits);
    string_of(digits.as_slice())
}

/// The views of the strings of a vector.
pub open spec fn string_views(v: Seq<String>) -> Seq<Seq<char>> {
    v.map_values(|a: String| a@)
}

/// Makes a command from a program and its arguments.
fn command_of(program: Program, args: Vec<String>) -> (c: Command)
    ensures
        c@ == (CommandView { program: program, args: string_views(args@) }),
{
    Command { program, args }
}

pub fn set_default_command(device_id: u32) -> (c: Command)
    ensures
        c@ == set_default_cmd(device_id),
{
    let mut args: Vec<String> = Vec::new();
    args.push(String::from_str("set-default"));
    args.push(decimal_string(device_id));
    let c = command_of(Program::Wpctl, args);
    assert(c@.args == set_default_cmd(device_id).args);
    c
}

pub fn status_command() -> (c: Command)
    ensures
        c@ == status_cmd(),
{
    let mut args: Vec<String> = Vec::new();
    args.push(String::from_str("status"));
    let c = command_of(Program::Wpctl, args);
    assert(c@.args == status_cmd().args);
    c
}

pub fn info_command(object_id: u32) -> (c: Command)
    ensures
        c@ == info_cmd(object_id),
{
    let mut args: Vec<String> = Vec::new();
    args.push(String::from_str("info"));
    args.push(decimal_string(object_id));
    let c = command_of(Program::PwCli, args);
    assert(c@.args == info_cmd(object_id).args);
    c
}

impl PipeWireBackend {
    pub fn new() -> (b: Self)
        ensures
            b == PipeWireBackend,
    {
        PipeWireBackend
    }

    /// The name of the backend.
    pub fn name(&self) -> (n: &'static str)
        ensures
            n@ == "pipewire"@,
    {
        "pipewire"
    }

    /// The device that one line of `wpctl status` describes, if any.
    /// Format: ` │  *   58. Family 17h/19h/1ah HD Audio Controller Speaker [vol: 0.54]`.
    pub fn parse_device_line(&self, line: &str, device_type: DeviceType) -> (r: Option<AudioDevice>)
        ensures
            match r {
                Some(d) => device_line(line@, device_type) == Some(d@),
                None => device_line(line@, device_type) is None,
            },
    {
        let l = to_chars(line);
        device_from_chars(l.as_slice(), device_type)
    }

    /// The devices of type `device_type` that the `wpctl status` output lists,
    /// in order. Reading never fails.
    pub fn parse_devices(&self, output: &str, device_type: DeviceType) -> (r: Result<
        Vec<AudioDevice>,
        BackendError,
    >)
        ensures
            r matches Ok(v) && device_views(v@) == devices_in(output@, device_type),
    {
        let text = to_chars(output);
        let ls = lines_of(text.as_slice());
        let ghost all = views(ls@);
        let mut devices: Vec<AudioDevice> = Vec::new();
        let mut in_audio = false;
        let mut in_target = false;
        let n = ls.len();
        let mut i: usize = 0;
        proof {
            assert(all.skip(0) == all);
            assert(device_views(devices@) == Seq::<AudioDeviceView>::empty());
            reveal_strlit("Audio");
            reveal_strlit("Video");
            reveal_strlit("Settings");
        }
        while i < n
            invariant
                i <= n,
                n == ls@.len(),
                all == views(ls@),
                all == lines(output@),
                device_views(devices@) + devices_from(all.skip(i as int), device_type, in_audio, in_target)
                    == devices_in(output@, device_type),
            decreases n - i,
        {
            let ghost rest = all.skip(i as int);
            assert(rest[0] == ls@[i as int]@);
            assert(rest.drop_first() == all.skip(i + 1));
            let line = ls[i].as_slice();
            let t = trim_chars(line);
            let heading = match device_type {
                DeviceType::Sink => "Sinks:",
                DeviceType::Source => "Sources:",
            };
            assert(heading@ == section_heading(device_type));
            if eq_str(t, "Audio") {
                in_audio = true;
            } else if in_audio && (eq_str(t, "Video") || eq_str(t, "Settings")) {
                assert(device_views(devices@) + Seq::<AudioDeviceView>::empty() == device_views(
                    devices@,
                ));
                return Ok(devices);
            } else if in_audio && contains_str(line, heading) {
                in_target = true;
            } else if in_target && contains_str(line, "├─") && !contains_str(line, heading) {
                in_target = false;
            } else if in_target && in_audio {
                match device_from_chars(line, device_type) {
                    Some(d) => {
                        let ghost before = devices@;
                        devices.push(d);
                        assert(device_views(devices@) == device_views(before).push(d@));
                        assert(device_views(devices@) + devices_from(all.skip(i + 1), device_type, in_audio, in_target)
                            == device_views(before) + (seq![d@] + devices_from(all.skip(i + 1), device_type, in_audio, in_target)));
                    },
                    None => {},
                }
            }
            i = i + 1;
        }
        assert(all.skip(n as int).len() == 0);
        assert(device_views(devices@) + Seq::<AudioDeviceView>::empty() == device_views(devices@));
        Ok(devices)
    }
    /// The `object.serial` of a device, from its `pw-cli info` output.
    pub fn get_device_serial(&self, info_output: &str, device_id: u32) -> (r: Result<
        String,
        BackendError,
    >)
        ensures
            match serial_in(info_output@) {
                Some(v) => r matches Ok(s) && s@ == v,
                None => r matches Err(BackendError::SerialNotFound(i)) && i == device_id,
            },
    {
        let text = to_chars(info_output);
        let ls = lines_of(text.as_slice());
        let ghost all = views(ls@);
        let n = ls.len();
        let quote = to_chars("\"");
        assert(all.skip(0) == all);
        for i in 0..n
            invariant
                n == ls@.len(),
                all == views(ls@),
                all == lines(info_output@),
                quote@ == "\""@,
                serial_in(info_output@) == serial_in_lines(all.skip(i as int)),
        {
            let ghost rest = all.skip(i as int);
            assert(rest[0] == ls@[i as int]@);
            assert(rest.drop_first() == all.skip(i + 1));
            let line = ls[i].as_slice();
            if contains_str(line, "object.serial") {
                let first = find_chars(line, quote.as_slice());
                let last = rfind_chars(line, quote.as_slice());
                match (first, last) {
                    (Some(a), Some(b)) => {
                        if a < b {
                            proof {
                                reveal_strlit("\"");
                                lemma_find(line@, quote@);
                                assert(occurs_at(line@, quote@, a as int));
                                crate::text::lemma_rfind_before(line@, quote@, line@.len() - quote@.len() + 1);
                                assert(line@.len() == line.len());
                            }
                            let v = vstd::slice::slice_subrange(line, a + 1, b);
                            return Ok(string_of(v));
                        }
                    },
                    _ => {},
                }
            }
        }
        assert(all.skip(n as int).len() == 0);
        Err(BackendError::SerialNotFound(device_id))
    }

    /// The IDs of the audio streams that the `wpctl status` output lists,
    /// in order; which of them play to or record from the device is decided
    /// from each stream's `pw-cli info` output.
    pub fn stream_candidates(&self, status_output: &str) -> (r: Vec<u32>)
        ensures
            r@ == stream_candidates_in(status_output@),
    {
        let text = to_chars(status_output);
        let ls = lines_of(text.as_slice());
        let ghost all = views(ls@);
        let mut ids: Vec<u32> = Vec::new();
        let mut in_audio = false;
        let mut in_streams = false;
        let n = ls.len();
        let mut i: usize = 0;
        let dot = to_chars(".");
        proof {
            assert(all.skip(0) == all);
            reveal_strlit("Audio");
            reveal_strlit("Video");
            reveal_strlit("Settings");
            reveal_strlit(".");
        }
        while i < n
            invariant
                i <= n,
                n == ls@.len(),
                all == views(ls@),
                all == lines(status_output@),
                dot@ == "."@,
                ids@ + streams_from(all.skip(i as int), in_audio, in_streams)
                    == stream_candidates_in(status_output@),
            decreases n - i,
        {
            let ghost rest = all.skip(i as int);
            assert(rest[0] == ls@[i as int]@);
            assert(rest.drop_first() == all.skip(i + 1));
            let line = ls[i].as_slice();
            let t = trim_chars(line);
            if eq_str(t, "Audio") {
                in_audio = true;
            } else if in_audio && (eq_str(t, "Video") || eq_str(t, "Settings")) {
                assert(ids@ + Seq::<u32>::empty() == ids@);
                return ids;
            } else if in_audio && contains_str(line, "└─ Streams:") {
                in_streams = true;
            } else if in_streams && in_audio {
                let ts = trim_start_chars(line);
                if !contains_str(ts, "│") && !contains_str(ts, "├") && !contains_str(ts, "└") {
                    match find_chars(ts, dot.as_slice()) {
                        Some(k) => {
                            proof {
                                lemma_find(ts@, dot@);
                                assert(occurs_at(ts@, dot@, k as int));
                            }
                            let id_text = trim_chars(vstd::slice::slice_subrange(ts, 0, k));
                            match parse_u32_chars(id_text) {
                                Some(id) => {
                                    let ghost before = ids@;
                                    ids.push(id);
                                    assert(ids@ + streams_from(all.skip(i + 1), in_audio, in_streams)
                                        == before + (seq![id] + streams_from(all.skip(i + 1), in_audio, in_streams)));
                                },
                                None => {},
                            }
                        },
                        None => {},
                    }
                }
            }
            i = i + 1;
        }
        assert(all.skip(n as int).len() == 0);
        assert(ids@ + Seq::<u32>::empty() == ids@);
        ids
    }

    /// Whether a stream, by its `pw-cli info` output, plays to a sink (for
    /// `Sink`) or records from a source (for `Source`).
    pub fn is_stream_for_device_type(&self, info_output: &str, device_type: DeviceType) -> (b: bool)
        ensures
            b == stream_class_in(info_output@, device_type),
    {
        let text = to_chars(info_output);
        let ls = lines_of(text.as_slice());
        let ghost all = views(ls@);
        let n = ls.len();
        assert(all.skip(0) == all);
        for i in 0..n
            invariant
                n == ls@.len(),
                all == views(ls@),
                all == lines(info_output@),
                stream_class_in(info_output@, device_type) == stream_class_in_lines(
                    all.skip(i as int),
                    device_type,
                ),
        {
            let ghost rest = all.skip(i as int);
            assert(rest[0] == ls@[i as int]@);
            assert(rest.drop_first() == all.skip(i + 1));
            let line = ls[i].as_slice();
            if contains_str(line, "media.class") {
                let lower = lowercase_chars(line);
                let lower_text = string_of(lower.as_slice());
                return class_line_matches(lower_text.as_str(), device_type);
            }
        }
        assert(all.skip(n as int).len() == 0);
        false
    }

    /// The command that points a stream at the device with the given
    /// serial.
    pub fn move_stream_to_device(&self, stream_id: u32, device_serial: &str) -> (c: Command)
        ensures
            c@ == move_cmd(stream_id, device_serial@),
    {
        let mut args: Vec<String> = Vec::new();
        args.push(String::from_str("-n"));
        args.push(String::from_str("default"));
        args.push(decimal_string(stream_id));
        args.push(String::from_str("target.object"));
        args.push(String::from_str(device_serial));
        let c = command_of(Program::PwMetadata, args);
        assert(c@.args == move_cmd(stream_id, device_serial@).args);
        c
    }
}

/// Every device read from the lines `ls` is of type `ty`, and its name is
/// its description.
proof fn lemma_devices_from_typed(ls: Seq<Seq<char>>, ty: DeviceType, in_audio: bool, in_target: bool)
    ensures
        forall|i: int|
            0 <= i < devices_from(ls, ty, in_audio, in_target).len() ==> {
                let d = #[trigger] devices_from(ls, ty, in_audio, in_target)[i];
                d.device_type == ty && d.name == d.description
            },
    decreases ls.len(),
{
    if ls.len() > 0 {
        let rest = ls.drop_first();
        lemma_devices_from_typed(rest, ty, true, in_target);
        lemma_devices_from_typed(rest, ty, in_audio, true);
        lemma_devices_from_typed(rest, ty, in_audio, false);
        lemma_devices_from_typed(rest, ty, in_audio, in_target);
        let r = devices_from(rest, ty, in_audio, in_target);
        match device_line(ls[0], ty) {
            Some(d) => {
                assert forall|i: int| 1 <= i < (seq![d] + r).len() implies (seq![d] + r)[i] == r[i - 1] by {}
            },
            None => {},
        }
    }
}

/// The devices listed for a type are all of that type, each named by its
/// description.
pub proof fn law_listed_devices_have_requested_type(output: Seq<char>, ty: DeviceType)
    ensures
        forall|i: int|
            0 <= i < devices_in(output, ty).len() ==> {
                let d = #[trigger] devices_in(output, ty)[i];
                d.device_type == ty && d.name == d.description
            },
{
    lemma_devices_from_typed(lines(output), ty, false, false);
}

/// Reading stops at a `Video` line once the `Audio` part has been seen:
/// appending lines that start with one changes nothing, as long as the
/// lines before it hold no `Video` or `Settings` line.
proof fn lemma_devices_stop_at_video(
    l1: Seq<Seq<char>>,
    l2: Seq<Seq<char>>,
    ty: DeviceType,
    in_audio: bool,
    in_target: bool,
)
    requires
        l2.len() > 0,
        trim(l2[0]) == "Video"@,
        in_audio || exists|i: int| 0 <= i < l1.len() && trim(l1[i]) == "Audio"@,
        forall|i: int|
            0 <= i < l1.len() ==> trim(#[trigger] l1[i]) != "Video"@ && trim(l1[i]) != "Settings"@,
    ensures
        devices_from(l1 + l2, ty, in_audio, in_target) == devices_from(l1, ty, in_audio, in_target),
    decreases l1.len(),
{
    reveal_strlit("Video");
    reveal_strlit("Audio");
    assert("Video"@[0] != "Audio"@[0]);
    if l1.len() == 0 {
        assert(l1 + l2 == l2);
        assert(in_audio);
        assert(trim(l2[0]) != "Audio"@);
    } else {
        let line = l1[0];
        let rest = l1.drop_first();
        let both = l1 + l2;
        assert(both[0] == line);
        assert(both.drop_first() == rest + l2);
        assert(trim(line) != "Video"@ && trim(line) != "Settings"@);
        assert forall|i: int| 0 <= i < rest.len() implies trim(#[trigger] rest[i]) != "Video"@ && trim(
            rest[i],
        ) != "Settings"@ by {
            assert(rest[i] == l1[i + 1]);
        }
        let t = trim(line);
        if t != "Audio"@ && !in_audio {
            let k = choose|i: int| 0 <= i < l1.len() && trim(l1[i]) == "Audio"@;
            assert(k != 0);
            assert(rest[k - 1] == l1[k]);
            assert(exists|i: int| 0 <= i < rest.len() && trim(rest[i]) == "Audio"@);
        }
        if t == "Audio"@ {
            lemma_devices_stop_at_video(rest, l2, ty, true, in_target);
        } else if in_audio && contains(line, section_heading(ty)) {
            lemma_devices_stop_at_video(rest, l2, ty, in_audio, true);
        } else if in_target && contains(line, "├─"@) && !contains(line, section_heading(ty)) {
            lemma_devices_stop_at_video(rest, l2, ty, in_audio, false);
        } else {
            lemma_devices_stop_at_video(rest, l2, ty, in_audio, in_target);
        }
    }
}

/// Text after the `Video` line is not read: for output `a` that ends with a
/// line break, has a line that trims to `Audio` and none that trims to
/// `Video` or `Settings`, appending a `Video` line and anything after it
/// leaves the devices as they are.
pub proof fn law_text_after_video_ignored(a: Seq<char>, b: Seq<char>, ty: DeviceType)
    requires
        a.len() > 0,
        a.last() == '\n',
        exists|i: int| 0 <= i < lines(a).len() && trim(lines(a)[i]) == "Audio"@,
        forall|i: int|
            0 <= i < lines(a).len() ==> trim(#[trigger] lines(a)[i]) != "Video"@ && trim(lines(a)[i])
                != "Settings"@,
    ensures
        devices_in(a + "Video\n"@ + b, ty) == devices_in(a, ty),
{
    reveal_strlit("Video\n");
    reveal_strlit("Video");
    let v: Seq<char> = "Video\n"@;
    assert(a + v + b == a + (v + b));
    crate::text::lemma_lines_concat(a, v + b);
    crate::text::lemma_lines_concat(v, b);
    let w: Seq<char> = "Video"@;
    assert(v == w + seq!['\n']);
    crate::text::lemma_single_line(w, seq![]);
    assert(Seq::<char>::empty() + w == w);
    assert(lines(v) == seq![w]);
    let l2 = lines(v) + lines(b);
    assert(l2[0] == w);
    assert(!crate::text::is_ws(w[0]));
    assert(crate::text::trim_start(w) == w);
    assert(!crate::text::is_ws(w.last()));
    assert(crate::text::trim_end(w) == w);
    lemma_devices_stop_at_video(lines(a), l2, ty, false, false);
}

/// A device line reads as its fields. Take a lead made of whitespace, tree
/// bars `│` and default marks `*`, with at least one bar; an ID; and a
/// description that neither starts nor ends with whitespace and holds no
/// tree drawing (`│`, `├`, `└`) and no `*` (dots and brackets are fine). The
/// line `lead ID. description [vol: 0.54]` reads as the device with that ID,
/// exactly that description (and name), of the requested type, that is the
/// default exactly when the lead holds a `*`. The description is all the
/// text after the first `.`, cut at the last `[vol:`.
pub proof fn law_device_line_reads_fields(lead: Seq<char>, id: u32, desc: Seq<char>, ty: DeviceType)
    requires
        forall|i: int|
            0 <= i < lead.len() ==> is_ws(#[trigger] lead[i]) || lead[i] == '│' || lead[i] == '*',
        exists|i: int| 0 <= i < lead.len() && lead[i] == '│',
        desc.len() > 0,
        !is_ws(desc[0]),
        !is_ws(desc.last()),
        lacks(desc, '│'),
        lacks(desc, '├'),
        lacks(desc, '└'),
        lacks(desc, '*'),
    ensures
        device_line(lead + decimal(id as nat) + ". "@ + desc + " [vol: 0.54]"@, ty) == Some(
            AudioDeviceView {
                id: id,
                name: desc,
                description: desc,
                is_default: exists|i: int| 0 <= i < lead.len() && lead[i] == '*',
                device_type: ty,
            },
        ),
{
    reveal_strlit(". ");
    reveal_strlit(" [vol: 0.54]");
    reveal_strlit("│");
    reveal_strlit(".");
    reveal_strlit("*");
    reveal_strlit("├─");
    reveal_strlit("└─");
    reveal_strlit("[vol:");
    let d = decimal(id as nat);
    let b: Seq<char> = ". "@;
    let t: Seq<char> = " [vol: 0.54]"@;
    let rest = d + b + desc + t;
    let line = lead + d + b + desc + t;
    assert(line == lead + rest);
    lemma_decimal_digits(id as nat);
    let ll = lead.len() as int;
    let dl = d.len() as int;
    let n = desc.len() as int;
    assert forall|i: int| 0 <= i < d.len() implies d[i] != '*' && d[i] != '│' && d[i] != '├' && d[i]
        != '└' && d[i] != '.' && !is_ws(d[i]) by {
        assert(is_digit(d[i]));
    }

    // The rest of the line holds no bar, tree drawing or mark.
    assert(lacks(b, '*') && lacks(t, '*') && lacks(b, '│') && lacks(t, '│'));
    assert(lacks(b, '├') && lacks(b, '└') && lacks(t, '├') && lacks(t, '└'));
    lemma_lacks_concat(d, b, '*');
    lemma_lacks_concat(d + b, desc, '*');
    lemma_lacks_concat(d + b + desc, t, '*');
    lemma_lacks_concat(d, b, '│');
    lemma_lacks_concat(d + b, desc, '│');
    lemma_lacks_concat(d + b + desc, t, '│');
    lemma_lacks_concat(d, b, '├');
    lemma_lacks_concat(d + b, desc, '├');
    lemma_lacks_concat(d + b + desc, t, '├');
    lemma_lacks_concat(d, b, '└');
    lemma_lacks_concat(d + b, desc, '└');
    lemma_lacks_concat(d + b + desc, t, '└');

    // A bar and a dot are there; a mark exactly when the lead has one.
    let k = choose|i: int| 0 <= i < lead.len() && lead[i] == '│';
    assert(line.subrange(k, k + 1) == "│"@);
    assert(occurs_at(line, "│"@, k));
    assert(line.subrange(ll + dl, ll + dl + 1) == "."@);
    assert(occurs_at(line, "."@, ll + dl));
    if exists|i: int| 0 <= i < lead.len() && lead[i] == '*' {
        let m = choose|i: int| 0 <= i < lead.len() && lead[i] == '*';
        assert(line.subrange(m, m + 1) == "*"@);
        assert(occurs_at(line, "*"@, m));
    } else {
        assert(lacks(lead, '*'));
        lemma_lacks_concat(lead, rest, '*');
        lemma_lacks_no_occurrence(line, "*"@);
    }

    // Removing bars, tree drawing and marks leaves whitespace in front of
    // the rest.
    let bar = seq!['│'];
    let star = seq!['*'];
    assert("│"@ == bar);
    assert("*"@ == star);
    lemma_remove_char_concat(lead, rest, '│');
    lemma_remove_absent(rest, bar);
    let r1 = remove_all(lead, bar);
    lemma_remove_char_from_marks(lead, '│', '*');
    assert(lacks(r1, '├') && lacks(r1, '└'));
    lemma_lacks_concat(r1, rest, '├');
    lemma_lacks_concat(r1, rest, '└');
    lemma_remove_absent(r1 + rest, "├─"@);
    lemma_remove_absent(r1 + rest, "└─"@);
    lemma_remove_char_concat(r1, rest, '*');
    lemma_remove_absent(rest, star);
    let sp = remove_all(r1, star);
    assert forall|i: int| 0 <= i < r1.len() implies is_ws(#[trigger] r1[i]) || r1[i] == '*' || r1[i]
        == '*' by {}
    lemma_remove_char_from_marks(r1, '*', '*');
    assert forall|i: int| 0 <= i < sp.len() implies is_ws(#[trigger] sp[i]) by {
        assert(sp[i] != '*') by {
            lacks_after_remove(r1, '*', i);
        }
    }
    lemma_trim_start_ws_prefix(sp, rest);
    assert(rest[0] == d[0]);
    assert(rest.last() == t.last());
    lemma_trim_unchanged(rest);
    let c = cleaned_line(line);
    assert(c == rest);

    // The first dot follows the ID.
    assert(c.subrange(dl, dl + 1) == "."@);
    assert forall|j: int| 0 <= j < dl implies !occurs_at(c, "."@, j) by {
        assert(c[j] == d[j]);
        if occurs_at(c, "."@, j) {
            assert(c.subrange(j, j + 1)[0] == c[j]);
        }
    }
    lemma_find_first(c, "."@, dl);
    assert(c.take(dl) == d);
    lemma_trim_unchanged(d);
    lemma_parse_decimal(id);

    // The name part is the description and the volume.
    let after = c.skip(dl + 1);
    let dt = desc + t;
    assert(after == seq![' '] + dt);
    lemma_trim_start_ws_prefix(seq![' '], dt);
    assert(dt[0] == desc[0]);
    assert(dt.last() == t.last());
    lemma_trim_unchanged(dt);
    assert(trim(after) == dt);

    // The last `[vol:` is the one of the volume.
    let vol: Seq<char> = "[vol:"@;
    assert(dt.subrange(n + 1, n + 6) == vol);
    assert forall|j: int| n + 1 < j implies !occurs_at(dt, vol, j) by {
        if occurs_at(dt, vol, j) {
            assert(dt.subrange(j, j + 5)[0] == dt[j]);
            assert(dt[j] == t[j - n]);
        }
    }
    lemma_rfind_last(dt, vol, n + 1);
    let kept = dt.take(n + 1);
    assert(kept == desc.push(' '));
    assert(kept.last() == ' ');
    assert(kept.drop_last() == desc);
    assert(crate::text::trim_end(kept) == crate::text::trim_end(desc));
    assert(kept[0] == desc[0]);
    assert(trim(kept) == crate::text::trim_end(desc));
    lemma_trim_unchanged(desc);
    assert(crate::text::trim_start(desc) == desc);
}

impl Default for PipeWireBackend {
    fn default() -> (b: Self)
        ensures
            b == PipeWireBackend,
    {
        PipeWireBackend::new()
    }
}

/// Whether a lower-cased `media.class` line matches the device type.
pub fn class_line_matches(lowered: &str, device_type: DeviceType) -> (b: bool)
    ensures
        b == class_matches(lowered@, device_type),
{
    let l = to_chars(lowered);
    match device_type {
        DeviceType::Sink => contains_str(l.as_slice(), "output"),
        DeviceType::Source => contains_str(l.as_slice(), "input"),
    }
}

} // verus!
