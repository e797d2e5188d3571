//! Switching the default device, and moving the running streams to it.
//!
//! The switch alternates between running a PipeWire tool and deciding what
//! to do with its output. The decisions live here, as a state machine: each
//! step takes the outcome of the last command and gives the next command to
//! run, or the final result. The caller runs the commands.
use vstd::prelude::*;
use crate::DeviceType;
use crate::backend::BackendError;
use crate::backend::pipewire::{
    info_cmd, info_command, move_cmd, serial_in, set_default_cmd, set_default_command, status_cmd,
    status_command, stream_candidates_in, stream_class_in, Command, CommandView, PipeWireBackend,
};

verus! {

/// Where a switch stands.
#[derive(Debug, Clone, Copy, PartialEq, Eq, Structural)]
pub enum Stage {
    /// Waiting for `wpctl set-default`.
    SettingDefault,
    /// Waiting for `pw-cli info` of the device.
    ReadingSerial,
    /// Waiting for `wpctl status`.
    ReadingStatus,
    /// Waiting for `pw-cli info` of the candidate stream at `next`.
    Classifying,
    /// Waiting for `pw-metadata` for the selected stream at `next`.
    Moving,
    /// Done.
    Finished,
}

/// What the caller does next.
#[derive(Debug)]
pub enum Action {
    /// Run the command and hand its outcome to [`DefaultSwitch::step`].
    Run(Command),
    /// Stop with this result.
    Finish(Result<(), BackendError>),
}

/// The mathematical value of an [`Action`].
pub enum ActionView {
    Run(CommandView),
    Finish(Result<(), BackendError>),
}

impl View for Action {
    type V = ActionView;

    open spec fn view(&self) -> ActionView {
        match self {
            Action::Run(c) => ActionView::Run(c@),
            Action::Finish(r) => ActionView::Finish(*r),
        }
    }
}

/// Switching the default device to `device_id` and, when asked, moving the
/// streams of its type to it.
pub struct DefaultSwitch {
    device_id: u32,
    device_type: DeviceType,
    move_streams: bool,
    stage: Stage,
    serial: String,
    candidates: Vec<u32>,
    accepted: Vec<u32>,
    next: usize,
    verdicts: Ghost<Seq<bool>>,
}

/// The mathematical value of a [`DefaultSwitch`]. `verdicts[i]` records
/// whether candidate `i` turned out to be a stream of the device's type.
pub struct SwitchView {
    pub device_id: u32,
    pub device_type: DeviceType,
    pub move_streams: bool,
    pub stage: Stage,
    pub serial: Seq<char>,
    pub candidates: Seq<u32>,
    pub accepted: Seq<u32>,
    pub next: nat,
    pub verdicts: Seq<bool>,
}

impl View for DefaultSwitch {
    type V = SwitchView;

    closed spec fn view(&self) -> SwitchView {
        SwitchView {
            device_id: self.device_id,
            device_type: self.device_type,
            move_streams: self.move_streams,
            stage: self.stage,
            serial: self.serial@,
            candidates: self.candidates@,
            accepted: self.accepted@,
            next: self.next as nat,
            verdicts: self.verdicts@,
        }
    }
}

/// The elements of `c` whose flag in `flags` is set, in order
/// (`flags[i]` belongs to `c[i]`).
pub open spec fn select(c: Seq<u32>, flags: Seq<bool>) -> Seq<u32>
    decreases flags.len(),
{
    if flags.len() == 0 {
        seq![]
    } else {
        let r = select(c, flags.drop_last());
        if flags.last() {
            r.push(c[flags.len() - 1])
        } else {
            r
        }
    }
}

/// Whether a stream counts as one of the device's type, from the outcome of
/// its `pw-cli info`: a failed lookup counts as no.
pub open spec fn verdict(outcome: Result<String, String>, ty: DeviceType) -> bool {
    match outcome {
        Ok(o) => stream_class_in(o@, ty),
        Err(_) => false,
    }
}

/// The state before the first command.
pub open spec fn start_view(device_id: u32, device_type: DeviceType, move_streams: bool) -> SwitchView {
    SwitchView {
        device_id: device_id,
        device_type: device_type,
        move_streams: move_streams,
        stage: Stage::SettingDefault,
        serial: seq![],
        candidates: seq![],
        accepted: seq![],
        next: 0,
        verdicts: seq![],
    }
}

/// The state with the stage set to `Finished`.
pub open spec fn finished(v: SwitchView) -> SwitchView {
    SwitchView { stage: Stage::Finished, ..v }
}

/// Start moving the selected streams, or finish when there are none.
pub open spec fn begin_moving(v: SwitchView) -> (SwitchView, ActionView) {
    if v.accepted.len() > 0 {
        (SwitchView { stage: Stage::Moving, next: 0, ..v }, ActionView::Run(move_cmd(v.accepted[0], v.serial)))
    } else {
        (finished(v), ActionView::Finish(Ok(())))
    }
}

/// Ask about the candidate at `next`, or go on to moving when all are
/// classified.
pub open spec fn classify_next(v: SwitchView) -> (SwitchView, ActionView) {
    if v.next < v.candidates.len() {
        (SwitchView { stage: Stage::Classifying, ..v }, ActionView::Run(info_cmd(v.candidates[v.next as int])))
    } else {
        begin_moving(v)
    }
}

/// One step of the switch: the next state and action, given the outcome of
/// the last command (`Ok` with its output, or `Err` with a message).
pub open spec fn transition(v: SwitchView, outcome: Result<String, String>) -> (SwitchView, ActionView) {
    match v.stage {
        Stage::SettingDefault => match outcome {
            Err(m) => (finished(v), ActionView::Finish(Err(BackendError::SetDefaultFailed(m)))),
            Ok(_) => if v.move_streams {
                (SwitchView { stage: Stage::ReadingSerial, ..v }, ActionView::Run(info_cmd(v.device_id)))
            } else {
                (finished(v), ActionView::Finish(Ok(())))
            },
        },
        Stage::ReadingSerial => match outcome {
            Err(m) => (finished(v), ActionView::Finish(Err(BackendError::SerialLookupFailed(m)))),
            Ok(o) => match serial_in(o@) {
                None => (finished(v), ActionView::Finish(Err(BackendError::SerialNotFound(v.device_id)))),
                Some(s) => (SwitchView { stage: Stage::ReadingStatus, serial: s, ..v }, ActionView::Run(status_cmd())),
            },
        },
        Stage::ReadingStatus => match outcome {
            Err(m) => (finished(v), ActionView::Finish(Err(BackendError::StreamListFailed(m)))),
            Ok(o) => classify_next(
                SwitchView {
                    candidates: stream_candidates_in(o@),
                    accepted: seq![],
                    next: 0,
                    verdicts: seq![],
                    ..v
                },
            ),
        },
        Stage::Classifying => {
            let ok = verdict(outcome, v.device_type);
            let c = v.candidates[v.next as int];
            classify_next(
                SwitchView {
                    verdicts: v.verdicts.push(ok),
                    accepted: if ok { v.accepted.push(c) } else { v.accepted },
                    next: v.next + 1,
                    ..v
                },
            )
        },
        Stage::Moving => if v.next + 1 < v.accepted.len() {
            (SwitchView { next: v.next + 1, ..v }, ActionView::Run(move_cmd(v.accepted[v.next + 1int], v.serial)))
        } else {
            (finished(v), ActionView::Finish(Ok(())))
        },
        Stage::Finished => (v, ActionView::Finish(Ok(()))),
    }
}

/// What holds of the state between steps.
pub open spec fn switch_wf(v: SwitchView) -> bool {
    match v.stage {
        Stage::SettingDefault => true,
        Stage::ReadingSerial => v.move_streams,
        Stage::ReadingStatus => v.move_streams,
        Stage::Classifying => {
            &&& v.move_streams
            &&& v.next < v.candidates.len()
            &&& v.verdicts.len() == v.next
            &&& v.accepted == select(v.candidates, v.verdicts)
        },
        Stage::Moving => {
            &&& v.move_streams
            &&& v.verdicts.len() == v.candidates.len()
            &&& v.accepted == select(v.candidates, v.verdicts)
            &&& v.next < v.accepted.len()
        },
        Stage::Finished => true,
    }
}

impl DefaultSwitch {
    /// Starts switching the default to `device_id`; the first command sets
    /// the default.
    pub fn start(device_id: u32, device_type: DeviceType, move_streams: bool) -> (r: (
        DefaultSwitch,
        Command,
    ))
        ensures
            r.0@ == start_view(device_id, device_type, move_streams),
            switch_wf(r.0@),
            r.1@ == set_default_cmd(device_id),
    {
        let s = DefaultSwitch {
            device_id,
            device_type,
            move_streams,
            stage: Stage::SettingDefault,
            serial: String::new(),
            candidates: Vec::new(),
            accepted: Vec::new(),
            next: 0,
            verdicts: Ghost(Seq::empty()),
        };
        (s, set_default_command(device_id))
    }

    /// Whether the switch is done.
    pub fn is_finished(&self) -> (b: bool)
        ensures
            b == (self@.stage == Stage::Finished),
    {
        self.stage == Stage::Finished
    }

    fn begin_moving(&mut self) -> (a: Action)
        requires
            old(self)@.move_streams,
            old(self)@.verdicts.len() == old(self)@.candidates.len(),
            old(self)@.accepted == select(old(self)@.candidates, old(self)@.verdicts),
        ensures
            (final(self)@, a@) == begin_moving(old(self)@),
            switch_wf(final(self)@),
    {
        if self.accepted.len() > 0 {
            self.stage = Stage::Moving;
            self.next = 0;
            let backend = PipeWireBackend;
            Action::Run(backend.move_stream_to_device(self.accepted[0], self.serial.as_str()))
        } else {
            self.stage = Stage::Finished;
            Action::Finish(Ok(()))
        }
    }

    fn classify_next(&mut self) -> (a: Action)
        requires
            old(self)@.move_streams,
            old(self)@.next <= old(self)@.candidates.len(),
            old(self)@.verdicts.len() == old(self)@.next,
            old(self)@.accepted == select(old(self)@.candidates, old(self)@.verdicts),
        ensures
            (final(self)@, a@) == classify_next(old(self)@),
            switch_wf(final(self)@),
    {
        if self.next < self.candidates.len() {
            self.stage = Stage::Classifying;
            Action::Run(info_command(self.candidates[self.next]))
        } else {
            self.begin_moving()
        }
    }

    /// Takes the outcome of the last command (`Ok` with its output, `Err`
    /// with a message) and gives the next action.
    pub fn step(&mut self, outcome: Result<String, String>) -> (a: Action)
        requires
            switch_wf(old(self)@),
            old(self)@.stage != Stage::Finished,
        ensures
            (final(self)@, a@) == transition(old(self)@, outcome),
            switch_wf(final(self)@),
    {
        let backend = PipeWireBackend;
        match self.stage {
            Stage::SettingDefault => match outcome {
                Err(m) => {
                    self.stage = Stage::Finished;
                    Action::Finish(Err(BackendError::SetDefaultFailed(m)))
                },
                Ok(_) => {
                    if self.move_streams {
                        self.stage = Stage::ReadingSerial;
                        Action::Run(info_command(self.device_id))
                    } else {
                        self.stage = Stage::Finished;
                        Action::Finish(Ok(()))
                    }
                },
            },
            Stage::ReadingSerial => match outcome {
                Err(m) => {
                    self.stage = Stage::Finished;
                    Action::Finish(Err(BackendError::SerialLookupFailed(m)))
                },
                Ok(o) => match backend.get_device_serial(o.as_str(), self.device_id) {
                    Ok(s) => {
                        self.serial = s;
                        self.stage = Stage::ReadingStatus;
                        Action::Run(status_command())
                    },
                    Err(_) => {
                        self.stage = Stage::Finished;
                        Action::Finish(Err(BackendError::SerialNotFound(self.device_id)))
                    },
                },
            },
            Stage::ReadingStatus => match outcome {
                Err(m) => {
                    self.stage = Stage::Finished;
                    Action::Finish(Err(BackendError::StreamListFailed(m)))
                },
                Ok(o) => {
                    self.candidates = backend.stream_candidates(o.as_str());
                    self.accepted = Vec::new();
                    self.next = 0;
                    self.verdicts = Ghost(Seq::empty());
                    self.classify_next()
                },
            },
            Stage::Classifying => {
                let ok = match &outcome {
                    Ok(o) => backend.is_stream_for_device_type(o.as_str(), self.device_type),
                    Err(_) => false,
                };
                assert(self.candidates@.len() == self.candidates.len());
                let c = self.candidates[self.next];
                let ghost old_flags: Seq<bool> = self.verdicts@;
                let ghost flags = old_flags.push(ok);
                assert(flags.drop_last() =~= old_flags);
                assert(flags.last() == ok);
                if ok {
                    self.accepted.push(c);
                }
                self.verdicts = Ghost(flags);
                self.next = self.next + 1;
                self.classify_next()
            },
            Stage::Moving => {
                assert(self@.stage == Stage::Moving);
                assert(self.next < self.accepted@.len());
                assert(self.accepted@.len() == self.accepted.len());
                if self.next + 1 < self.accepted.len() {
                    self.next = self.next + 1;
                    Action::Run(backend.move_stream_to_device(self.accepted[self.next], self.serial.as_str()))
                } else {
                    self.stage = Stage::Finished;
                    Action::Finish(Ok(()))
                }
            },
            Stage::Finished => Action::Finish(Ok(())),
        }
    }
}

/// Without stream moving, only the default is changed: the first command
/// sets the default (see [`DefaultSwitch::start`]) and, once it succeeds,
/// the switch finishes with success and runs nothing more.
pub proof fn law_without_moving_only_default_changes(
    device_id: u32,
    device_type: DeviceType,
    output: String,
)
    ensures
        transition(start_view(device_id, device_type, false), Ok(output)) == (
            finished(start_view(device_id, device_type, false)),
            ActionView::Finish(Ok(())),
        ),
{
}

/// A failure to set the default ends the switch with that failure; no
/// stream is looked at or moved.
pub proof fn law_default_failure_stops(
    device_id: u32,
    device_type: DeviceType,
    move_streams: bool,
    message: String,
)
    ensures
        transition(start_view(device_id, device_type, move_streams), Err(message)) == (
            finished(start_view(device_id, device_type, move_streams)),
            ActionView::Finish(Err(BackendError::SetDefaultFailed(message))),
        ),
{
}

/// Moving one stream may fail without harm: while moving, the step goes on
/// the same way whatever the outcome of the last move, and never ends in
/// failure.
pub proof fn law_move_failures_ignored(v: SwitchView, output: String, message: String)
    requires
        switch_wf(v),
        v.stage == Stage::Moving,
    ensures
        transition(v, Ok(output)) == transition(v, Err(message)),
        transition(v, Err(message)).1 is Run || transition(v, Err(message)).1 == ActionView::Finish(
            Ok(()),
        ),
{
}

/// Classifying a candidate records whether its `pw-cli info` showed a
/// stream of the device's type (a failed lookup counts as no), and keeps the
/// candidate exactly when it did.
pub proof fn law_classification_keeps_matching_streams(v: SwitchView, outcome: Result<String, String>)
    requires
        switch_wf(v),
        v.stage == Stage::Classifying,
    ensures
        transition(v, outcome).0.verdicts == v.verdicts.push(verdict(outcome, v.device_type)),
        transition(v, outcome).0.candidates == v.candidates,
        transition(v, outcome).0.accepted == (if verdict(outcome, v.device_type) {
            v.accepted.push(v.candidates[v.next as int])
        } else {
            v.accepted
        }),
{
}

/// Every move goes to the selected streams, in order, and to the device's
/// serial: whenever a step leaves the switch moving, every candidate has a
/// verdict, and the command moves the stream at `next` among the candidates
/// whose verdict is set.
pub proof fn law_moves_target_selected_streams(v: SwitchView, outcome: Result<String, String>)
    requires
        switch_wf(v),
    ensures
        ({
            let (w, a) = transition(v, outcome);
            w.stage == Stage::Moving ==> {
                &&& w.verdicts.len() == w.candidates.len()
                &&& w.next < select(w.candidates, w.verdicts).len()
                &&& a == ActionView::Run(
                    move_cmd(select(w.candidates, w.verdicts)[w.next as int], w.serial),
                )
            }
        }),
{
    if v.stage == Stage::Classifying {
        let ok = verdict(outcome, v.device_type);
        let f = v.verdicts.push(ok);
        assert(f.drop_last() == v.verdicts);
    }
}

/// After a move, the next selected stream is moved: while moving with the
/// stream at `next` done, when a selected stream remains after it the step
/// moves that one to the device's serial and stays moving; only when none
/// remains does the switch finish, with success.
pub proof fn law_moving_continues_with_next_selected(v: SwitchView, outcome: Result<String, String>)
    requires
        switch_wf(v),
        v.stage == Stage::Moving,
    ensures
        ({
            let sel = select(v.candidates, v.verdicts);
            let (w, a) = transition(v, outcome);
            if v.next + 1 < sel.len() {
                &&& w.stage == Stage::Moving
                &&& w.next == v.next + 1
                &&& w.candidates == v.candidates
                &&& w.verdicts == v.verdicts
                &&& w.serial == v.serial
                &&& a == ActionView::Run(move_cmd(sel[v.next + 1int], v.serial))
            } else {
                &&& w.stage == Stage::Finished
                &&& a == ActionView::Finish(Ok(()))
            }
        }),
{
}

/// The actions that the switch gives, from state `v`, for the outcomes
/// `outs` of the commands it asks for, up to and including its final result.
pub open spec fn run_actions(v: SwitchView, outs: Seq<Result<String, String>>) -> Seq<ActionView>
    decreases outs.len(),
{
    if outs.len() == 0 {
        seq![]
    } else {
        let (w, a) = transition(v, outs[0]);
        if a is Finish {
            seq![a]
        } else {
            seq![a] + run_actions(w, outs.drop_first())
        }
    }
}

/// The moves still to come while moving: one per selected stream after the
/// one at `next`, in order, each to the device's serial.
pub open spec fn remaining_moves(sel: Seq<u32>, next: int, serial: Seq<char>) -> Seq<ActionView> {
    Seq::new((sel.len() - next - 1) as nat, |i: int| ActionView::Run(move_cmd(sel[next + 1 + i], serial)))
}

/// Every selected stream is moved, in order, before the switch finishes:
/// while moving, whatever the moves' outcomes, the switch asks for the move
/// of each selected stream after the one at `next`, in order, and then
/// finishes with success.
pub proof fn law_all_selected_streams_moved(v: SwitchView, outs: Seq<Result<String, String>>)
    requires
        switch_wf(v),
        v.stage == Stage::Moving,
        outs.len() == select(v.candidates, v.verdicts).len() - v.next,
    ensures
        run_actions(v, outs) == remaining_moves(select(v.candidates, v.verdicts), v.next as int, v.serial).push(
            ActionView::Finish(Ok(())),
        ),
    decreases outs.len(),
{
    let sel = select(v.candidates, v.verdicts);
    let (w, a) = transition(v, outs[0]);
    law_moving_continues_with_next_selected(v, outs[0]);
    if v.next + 1 < sel.len() {
        assert(switch_wf(w));
        law_all_selected_streams_moved(w, outs.drop_first());
        let rest = remaining_moves(sel, w.next as int, v.serial).push(ActionView::Finish(Ok(())));
        assert(seq![a] + rest == remaining_moves(sel, v.next as int, v.serial).push(ActionView::Finish(Ok(()))));
    } else {
        assert(remaining_moves(sel, v.next as int, v.serial).len() == 0);
        assert(remaining_moves(sel, v.next as int, v.serial).push(ActionView::Finish(Ok(()))) == seq![a]);
    }
}

} // verus!
