//! The session state machine and the runtime that owns the hook engine and
//! the command registry.  The default driver is a three-step echo machine:
//! `session_started`, one `output_text_delta` acknowledging the input, then
//! `session_ended{reason: "completed"}`.  Every candidate frame is offered to
//! the hook engine first; an abort discards the candidate, emits a synthetic
//! terminal frame carrying the abort reason, and ends the session.

use vstd::prelude::*;

use crate::commands::{Command, CommandRegistry, CommandResult};
use crate::frames::{event_wire_safe, is_terminal, Event, EventKind};
use crate::hooks::{
    first_abort, hooks_model, Hook, HookAction, HookContext, HookEngine, HookEventKind,
    HookOutcome,
};
use crate::json::clone_string;
use crate::sys::{fresh_id, now_ms};

verus! {

broadcast use vstd::std_specs::vec::group_vec_axioms, vstd::seq::group_seq_axioms;

/// Where a session stands in its three-step life.
#[derive(Clone, Copy, PartialEq, Eq, Structural, Debug)]
pub enum Stage {
    Start,
    Output,
    End,
    Done,
}

/// The position of a stage in the three-step sequence; `Done` sits past the
/// last step.
pub open spec fn stage_index(st: Stage) -> int {
    match st {
        Stage::Start => 0,
        Stage::Output => 1,
        Stage::End => 2,
        Stage::Done => 3,
    }
}

/// The stage that follows a completed step.
pub open spec fn stage_after(st: Stage) -> Stage {
    match st {
        Stage::Start => Stage::Output,
        Stage::Output => Stage::End,
        Stage::End => Stage::Done,
        Stage::Done => Stage::Done,
    }
}

/// The hook event a step's candidate frame falls under.
pub open spec fn stage_event(st: Stage) -> HookEventKind {
    match st {
        Stage::Start => HookEventKind::SessionStarted,
        Stage::Output => HookEventKind::Output,
        Stage::End => HookEventKind::SessionEnded,
        Stage::Done => HookEventKind::SessionEnded,
    }
}

/// The stage whose step sits at position `i` of the frame sequence.
pub open spec fn stage_at(i: int) -> Stage {
    if i == 0 {
        Stage::Start
    } else if i == 1 {
        Stage::Output
    } else {
        Stage::End
    }
}

/// The candidate frame kind of a step, for the given input.
pub open spec fn step_kind_ok(st: Stage, input: Seq<char>, k: EventKind) -> bool {
    match st {
        Stage::Start => k matches EventKind::SessionStarted { input: s } && s@ == input,
        Stage::Output => k matches EventKind::OutputTextDelta { delta } && delta@ == "ack: "@
            + input,
        Stage::End => k matches EventKind::SessionEnded { reason } && reason@ == "completed"@,
        Stage::Done => false,
    }
}

/// The first step whose candidate frame a hook aborts, with the abort
/// reason, for the registered hook list.
pub open spec fn abort_step(
    m: Seq<(HookEventKind, Option<Seq<char>>)>,
) -> Option<(int, Seq<char>)> {
    if first_abort(m, HookEventKind::SessionStarted) is Some {
        Some((0, first_abort(m, HookEventKind::SessionStarted)->0))
    } else if first_abort(m, HookEventKind::Output) is Some {
        Some((1, first_abort(m, HookEventKind::Output)->0))
    } else if first_abort(m, HookEventKind::SessionEnded) is Some {
        Some((2, first_abort(m, HookEventKind::SessionEnded)->0))
    } else {
        None
    }
}

/// One session: a prompt, its dense sequence counter, its stage, and the
/// hooks consulted before each frame leaves.
#[derive(Debug)]
pub struct Session {
    pub id: String,
    pub input: String,
    pub seq: u64,
    pub stage: Stage,
    pub hooks: HookEngine,
}

impl Session {
    /// The stage and the counter agree: before `Done` the counter equals the
    /// stage's position; a finished session has emitted between one and
    /// three frames.
    pub open spec fn wf(self) -> bool {
        match self.stage {
            Stage::Done => 1 <= self.seq <= 3,
            st => self.seq == stage_index(st),
        }
    }

    /// A fresh session over the given input and hooks, under a fresh
    /// 36-character identifier.
    pub fn new(input: String, hooks: HookEngine) -> (s: Session)
        ensures
            s.wf(),
            s.stage is Start,
            s.seq == 0,
            s.id@.len() == 36,
            s.input@ == input@,
            s.hooks.hooks@ == hooks.hooks@,
    {
        Session { id: fresh_id(), input, seq: 0, stage: Stage::Start, hooks }
    }

    /// The session's opaque identifier.
    pub fn id(&self) -> (r: &str)
        ensures
            r@ == self.id@,
    {
        self.id.as_str()
    }

    /// Produces the next frame, or nothing once the session is done.
    ///
    /// The candidate frame of the current step is offered to the hooks.  If
    /// they all let it pass, it is emitted and the session advances one
    /// stage.  If one aborts, the candidate is discarded and a synthetic
    /// terminal frame carrying the abort reason is emitted under the current
    /// sequence number, and the session is done.
    pub fn next_event(&mut self) -> (r: Option<Event>)
        requires
            old(self).wf(),
        ensures
            final (self).wf(),
            final (self).id@ == old(self).id@,
            final (self).input@ == old(self).input@,
            final (self).hooks.hooks@ == old(self).hooks.hooks@,
            old(self).stage is Done ==> r is None && *final (self) == *old(self),
            !(old(self).stage is Done) ==> {
                &&& final (self).seq == old(self).seq + 1
                &&& match r {
                    Some(e) => {
                        &&& e.session_id@ == old(self).id@
                        &&& e.seq == old(self).seq
                        &&& event_wire_safe(e)
                        &&& (is_terminal(e.kind) <==> final (self).stage is Done)
                        &&& match first_abort(
                            hooks_model(old(self).hooks.hooks@),
                            stage_event(old(self).stage),
                        ) {
                            None => step_kind_ok(old(self).stage, old(self).input@, e.kind)
                                && final (self).stage == stage_after(old(self).stage),
                            Some(reason) => e.kind matches EventKind::SessionEnded {
                                reason: rr,
                            } && rr@ == reason && final (self).stage is Done,
                        }
                    },
                    None => false,
                }
            },
    {
        let (next_st, kind) = match self.stage {
            Stage::Start => (
                Stage::Output,
                EventKind::SessionStarted { input: clone_string(&self.input) },
            ),
            Stage::Output => {
                let delta = String::from_str("ack: ").concat(self.input.as_str());
                (Stage::End, EventKind::OutputTextDelta { delta })
            },
            Stage::End => (
                Stage::Done,
                EventKind::SessionEnded { reason: String::from_str("completed") },
            ),
            Stage::Done => {
                return None;
            },
        };

        let hook_event = match self.stage {
            Stage::Start => HookEventKind::SessionStarted,
            Stage::Output => HookEventKind::Output,
            Stage::End => HookEventKind::SessionEnded,
            Stage::Done => HookEventKind::SessionEnded,
        };
        proof {
            assert(hook_event == stage_event(self.stage));
        }

        let timestamp_ms = now_ms();
        let output = match &kind {
            EventKind::OutputTextDelta { delta } => Some(clone_string(delta)),
            _ => None,
        };
        let ctx = HookContext {
            session_id: clone_string(&self.id),
            seq: self.seq,
            timestamp_ms,
            event: hook_event,
            output,
        };

        let seq0 = self.seq;
        match self.hooks.run(&ctx) {
            HookOutcome::Continue => {
                self.stage = next_st;
                self.seq = seq0 + 1;
                Some(
                    Event {
                        id: fresh_id(),
                        session_id: clone_string(&self.id),
                        timestamp_ms,
                        seq: seq0,
                        kind,
                    },
                )
            },
            HookOutcome::Abort { reason } => {
                self.stage = Stage::Done;
                self.seq = seq0 + 1;
                Some(
                    Event {
                        id: fresh_id(),
                        session_id: clone_string(&self.id),
                        timestamp_ms: now_ms(),
                        seq: seq0,
                        kind: EventKind::SessionEnded { reason },
                    },
                )
            },
        }
    }

    /// Drives a fresh session to its end and collects every emitted frame.
    ///
    /// The frame sequence carries dense sequence numbers 0,1,2,…  with
    /// exactly one terminal frame, at the last position.  When no hook
    /// aborts, the three echo frames come in order; when the first aborting
    /// step is k with reason R, exactly k+1 frames come, the last being
    /// `session_ended` with reason R.
    pub fn run_to_completion(&mut self) -> (events: Vec<Event>)
        requires
            old(self).wf(),
            old(self).stage is Start,
        ensures
            final (self).stage is Done,
            1 <= events@.len() <= 3,
            forall|i: int|
                0 <= i < events@.len() ==> (#[trigger] events@[i]).seq == i
                    && events@[i].session_id@ == old(self).id@ && event_wire_safe(events@[i]),
            is_terminal(events@.last().kind),
            forall|i: int|
                0 <= i < events@.len() - 1 ==> !is_terminal(#[trigger] events@[i].kind),
            match abort_step(hooks_model(old(self).hooks.hooks@)) {
                None => events@.len() == 3 && (forall|i: int|
                    0 <= i < 3 ==> step_kind_ok(
                        stage_at(i),
                        old(self).input@,
                        (#[trigger] events@[i]).kind,
                    )),
                Some((k, reason)) => events@.len() == k + 1 && (events@.last().kind
                    matches EventKind::SessionEnded { reason: rr } && rr@ == reason) && (forall|
                    i: int,
                |
                    0 <= i < k ==> step_kind_ok(
                        stage_at(i),
                        old(self).input@,
                        (#[trigger] events@[i]).kind,
                    )),
            },
    {
        let ghost m = hooks_model(old(self).hooks.hooks@);
        let mut events: Vec<Event> = Vec::new();
        loop
            invariant
                self.wf(),
                self.id@ == old(self).id@,
                self.input@ == old(self).input@,
                self.hooks.hooks@ == old(self).hooks.hooks@,
                m == hooks_model(self.hooks.hooks@),
                events@.len() == self.seq,
                self.stage is Start ==> self.seq == 0,
                forall|i: int|
                    0 <= i < events@.len() ==> (#[trigger] events@[i]).seq == i
                        && events@[i].session_id@ == old(self).id@ && event_wire_safe(events@[i]),
                !(self.stage is Done) ==> {
                    &&& events@.len() == stage_index(self.stage)
                    &&& forall|i: int|
                        0 <= i < events@.len() ==> !is_terminal(#[trigger] events@[i].kind)
                            && step_kind_ok(stage_at(i), old(self).input@, events@[i].kind)
                    &&& forall|i: int|
                        0 <= i < events@.len() ==> first_abort(m, stage_event(stage_at(i)))
                            is None
                },
                self.stage is Done ==> {
                    &&& 1 <= events@.len() <= 3
                    &&& is_terminal(events@.last().kind)
                    &&& forall|i: int|
                        0 <= i < events@.len() - 1 ==> !is_terminal(#[trigger] events@[i].kind)
                    &&& match abort_step(m) {
                        None => events@.len() == 3 && (forall|i: int|
                            0 <= i < 3 ==> step_kind_ok(
                                stage_at(i),
                                old(self).input@,
                                (#[trigger] events@[i]).kind,
                            )),
                        Some((k, reason)) => events@.len() == k + 1 && (events@.last().kind
                            matches EventKind::SessionEnded { reason: rr } && rr@ == reason) && (
                        forall|i: int|
                            0 <= i < k ==> step_kind_ok(
                                stage_at(i),
                                old(self).input@,
                                (#[trigger] events@[i]).kind,
                            )),
                    }
                },
            ensures
                self.stage is Done,
                1 <= events@.len() <= 3,
                forall|i: int|
                    0 <= i < events@.len() ==> (#[trigger] events@[i]).seq == i
                        && events@[i].session_id@ == old(self).id@ && event_wire_safe(events@[i]),
                is_terminal(events@.last().kind),
                forall|i: int|
                    0 <= i < events@.len() - 1 ==> !is_terminal(#[trigger] events@[i].kind),
                match abort_step(m) {
                    None => events@.len() == 3 && (forall|i: int|
                        0 <= i < 3 ==> step_kind_ok(
                            stage_at(i),
                            old(self).input@,
                            (#[trigger] events@[i]).kind,
                        )),
                    Some((k, reason)) => events@.len() == k + 1 && (events@.last().kind
                        matches EventKind::SessionEnded { reason: rr } && rr@ == reason) && (
                    forall|i: int|
                        0 <= i < k ==> step_kind_ok(
                            stage_at(i),
                            old(self).input@,
                            (#[trigger] events@[i]).kind,
                        )),
                },
            decreases 3 - stage_index(self.stage) + 1,
        {
            let ghost st0 = self.stage;
            let ghost len0 = events@.len();
            match self.next_event() {
                Some(e) => {
                    events.push(e);
                    proof {
                        if !(st0 is Done) && self.stage is Done {
                            if first_abort(m, stage_event(st0)) is None {
                                assert(st0 is End);
                                assert(abort_step(m) is None);
                            } else {
                                let reason = first_abort(m, stage_event(st0))->0;
                                assert(abort_step(m) == Some((stage_index(st0), reason)));
                            }
                        }
                    }
                },
                None => {
                    proof {
                        assert(st0 is Done);
                    }
                    break ;
                },
            }
        }
        events
    }
}

/// The runtime: the hook engine and the command registry a session driver
/// works with.
#[derive(Debug)]
pub struct Runtime {
    pub hooks: HookEngine,
    pub commands: CommandRegistry,
}

impl Default for Runtime {
    /// The same empty runtime as [`Runtime::new`].
    fn default() -> (r: Runtime)
        ensures
            r.hooks.hooks@.len() == 0,
            r.commands.commands@.len() == 0,
    {
        Runtime::new()
    }
}

impl Runtime {
    /// A runtime with no hooks and no commands.
    pub fn new() -> (r: Runtime)
        ensures
            r.hooks.hooks@.len() == 0,
            r.commands.commands@.len() == 0,
    {
        Runtime { hooks: HookEngine::new(), commands: CommandRegistry::new() }
    }

    /// Starts a fresh session over the given input, watching the hooks
    /// registered so far.
    pub fn start_session(&self, input: String) -> (s: Session)
        ensures
            s.wf(),
            s.stage is Start,
            s.seq == 0,
            s.id@.len() == 36,
            s.input@ == input@,
            hooks_model(s.hooks.hooks@) == hooks_model(self.hooks.hooks@),
    {
        let n = self.hooks.hooks.len();
        let mut copied: Vec<Hook> = Vec::new();
        let mut i: usize = 0;
        while i < n
            invariant
                0 <= i <= n,
                n == self.hooks.hooks@.len(),
                copied@.len() == i,
                forall|k: int|
                    0 <= k < i ==> crate::hooks::hook_view(#[trigger] copied@[k])
                        == crate::hooks::hook_view(self.hooks.hooks@[k]),
            decreases n - i,
        {
            let h = self.hooks.hooks[i].clone();
            copied.push(h);
            i = i + 1;
        }
        proof {
            assert(hooks_model(copied@) =~= hooks_model(self.hooks.hooks@));
        }
        Session::new(input, HookEngine { hooks: copied })
    }

    /// Registers a hook under the given name.
    pub fn register_hook(&mut self, name: &str, event: HookEventKind, action: HookAction)
        ensures
            final (self).hooks.hooks@.len() == old(self).hooks.hooks@.len() + 1,
            final (self).hooks.hooks@.last().event == event,
            crate::hooks::action_reason(final (self).hooks.hooks@.last().action)
                == crate::hooks::action_reason(action),
            final (self).hooks.hooks@.last().name@ == name@,
            forall|i: int|
                0 <= i < old(self).hooks.hooks@.len() ==> final (self).hooks.hooks@[i] == old(
                    self,
                ).hooks.hooks@[i],
            final (self).commands == old(self).commands,
    {
        let hook = Hook::new(name, event, action);
        self.hooks.register(hook);
    }

    /// Registers a command, rejecting a duplicate name.
    pub fn register_command(&mut self, name: &str, description: &str, reply: CommandResult) -> (r:
        Result<(), String>)
        ensures
            final (self).hooks.hooks@ == old(self).hooks.hooks@,
            match r {
                Ok(()) => {
                    &&& !crate::commands::command_names(old(self).commands.commands@).contains(
                        name@,
                    )
                    &&& final (self).commands.commands@.len() == old(self).commands.commands@.len()
                        + 1
                    &&& final (self).commands.commands@.last().name@ == name@
                    &&& final (self).commands.commands@.last().description@ == description@
                    &&& final (self).commands.commands@.last().reply == reply
                    &&& forall|i: int|
                        0 <= i < old(self).commands.commands@.len()
                            ==> final (self).commands.commands@[i] == old(
                            self,
                        ).commands.commands@[i]
                },
                Err(e) => {
                    &&& crate::commands::command_names(old(self).commands.commands@).contains(
                        name@,
                    )
                    &&& final (self).commands.commands@ == old(self).commands.commands@
                    &&& e@ == "command already registered"@
                },
            },
    {
        let command = Command::new(name, description, reply);
        self.commands.register(command)
    }

    /// The hook engine.
    pub fn hooks(&self) -> (r: &HookEngine)
        ensures
            r == &self.hooks,
    {
        &self.hooks
    }

    /// The command registry.
    pub fn commands(&self) -> (r: &CommandRegistry)
        ensures
            r == &self.commands,
    {
        &self.commands
    }
}

} // verus!
