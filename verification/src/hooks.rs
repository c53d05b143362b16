//! The hook engine: an ordered registry of named observers.  A hook names the
//! frame events it watches and carries the outcome it answers with; `run`
//! consults the matching hooks in registration order and stops at the first
//! abort.

use vstd::prelude::*;

use crate::json::clone_string;

verus! {

broadcast use vstd::std_specs::vec::group_vec_axioms, vstd::seq::group_seq_axioms;

/// The frame events a hook can watch.
#[derive(Clone, Copy, PartialEq, Eq, Structural, Debug)]
pub enum HookEventKind {
    SessionStarted,
    Output,
    SessionEnded,
}

/// What a hook answers: let the frame pass, or abort the session.
#[derive(Clone, Debug)]
pub enum HookOutcome {
    Continue,
    Abort { reason: String },
}

impl PartialEq for HookOutcome {
    fn eq(&self, other: &HookOutcome) -> (r: bool) {
        match (self, other) {
            (HookOutcome::Continue, HookOutcome::Continue) => true,
            (HookOutcome::Abort { reason: a }, HookOutcome::Abort { reason: b }) => *a == *b,
            _ => false,
        }
    }
}

impl vstd::std_specs::cmp::PartialEqSpecImpl for HookOutcome {
    open spec fn obeys_eq_spec() -> bool {
        true
    }

    open spec fn eq_spec(&self, other: &HookOutcome) -> bool {
        match (self, other) {
            (HookOutcome::Continue, HookOutcome::Continue) => true,
            (HookOutcome::Abort { reason: a }, HookOutcome::Abort { reason: b }) => a@ == b@,
            _ => false,
        }
    }
}

/// What a hook does when it matches.  Hooks are pure from the engine's point
/// of view: the answer is fixed at registration.
#[derive(Clone, Debug)]
pub enum HookAction {
    Continue,
    Abort { reason: String },
}

/// A named observer with its event filter and its answer.
#[derive(Debug)]
pub struct Hook {
    pub name: String,
    pub event: HookEventKind,
    pub action: HookAction,
}

/// The read-only context a hook is consulted with.
#[derive(Debug)]
pub struct HookContext {
    pub session_id: String,
    pub seq: u64,
    pub timestamp_ms: u64,
    pub event: HookEventKind,
    pub output: Option<String>,
}

/// The abort reason a hook answers with, if any.
pub open spec fn action_reason(a: HookAction) -> Option<Seq<char>> {
    match a {
        HookAction::Continue => None,
        HookAction::Abort { reason } => Some(reason@),
    }
}

/// The part of a hook that decides the engine's answer.
pub open spec fn hook_view(h: Hook) -> (HookEventKind, Option<Seq<char>>) {
    (h.event, action_reason(h.action))
}

/// The decision-relevant model of a hook list.
pub open spec fn hooks_model(hs: Seq<Hook>) -> Seq<(HookEventKind, Option<Seq<char>>)> {
    hs.map_values(|h: Hook| hook_view(h))
}

/// The reason of the first hook that watches `ev` and aborts, in list order.
pub open spec fn first_abort(
    ms: Seq<(HookEventKind, Option<Seq<char>>)>,
    ev: HookEventKind,
) -> Option<Seq<char>>
    decreases ms.len(),
{
    if ms.len() == 0 {
        None
    } else if ms[0].0 == ev && ms[0].1 is Some {
        ms[0].1
    } else {
        first_abort(ms.drop_first(), ev)
    }
}

impl Hook {
    /// Builds a hook from its parts.
    pub fn new(name: &str, event: HookEventKind, action: HookAction) -> (r: Hook)
        ensures
            r.name@ == name@,
            r.event == event,
            r.action == action,
    {
        Hook { name: String::from_str(name), event, action }
    }
}

impl Clone for Hook {
    /// Copies the hook, keeping its name and decision.
    fn clone(&self) -> (r: Self)
        ensures
            r.name@ == self.name@,
            hook_view(r) == hook_view(*self),
    {
        let action = match &self.action {
            HookAction::Continue => HookAction::Continue,
            HookAction::Abort { reason } => HookAction::Abort { reason: clone_string(reason) },
        };
        Hook { name: clone_string(&self.name), event: self.event, action }
    }
}

/// The ordered hook registry.
#[derive(Debug)]
pub struct HookEngine {
    pub hooks: Vec<Hook>,
}

impl HookEngine {
    /// An engine with no hooks.
    pub fn new() -> (r: HookEngine)
        ensures
            r.hooks@.len() == 0,
    {
        HookEngine { hooks: Vec::new() }
    }

    /// Appends a hook; registration order is invocation order.
    pub fn register(&mut self, hook: Hook)
        ensures
            final (self).hooks@ == old(self).hooks@.push(hook),
    {
        self.hooks.push(hook);
    }

    /// Consults the hooks whose filter matches the context's event, in
    /// registration order, and answers with the first abort, or `Continue`
    /// when every matching hook lets the frame pass.
    pub fn run(&self, ctx: &HookContext) -> (r: HookOutcome)
        ensures
            match r {
                HookOutcome::Continue => first_abort(hooks_model(self.hooks@), ctx.event) is None,
                HookOutcome::Abort { reason } => first_abort(hooks_model(self.hooks@), ctx.event)
                    == Some(reason@),
            },
    {
        let n = self.hooks.len();
        let mut i: usize = 0;
        let ghost ms = hooks_model(self.hooks@);
        proof {
            assert(ms.skip(0) =~= ms);
        }
        while i < n
            invariant
                0 <= i <= n,
                n == self.hooks@.len(),
                ms == hooks_model(self.hooks@),
                ms.len() == n,
                first_abort(ms, ctx.event) == first_abort(ms.skip(i as int), ctx.event),
            decreases n - i,
        {
            let h = &self.hooks[i];
            proof {
                assert(ms.skip(i as int)[0] == ms[i as int]);
                assert(ms[i as int] == hook_view(self.hooks@[i as int]));
                assert(ms.skip(i as int).drop_first() =~= ms.skip(i + 1));
            }
            if h.event == ctx.event {
                if let HookAction::Abort { reason } = &h.action {
                    return HookOutcome::Abort { reason: clone_string(reason) };
                }
            }
            i = i + 1;
        }
        proof {
            assert(ms.skip(n as int) =~= Seq::<(HookEventKind, Option<Seq<char>>)>::empty());
        }
        HookOutcome::Continue
    }
}

} // verus!
