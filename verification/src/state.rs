//! The life cycle of a peer.
//!
//! ```text
//! Disconnected → Discovering → Connecting → Handshaking → Connected
//! ```
//!
//! A peer falls back to `Disconnected` from every state but itself, and a
//! connected peer may be found `Dead`.
use crate::clock::{between, now};
use crate::text::push_text;
use std::time::{Duration, Instant};
use vstd::prelude::*;

verus! {

/// Where a peer is in its life cycle.
#[derive(Clone, Copy, Debug, PartialEq, Eq, Structural, Hash)]
pub enum PeerState {
    Disconnected,
    Discovering,
    Connecting,
    Handshaking,
    Connected,
    Dead,
}

/// The steps of the life cycle.
pub open spec fn may_follow(from: PeerState, to: PeerState) -> bool {
    match (from, to) {
        (PeerState::Disconnected, PeerState::Discovering) => true,
        (PeerState::Discovering, PeerState::Connecting) => true,
        (PeerState::Connecting, PeerState::Handshaking) => true,
        (PeerState::Handshaking, PeerState::Connected) => true,
        (PeerState::Connected, PeerState::Dead) => true,
        (PeerState::Disconnected, PeerState::Disconnected) => false,
        (_, PeerState::Disconnected) => true,
        _ => false,
    }
}

/// A step that the life cycle does not have.
#[derive(Clone, Copy, Debug, PartialEq, Eq, Structural)]
pub enum TransitionError {
    InvalidTransition { from: PeerState, to: PeerState },
}

impl PeerState {
    /// Whether `next` may follow.
    pub fn can_transition_to(self, next: PeerState) -> (r: bool)
        ensures
            r == may_follow(self, next),
    {
        match (self, next) {
            (PeerState::Disconnected, PeerState::Discovering) => true,
            (PeerState::Discovering, PeerState::Connecting) => true,
            (PeerState::Discovering, PeerState::Disconnected) => true,
            (PeerState::Connecting, PeerState::Handshaking) => true,
            (PeerState::Connecting, PeerState::Disconnected) => true,
            (PeerState::Handshaking, PeerState::Connected) => true,
            (PeerState::Handshaking, PeerState::Disconnected) => true,
            (PeerState::Connected, PeerState::Disconnected) => true,
            (PeerState::Connected, PeerState::Dead) => true,
            (PeerState::Dead, PeerState::Disconnected) => true,
            _ => false,
        }
    }

    /// Goes to `next`, if it may follow.
    pub fn transition(self, next: PeerState) -> (r: Result<PeerState, TransitionError>)
        ensures
            r == (if may_follow(self, next) {
                Ok::<PeerState, TransitionError>(next)
            } else {
                Err(TransitionError::InvalidTransition { from: self, to: next })
            }),
    {
        if self.can_transition_to(next) {
            Ok(next)
        } else {
            Err(TransitionError::InvalidTransition { from: self, to: next })
        }
    }

    /// The name.
    pub open spec fn text(self) -> Seq<char> {
        match self {
            PeerState::Disconnected => "disconnected"@,
            PeerState::Discovering => "discovering"@,
            PeerState::Connecting => "connecting"@,
            PeerState::Handshaking => "handshaking"@,
            PeerState::Connected => "connected"@,
            PeerState::Dead => "dead"@,
        }
    }

    /// Gives the name.
    pub fn name(self) -> (s: &'static str)
        ensures
            s@ == self.text(),
    {
        match self {
            PeerState::Disconnected => "disconnected",
            PeerState::Discovering => "discovering",
            PeerState::Connecting => "connecting",
            PeerState::Handshaking => "handshaking",
            PeerState::Connected => "connected",
            PeerState::Dead => "dead",
        }
    }

    /// Gives the name as an owned string.
    pub fn to_text(self) -> (s: String)
        ensures
            s@ == self.text(),
    {
        self.name().to_owned()
    }
}

impl TransitionError {
    /// Gives the message for a reader.
    pub fn to_text(&self) -> (s: String)
        ensures
            match self {
                TransitionError::InvalidTransition { from, to } => s@
                    == "invalid state transition from "@ + from.text() + " to "@ + to.text(),
            },
    {
        let mut s: String = String::new();
        match self {
            TransitionError::InvalidTransition { from, to } => {
                push_text(&mut s, "invalid state transition from ");
                push_text(&mut s, from.name());
                push_text(&mut s, " to ");
                push_text(&mut s, to.name());
                assert(s@ =~= "invalid state transition from "@ + from.text() + " to "@
                    + to.text());
            },
        }
        s
    }
}

/// A state and since when it holds.
#[derive(Clone, Copy, Debug)]
pub struct StateRecord {
    pub state: PeerState,
    pub entered_at: Instant,
}

impl StateRecord {
    /// A state that begins now.
    pub fn new(state: PeerState) -> (r: StateRecord)
        ensures
            r.state == state,
    {
        let t: Instant = now();
        StateRecord::new_at(state, t)
    }

    /// A state that begins at a point in time.
    pub fn new_at(state: PeerState, t: Instant) -> (r: StateRecord)
        ensures
            r.state == state,
            r.entered_at == t,
    {
        StateRecord { state, entered_at: t }
    }

    /// Goes to `next`, if it may follow, as of a point in time.
    pub fn transition_at(&mut self, next: PeerState, t: Instant) -> (r: Result<(), TransitionError>)
        ensures
            match r {
                Ok(_) => may_follow(old(self).state, next) && *final(self) == (StateRecord {
                    state: next,
                    entered_at: t,
                }),
                Err(e) => !may_follow(old(self).state, next) && e
                    == (TransitionError::InvalidTransition { from: old(self).state, to: next })
                    && *final(self) == *old(self),
            },
    {
        match self.state.transition(next) {
            Ok(s) => {
                self.state = s;
                self.entered_at = t;
                Ok(())
            },
            Err(e) => Err(e),
        }
    }

    /// Goes to `next`, if it may follow, as of now.
    pub fn transition(&mut self, next: PeerState) -> (r: Result<(), TransitionError>)
        ensures
            match r {
                Ok(_) => may_follow(old(self).state, next) && final(self).state == next,
                Err(e) => !may_follow(old(self).state, next) && e
                    == (TransitionError::InvalidTransition { from: old(self).state, to: next })
                    && *final(self) == *old(self),
            },
    {
        let t: Instant = now();
        self.transition_at(next, t)
    }

    /// How long the state has held, as of the time of the call.
    pub fn elapsed(&self) -> (r: Duration)
        ensures
            exists|t: Instant|
                crate::clock::duration_nanos(r) == #[trigger] crate::clock::nanos_between(
                    t,
                    self.entered_at,
                ),
    {
        let t: Instant = now();
        self.elapsed_at(&t)
    }

    /// How long the state has held at a point in time.
    pub fn elapsed_at(&self, t: &Instant) -> (r: Duration)
        ensures
            crate::clock::duration_nanos(r) == crate::clock::nanos_between(*t, self.entered_at),
    {
        between(t, &self.entered_at)
    }
}

impl From<PeerState> for StateRecord {
    fn from(state: PeerState) -> (r: StateRecord)
        ensures
            r.state == state,
    {
        StateRecord::new(state)
    }
}

/// The result holds the time of the call, so no function of the state gives it.
impl vstd::std_specs::convert::FromSpecImpl<PeerState> for StateRecord {
    open spec fn obeys_from_spec() -> bool {
        false
    }

    open spec fn from_spec(state: PeerState) -> StateRecord {
        choose|r: StateRecord| r.state == state
    }
}

/// The state after some steps, each taken only if it may follow.
pub open spec fn after_steps(s: PeerState, steps: Seq<PeerState>) -> PeerState
    decreases steps.len(),
{
    if steps.len() == 0 {
        s
    } else {
        let before = after_steps(s, steps.drop_last());
        if may_follow(before, steps.last()) {
            steps.last()
        } else {
            before
        }
    }
}

/// A peer that has come to be connected, by whatever steps, was handshaking
/// before.
pub proof fn connected_was_handshaking(s: PeerState, steps: Seq<PeerState>) -> (i: int)
    requires
        s != PeerState::Connected,
        after_steps(s, steps) == PeerState::Connected,
    ensures
        0 <= i < steps.len(),
        after_steps(s, steps.take(i)) == PeerState::Handshaking,
    decreases steps.len(),
{
    let before = after_steps(s, steps.drop_last());
    if before == PeerState::Connected {
        let i = connected_was_handshaking(s, steps.drop_last());
        assert(steps.drop_last().take(i) =~= steps.take(i));
        i
    } else {
        assert(steps.take(steps.len() - 1) =~= steps.drop_last());
        steps.len() - 1
    }
}

/// No state follows itself.
pub proof fn no_state_follows_itself(s: PeerState)
    ensures
        !may_follow(s, s),
{
}

/// Only a peer that was handshaking becomes connected, and only a connected one
/// is found dead.
pub proof fn connected_only_after_handshake(from: PeerState, to: PeerState)
    requires
        may_follow(from, to),
    ensures
        to == PeerState::Connected ==> from == PeerState::Handshaking,
        to == PeerState::Dead ==> from == PeerState::Connected,
{
}

/// Every state but `Disconnected` can fall back to it.
pub proof fn every_state_can_fall_back(s: PeerState)
    requires
        s != PeerState::Disconnected,
    ensures
        may_follow(s, PeerState::Disconnected),
{
}


/// Where a state stands on the way from a stranger to a connected peer and beyond.
pub open spec fn stage(s: PeerState) -> nat {
    match s {
        PeerState::Disconnected => 0,
        PeerState::Discovering => 1,
        PeerState::Connecting => 2,
        PeerState::Handshaking => 3,
        PeerState::Connected => 4,
        PeerState::Dead => 5,
    }
}

/// A peer goes on by one stage at a time, or falls back to the first one; nothing else
/// is a step.
pub proof fn states_follow_in_order(from: PeerState, to: PeerState)
    ensures
        may_follow(from, to) <==> (stage(to) == stage(from) + 1 || (stage(to) == 0 && stage(from)
            > 0)),
{
}
} // verus!
