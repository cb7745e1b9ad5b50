//! The states of a call.

pub mod laws;

use vstd::prelude::*;
use vstd::string::*;

verus! {

/// Where a call stands.
#[derive(Debug, Clone, Copy, PartialEq, Eq, Structural)]
pub enum CallState {
    /// Being set up.
    Initializing,
    /// Invitation sent, no answer yet.
    Trying,
    /// Invitation sent and being processed.
    Calling,
    Ringing,
    /// Media before the answer.
    EarlyMedia,
    Answered,
    /// Media flows.
    Active,
    Hold,
    Terminating,
    /// Ended, within the library.
    Terminated,
    /// Ended, as shown outside.
    Ended,
    Failed,
}

impl CallState {
    /// The call is over.
    pub open spec fn over(self) -> bool {
        self == CallState::Terminated || self == CallState::Failed || self == CallState::Ended
    }

    /// Whether the call is over.
    pub fn is_terminal(&self) -> (r: bool)
        ensures
            r == self.over(),
    {
        *self == CallState::Terminated || *self == CallState::Failed || *self == CallState::Ended
    }

    /// Media can flow.
    pub open spec fn media(self) -> bool {
        self == CallState::Active || self == CallState::Answered || self == CallState::EarlyMedia
            || self == CallState::Hold
    }

    /// Whether media can flow.
    pub fn can_media(&self) -> (r: bool)
        ensures
            r == self.media(),
    {
        *self == CallState::Active || *self == CallState::Answered || *self
            == CallState::EarlyMedia || *self == CallState::Hold
    }

    /// The state's name.
    pub open spec fn name(self) -> Seq<char> {
        match self {
            CallState::Initializing => "initializing"@,
            CallState::Trying => "trying"@,
            CallState::Calling => "calling"@,
            CallState::Ringing => "ringing"@,
            CallState::EarlyMedia => "early_media"@,
            CallState::Answered => "answered"@,
            CallState::Active => "active"@,
            CallState::Hold => "hold"@,
            CallState::Terminating => "terminating"@,
            CallState::Terminated => "terminated"@,
            CallState::Ended => "ended"@,
            CallState::Failed => "failed"@,
        }
    }

    /// The state's name.
    pub fn as_str(&self) -> (s: &'static str)
        ensures
            s@ == self.name(),
    {
        match self {
            CallState::Initializing => "initializing",
            CallState::Trying => "trying",
            CallState::Calling => "calling",
            CallState::Ringing => "ringing",
            CallState::EarlyMedia => "early_media",
            CallState::Answered => "answered",
            CallState::Active => "active",
            CallState::Hold => "hold",
            CallState::Terminating => "terminating",
            CallState::Terminated => "terminated",
            CallState::Ended => "ended",
            CallState::Failed => "failed",
        }
    }
}

impl Default for CallState {
    fn default() -> (s: CallState)
        ensures
            s == CallState::Initializing,
    {
        CallState::Initializing
    }
}

/// Who placed a call.
#[derive(Debug, Clone, Copy, PartialEq, Eq, Structural)]
pub enum CallDirection {
    /// We did.
    Outbound,
    /// The other side did.
    Inbound,
}

/// When things happened to a call, in nanoseconds of one clock.
#[derive(Debug, Clone, Copy, PartialEq, Eq, Structural)]
pub struct CallTiming {
    pub created_at: u64,
    pub ringing_at: Option<u64>,
    pub answered_at: Option<u64>,
    pub ended_at: Option<u64>,
}

/// Whole milliseconds between two moments, zero if they are out of order.
pub open spec fn ms_between(from: u64, to: u64) -> u64 {
    if to < from {
        0
    } else {
        ((to - from) / 1_000_000) as u64
    }
}

fn whole_ms(from: u64, to: u64) -> (ms: u64)
    ensures
        ms == ms_between(from, to),
{
    if to < from {
        0
    } else {
        (to - from) / 1_000_000
    }
}

impl CallTiming {
    /// The times of a call created now.
    pub fn new(now_ns: u64) -> (t: CallTiming)
        ensures
            t == (CallTiming {
                created_at: now_ns,
                ringing_at: None,
                answered_at: None,
                ended_at: None,
            }),
    {
        CallTiming { created_at: now_ns, ringing_at: None, answered_at: None, ended_at: None }
    }

    /// From the creation to the answer.
    pub fn setup_time_ms(&self) -> (r: Option<u64>)
        ensures
            r == match self.answered_at {
                Some(a) => Some(ms_between(self.created_at, a)),
                None => None,
            },
    {
        match self.answered_at {
            Some(a) => Some(whole_ms(self.created_at, a)),
            None => None,
        }
    }

    /// From the answer to the end.
    pub fn duration_ms(&self) -> (r: Option<u64>)
        ensures
            r == match (self.answered_at, self.ended_at) {
                (Some(a), Some(e)) => Some(ms_between(a, e)),
                _ => None,
            },
    {
        match (self.answered_at, self.ended_at) {
            (Some(a), Some(e)) => Some(whole_ms(a, e)),
            _ => None,
        }
    }

    /// From the ringing to the answer.
    pub fn ring_time_ms(&self) -> (r: Option<u64>)
        ensures
            r == match (self.ringing_at, self.answered_at) {
                (Some(g), Some(a)) => Some(ms_between(g, a)),
                _ => None,
            },
    {
        match (self.ringing_at, self.answered_at) {
            (Some(g), Some(a)) => Some(whole_ms(g, a)),
            _ => None,
        }
    }
}

/// Knows which state may follow which.
pub struct StateValidator;

/// The call has begun and is not being ended.
pub open spec fn in_progress(s: CallState) -> bool {
    s == CallState::Calling || s == CallState::Trying || s == CallState::Ringing || s
        == CallState::EarlyMedia || s == CallState::Answered || s == CallState::Active || s
        == CallState::Hold
}

/// Whether a state may follow another: a call that has begun may end in every
/// way at any time; else it moves on toward media, between ringing and early
/// media in both directions, and between media and hold.
pub open spec fn may_follow(from: CallState, to: CallState) -> bool {
    ||| in_progress(from) && (to == CallState::Failed || to == CallState::Terminating || to
        == CallState::Terminated || to == CallState::Ended)
    ||| from == CallState::Initializing && (to == CallState::Calling || to == CallState::Trying
        || to == CallState::Ringing || to == CallState::Failed || to == CallState::Ended)
    ||| from == CallState::Calling && (to == CallState::Ringing || to == CallState::EarlyMedia
        || to == CallState::Answered)
    ||| from == CallState::Trying && (to == CallState::Ringing || to == CallState::EarlyMedia
        || to == CallState::Answered || to == CallState::Active)
    ||| from == CallState::Ringing && (to == CallState::EarlyMedia || to == CallState::Answered
        || to == CallState::Active)
    ||| from == CallState::EarlyMedia && (to == CallState::Ringing || to == CallState::Answered
        || to == CallState::Active)
    ||| from == CallState::Answered && to == CallState::Active
    ||| from == CallState::Active && to == CallState::Hold
    ||| from == CallState::Hold && to == CallState::Active
    ||| from == CallState::Terminating && to.over()
    ||| from == CallState::Failed && (to == CallState::Terminated || to == CallState::Ended)
}

impl StateValidator {
    /// Whether a state may follow another.
    pub fn can_transition(from: CallState, to: CallState) -> (r: bool)
        ensures
            r == may_follow(from, to),
    {
        match (from, to) {
            (CallState::Initializing, CallState::Calling) => true,
            (CallState::Initializing, CallState::Trying) => true,
            (CallState::Initializing, CallState::Ringing) => true,
            (CallState::Initializing, CallState::Failed) => true,
            (CallState::Initializing, CallState::Ended) => true,
            (CallState::Calling, CallState::Ringing) => true,
            (CallState::Calling, CallState::EarlyMedia) => true,
            (CallState::Calling, CallState::Answered) => true,
            (CallState::Calling, CallState::Failed) => true,
            (CallState::Calling, CallState::Terminating) => true,
            (CallState::Calling, CallState::Terminated) => true,
            (CallState::Calling, CallState::Ended) => true,
            (CallState::Trying, CallState::Ringing) => true,
            (CallState::Trying, CallState::EarlyMedia) => true,
            (CallState::Trying, CallState::Answered) => true,
            (CallState::Trying, CallState::Active) => true,
            (CallState::Trying, CallState::Failed) => true,
            (CallState::Trying, CallState::Terminating) => true,
            (CallState::Trying, CallState::Terminated) => true,
            (CallState::Trying, CallState::Ended) => true,
            (CallState::Ringing, CallState::EarlyMedia) => true,
            (CallState::Ringing, CallState::Answered) => true,
            (CallState::Ringing, CallState::Active) => true,
            (CallState::Ringing, CallState::Failed) => true,
            (CallState::Ringing, CallState::Terminating) => true,
            (CallState::Ringing, CallState::Terminated) => true,
            (CallState::Ringing, CallState::Ended) => true,
            (CallState::EarlyMedia, CallState::Ringing) => true,
            (CallState::EarlyMedia, CallState::Answered) => true,
            (CallState::EarlyMedia, CallState::Active) => true,
            (CallState::EarlyMedia, CallState::Failed) => true,
            (CallState::EarlyMedia, CallState::Terminating) => true,
            (CallState::EarlyMedia, CallState::Terminated) => true,
            (CallState::EarlyMedia, CallState::Ended) => true,
            (CallState::Answered, CallState::Active) => true,
            (CallState::Answered, CallState::Failed) => true,
            (CallState::Answered, CallState::Terminating) => true,
            (CallState::Answered, CallState::Terminated) => true,
            (CallState::Answered, CallState::Ended) => true,
            (CallState::Active, CallState::Hold) => true,
            (CallState::Active, CallState::Terminating) => true,
            (CallState::Active, CallState::Terminated) => true,
            (CallState::Active, CallState::Ended) => true,
            (CallState::Active, CallState::Failed) => true,
            (CallState::Hold, CallState::Active) => true,
            (CallState::Hold, CallState::Terminating) => true,
            (CallState::Hold, CallState::Terminated) => true,
            (CallState::Hold, CallState::Ended) => true,
            (CallState::Hold, CallState::Failed) => true,
            (CallState::Terminating, CallState::Terminated) => true,
            (CallState::Terminating, CallState::Ended) => true,
            (CallState::Terminating, CallState::Failed) => true,
            (CallState::Failed, CallState::Terminated) => true,
            (CallState::Failed, CallState::Ended) => true,
            _ => false,
        }
    }
}

/// A call that has terminated or ended stays so; one that has failed can only
/// come to rest.
pub proof fn law_over_is_final(from: CallState, to: CallState)
    requires
        may_follow(from, to),
    ensures
        from != CallState::Terminated,
        from != CallState::Ended,
        from.over() ==> to.over(),
{
}

/// No state follows itself, and none leads back to the beginning.
pub proof fn law_moves_on(from: CallState, to: CallState)
    requires
        may_follow(from, to),
    ensures
        from != to,
        to != CallState::Initializing,
{
}

/// A call that has begun can always end.
pub proof fn law_can_always_end(from: CallState)
    requires
        from != CallState::Terminated,
        from != CallState::Ended,
    ensures
        may_follow(from, CallState::Ended),
{
}

/// Hold is entered and left through an active call alone, but for its end.
pub proof fn law_hold_needs_active(from: CallState, to: CallState)
    requires
        may_follow(from, to),
    ensures
        to == CallState::Hold ==> from == CallState::Active,
        from == CallState::Hold ==> to == CallState::Active || to == CallState::Terminating
            || to.over(),
{
}

} // verus!
