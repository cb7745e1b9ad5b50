//! What happens to calls.

use crate::session::state::CallState;
use vstd::prelude::*;
use vstd::string::*;

verus! {

/// Something that happened to a call.
#[derive(Debug, Clone)]
pub enum CallEvent {
    Incoming { call_id: String, from: String, to: String, provider_id: String },
    Calling { call_id: String, to: String, from: String, provider_id: String },
    Ringing { call_id: String },
    Answered { call_id: String },
    /// Media can flow.
    MediaReady { call_id: String },
    StateChanged { call_id: String, old_state: String, new_state: String },
    Ended { call_id: String, reason: String, duration_ms: Option<u64> },
    Failed { call_id: String, error: String },
    DtmfReceived { call_id: String, digit: char },
    AudioReceived { call_id: String, samples: usize, timestamp: u32 },
}

impl CallEvent {
    /// The call that it happened to.
    pub open spec fn id(self) -> Seq<char> {
        match self {
            CallEvent::Incoming { call_id, .. } => call_id@,
            CallEvent::Calling { call_id, .. } => call_id@,
            CallEvent::Ringing { call_id } => call_id@,
            CallEvent::Answered { call_id } => call_id@,
            CallEvent::MediaReady { call_id } => call_id@,
            CallEvent::StateChanged { call_id, .. } => call_id@,
            CallEvent::Ended { call_id, .. } => call_id@,
            CallEvent::Failed { call_id, .. } => call_id@,
            CallEvent::DtmfReceived { call_id, .. } => call_id@,
            CallEvent::AudioReceived { call_id, .. } => call_id@,
        }
    }

    /// The call that it happened to.
    pub fn call_id(&self) -> (s: &str)
        ensures
            s@ == self.id(),
    {
        match self {
            CallEvent::Incoming { call_id, .. } => call_id.as_str(),
            CallEvent::Calling { call_id, .. } => call_id.as_str(),
            CallEvent::Ringing { call_id } => call_id.as_str(),
            CallEvent::Answered { call_id } => call_id.as_str(),
            CallEvent::MediaReady { call_id } => call_id.as_str(),
            CallEvent::StateChanged { call_id, .. } => call_id.as_str(),
            CallEvent::Ended { call_id, .. } => call_id.as_str(),
            CallEvent::Failed { call_id, .. } => call_id.as_str(),
            CallEvent::DtmfReceived { call_id, .. } => call_id.as_str(),
            CallEvent::AudioReceived { call_id, .. } => call_id.as_str(),
        }
    }

    /// The kind of event.
    pub fn event_type(&self) -> (s: &'static str)
        ensures
            s@ == match self {
                CallEvent::Incoming { .. } => "incoming"@,
                CallEvent::Calling { .. } => "calling"@,
                CallEvent::Ringing { .. } => "ringing"@,
                CallEvent::Answered { .. } => "answered"@,
                CallEvent::MediaReady { .. } => "media_ready"@,
                CallEvent::StateChanged { .. } => "state_changed"@,
                CallEvent::Ended { .. } => "ended"@,
                CallEvent::Failed { .. } => "failed"@,
                CallEvent::DtmfReceived { .. } => "dtmf_received"@,
                CallEvent::AudioReceived { .. } => "audio_received"@,
            },
    {
        match self {
            CallEvent::Incoming { .. } => "incoming",
            CallEvent::Calling { .. } => "calling",
            CallEvent::Ringing { .. } => "ringing",
            CallEvent::Answered { .. } => "answered",
            CallEvent::MediaReady { .. } => "media_ready",
            CallEvent::StateChanged { .. } => "state_changed",
            CallEvent::Ended { .. } => "ended",
            CallEvent::Failed { .. } => "failed",
            CallEvent::DtmfReceived { .. } => "dtmf_received",
            CallEvent::AudioReceived { .. } => "audio_received",
        }
    }

    /// The event of a state that changed.
    pub open spec fn is_change(self, call_id: Seq<char>, old_state: CallState, new: CallState) -> bool {
        self matches CallEvent::StateChanged { call_id: id, old_state: o, new_state: n } && id@
            == call_id && o@ == old_state.name() && n@ == new.name()
    }

    /// The event of a state that changed.
    pub fn state_changed(call_id: &str, old_state: CallState, new: CallState) -> (e: CallEvent)
        ensures
            e.is_change(call_id@, old_state, new),
    {
        CallEvent::StateChanged {
            call_id: String::from_str(call_id),
            old_state: String::from_str(old_state.as_str()),
            new_state: String::from_str(new.as_str()),
        }
    }
}

} // verus!
