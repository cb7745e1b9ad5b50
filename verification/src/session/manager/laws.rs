//! When the times of a call are noted.

use crate::session::manager::CallSession;
use crate::session::state::CallState;
use vstd::prelude::*;

verus! {

/// Ringing is dated each time, the answer by the first state with an answer in
/// it, the end by each state that is over; no other state dates anything.
pub proof fn law_times_noted(s: CallSession, state: CallState, now_ns: u64)
    ensures
        ({
            let t = s.in_state(state, now_ns).timing;
            let answers = state is Answered || state is Active;
            let ends = state is Terminated || state is Failed || state is Ended;
            &&& t.ringing_at == if state is Ringing {
                Some(now_ns)
            } else {
                s.timing.ringing_at
            }
            &&& answers && s.timing.answered_at is None ==> t.answered_at == Some(now_ns)
            &&& !answers || s.timing.answered_at is Some ==> t.answered_at == s.timing.answered_at
            &&& t.ended_at == if ends {
                Some(now_ns)
            } else {
                s.timing.ended_at
            }
        }),
{
}

} // verus!
