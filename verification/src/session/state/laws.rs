//! Which states follow which, and how long they last.

use crate::session::state;
use crate::session::state::CallState;
use vstd::prelude::*;

verus! {

/// How far a call has come toward media.
pub open spec fn stage(s: CallState) -> int {
    match s {
        CallState::Initializing => 0,
        CallState::Calling => 1,
        CallState::Trying => 1,
        CallState::Ringing => 2,
        CallState::EarlyMedia => 2,
        CallState::Answered => 3,
        CallState::Active => 4,
        CallState::Hold => 5,
        CallState::Terminating => 6,
        CallState::Failed => 7,
        CallState::Terminated => 8,
        CallState::Ended => 8,
    }
}

/// A call moves on by stages: a new one to its first steps or to ringing, one
/// that was placed to ringing or an answer, and to media at once only where it
/// is being tried, rings or has media already; only media and hold go back and
/// forth. It ends from every stage between.
pub proof fn law_stages(from: CallState, to: CallState)
    ensures
        stage(from) == 0 ==> (state::may_follow(from, to) <==> stage(to) == 1 || to is Ringing || to
            is Failed || to is Ended),
        1 <= stage(from) <= 2 && 2 <= stage(to) <= 3 ==> (state::may_follow(from, to) <==> from
            != to),
        1 <= stage(from) <= 3 && to is Active ==> (state::may_follow(from, to) <==> !(from is
            Calling)),
        from is Active && stage(to) <= 5 ==> (state::may_follow(from, to) <==> to is Hold),
        from is Hold && stage(to) <= 5 ==> (state::may_follow(from, to) <==> to is Active),
        from is Answered && stage(to) <= 5 ==> (state::may_follow(from, to) <==> to is Active),
        1 <= stage(from) <= 3 && stage(to) <= 1 ==> !state::may_follow(from, to),
        1 <= stage(from) <= 3 && to is Hold ==> !state::may_follow(from, to),
        1 <= stage(from) <= 5 && stage(to) >= 6 ==> state::may_follow(from, to),
        stage(from) == 6 ==> (state::may_follow(from, to) <==> stage(to) >= 7),
        stage(from) == 7 ==> (state::may_follow(from, to) <==> stage(to) == 8),
        stage(from) == 8 ==> !state::may_follow(from, to),
{
}

/// Media flows from early media to hold, and the last stages are over.
pub proof fn law_media_and_end(s: CallState)
    ensures
        s.media() <==> s is EarlyMedia || 3 <= stage(s) <= 5,
        s.over() <==> stage(s) >= 7,
{
}

/// The length and the first letter of a state's name.
pub open spec fn name_begins(s: CallState) -> (int, char) {
    match s {
        CallState::Initializing => (12, 'i'),
        CallState::Trying => (6, 't'),
        CallState::Calling => (7, 'c'),
        CallState::Ringing => (7, 'r'),
        CallState::EarlyMedia => (11, 'e'),
        CallState::Answered => (8, 'a'),
        CallState::Active => (6, 'a'),
        CallState::Hold => (4, 'h'),
        CallState::Terminating => (11, 't'),
        CallState::Terminated => (10, 't'),
        CallState::Ended => (5, 'e'),
        CallState::Failed => (6, 'f'),
    }
}

proof fn lemma_name_begins(s: CallState)
    ensures
        (s.name().len() as int, s.name()[0]) == name_begins(s),
{
    reveal_strlit("initializing");
    reveal_strlit("trying");
    reveal_strlit("calling");
    reveal_strlit("ringing");
    reveal_strlit("early_media");
    reveal_strlit("answered");
    reveal_strlit("active");
    reveal_strlit("hold");
    reveal_strlit("terminating");
    reveal_strlit("terminated");
    reveal_strlit("ended");
    reveal_strlit("failed");
}

/// No two states have the same name.
pub proof fn law_names_differ(a: CallState, b: CallState)
    requires
        a != b,
    ensures
        a.name() != b.name(),
{
    lemma_name_begins(a);
    lemma_name_begins(b);
}

/// Time is told in whole milliseconds of a million nanoseconds.
pub proof fn law_time_between(from: u64, to: u64)
    requires
        from <= to,
    ensures
        state::ms_between(from, to) * 1_000_000 <= to - from,
        (state::ms_between(from, to) + 1) * 1_000_000 > to - from,
        from != to ==> state::ms_between(to, from) == 0,
{
}

} // verus!
