//! Call sessions and the table of those in progress.

pub mod laws;

use crate::session::events::CallEvent;
use crate::session::state::{CallDirection, CallState, CallTiming, StateValidator};
use crate::session::state;
use dashmap::DashMap;
use std::collections::hash_map::Entry;
use std::collections::{HashMap, HashSet};
use vstd::prelude::*;
use vstd::string::*;

verus! {

/// A call.
pub struct CallSession {
    pub call_id: String,
    pub state: CallState,
    pub direction: CallDirection,
    pub provider_id: String,
    pub remote_party: String,
    pub local_party: String,
    pub timing: CallTiming,
    pub local_sdp: Option<String>,
    pub remote_sdp: Option<String>,
}

/// The times of a call after it came into a state.
pub open spec fn timing_after(t: CallTiming, s: CallState, now_ns: u64) -> CallTiming {
    match s {
        CallState::Ringing => CallTiming { ringing_at: Some(now_ns), ..t },
        CallState::Answered | CallState::Active => CallTiming {
            answered_at: if t.answered_at is None {
                Some(now_ns)
            } else {
                t.answered_at
            },
            ..t
        },
        CallState::Terminated | CallState::Failed | CallState::Ended => CallTiming {
            ended_at: Some(now_ns),
            ..t
        },
        _ => t,
    }
}

impl CallSession {
    /// A call as it begins.
    pub open spec fn begins(
        self,
        call_id: Seq<char>,
        remote: Seq<char>,
        local: Seq<char>,
        provider_id: Seq<char>,
        now_ns: u64,
    ) -> bool {
        &&& self.call_id@ == call_id
        &&& self.remote_party@ == remote
        &&& self.local_party@ == local
        &&& self.provider_id@ == provider_id
        &&& self.timing == (CallTiming {
            created_at: now_ns,
            ringing_at: None,
            answered_at: None,
            ended_at: None,
        })
        &&& self.local_sdp is None
        &&& self.remote_sdp is None
    }

    /// A call that we place.
    pub fn new_outbound(
        call_id: &str,
        to: &str,
        from: &str,
        provider_id: &str,
        now_ns: u64,
    ) -> (s: CallSession)
        ensures
            s.begins(call_id@, to@, from@, provider_id@, now_ns),
            s.state == CallState::Initializing,
            s.direction == CallDirection::Outbound,
    {
        CallSession {
            call_id: String::from_str(call_id),
            state: CallState::Initializing,
            direction: CallDirection::Outbound,
            provider_id: String::from_str(provider_id),
            remote_party: String::from_str(to),
            local_party: String::from_str(from),
            timing: CallTiming::new(now_ns),
            local_sdp: None,
            remote_sdp: None,
        }
    }

    /// A call that comes in.
    pub fn new_inbound(
        call_id: &str,
        from: &str,
        to: &str,
        provider_id: &str,
        now_ns: u64,
    ) -> (s: CallSession)
        ensures
            s.begins(call_id@, from@, to@, provider_id@, now_ns),
            s.state == CallState::Ringing,
            s.direction == CallDirection::Inbound,
    {
        CallSession {
            call_id: String::from_str(call_id),
            state: CallState::Ringing,
            direction: CallDirection::Inbound,
            provider_id: String::from_str(provider_id),
            remote_party: String::from_str(from),
            local_party: String::from_str(to),
            timing: CallTiming::new(now_ns),
            local_sdp: None,
            remote_sdp: None,
        }
    }

    /// The call in a new state.
    pub open spec fn in_state(self, s: CallState, now_ns: u64) -> CallSession {
        CallSession { state: s, timing: timing_after(self.timing, s, now_ns), ..self }
    }

    /// Come into a state, and note when.
    pub fn set_state(&mut self, state: CallState, now_ns: u64)
        ensures
            *final(self) == old(self).in_state(state, now_ns),
    {
        match state {
            CallState::Ringing => {
                self.timing.ringing_at = Some(now_ns);
            },
            CallState::Answered | CallState::Active => {
                if self.timing.answered_at.is_none() {
                    self.timing.answered_at = Some(now_ns);
                }
            },
            CallState::Terminated | CallState::Failed | CallState::Ended => {
                self.timing.ended_at = Some(now_ns);
            },
            _ => {},
        }
        self.state = state;
    }
}

// ---------------------------------------------------------------------------
// The table
// ---------------------------------------------------------------------------

/// `dashmap::DashMap`, whose inside is not looked into.
#[verifier::external_type_specification]
#[verifier::external_body]
#[verifier::reject_recursive_types(K)]
#[verifier::reject_recursive_types(V)]
#[verifier::reject_recursive_types(S)]
pub struct ExDashMap<K, V, S>(DashMap<K, V, S>);

/// The entries of a table: where the call with an identifier is kept.
pub uninterp spec fn slots_in(m: DashMap<String, u64>) -> Map<Seq<char>, u64>;

/// A table without entries.
pub open spec fn no_slots() -> Map<Seq<char>, u64> {
    Map::empty()
}

/// Calls `DashMap::new`, which gives an empty map.
#[verifier::external_body]
fn table_new() -> (m: DashMap<String, u64>)
    ensures
        slots_in(m) == no_slots(),
{
    DashMap::new()
}

/// Calls `DashMap::insert`, which puts a value under a key, in place of the one
/// before, and gives that back. The map is borrowed alone, so nothing holds a
/// reference into it.
#[verifier::external_body]
fn table_insert(m: &mut DashMap<String, u64>, key: String, value: u64) -> (r: Option<u64>)
    ensures
        slots_in(*final(m)) == slots_in(*old(m)).insert(key@, value),
        r is Some <==> slots_in(*old(m)).contains_key(key@),
        r is Some ==> r->Some_0 == slots_in(*old(m))[key@],
{
    m.insert(key, value)
}

/// Calls `DashMap::remove`, which takes the value under a key out, if there is
/// one. The map is borrowed alone, so nothing holds a reference into it.
#[verifier::external_body]
fn table_remove(m: &mut DashMap<String, u64>, key: &str) -> (r: Option<u64>)
    ensures
        slots_in(*final(m)) == slots_in(*old(m)).remove(key@),
        r is Some <==> slots_in(*old(m)).contains_key(key@),
        r is Some ==> r->Some_0 == slots_in(*old(m))[key@],
{
    m.remove(key).map(|pair| pair.1)
}

/// Calls `DashMap::get`, which finds the value under a key; the number is
/// copied, so that no reference into the map is left.
#[verifier::external_body]
fn table_get(m: &DashMap<String, u64>, key: &str) -> (r: Option<u64>)
    ensures
        r is Some <==> slots_in(*m).contains_key(key@),
        r is Some ==> r->Some_0 == slots_in(*m)[key@],
{
    m.get(key).map(|slot| *slot)
}

/// Calls `DashMap::len`, the number of keys.
#[verifier::external_body]
fn table_len(m: &DashMap<String, u64>) -> (n: usize)
    ensures
        n == slots_in(*m).dom().len(),
{
    m.len()
}

/// Calls `DashMap::iter`, which hands out each entry once, in an order of its
/// own; only the keys are kept.
#[verifier::external_body]
fn table_keys(m: &DashMap<String, u64>) -> (keys: Vec<String>)
    ensures
        forall|k: Seq<char>|
            slots_in(*m).contains_key(k) <==> exists|i: int|
                0 <= i < keys@.len() && (#[trigger] keys@[i])@ == k,
        forall|i: int, j: int| 0 <= i < j < keys@.len() ==> (#[trigger] keys@[i])@ != (#[trigger] keys@[j])@,
{
    m.iter().map(|e| e.key().clone()).collect()
}

/// What a change of state brought.
pub struct StateChange {
    /// The event to tell of it.
    pub event: CallEvent,
    /// Whether the new state may follow the old one.
    pub valid: bool,
}

/// A share in a call. All shares in a call stand for the one call: what is
/// changed through one of them shows through the others, and in the table while
/// the call is there.
#[derive(Debug, Clone, Copy, PartialEq, Eq, Structural)]
pub struct SessionHandle {
    pub slot: u64,
}

/// Some identifier leads to a place.
pub open spec fn leads_to(listed: Map<Seq<char>, u64>, slot: u64) -> bool {
    exists|id: Seq<char>| #[trigger] listed.contains_key(id) && listed[id] == slot
}

/// The calls that are shared, and the table of those in progress.
#[verifier::ext_equal]
pub struct SessionModel {
    /// Where the calls in progress are kept, by their identifiers.
    pub listed: Map<Seq<char>, u64>,
    /// All calls that someone has a share in.
    pub calls: Map<u64, CallSession>,
    /// Where the next call is kept.
    pub next: u64,
}

impl SessionModel {
    /// Each identifier in the table has a call of its own, and the next place
    /// is free.
    pub open spec fn wf(self) -> bool {
        &&& forall|id: Seq<char>| #[trigger]
            self.listed.contains_key(id) ==> self.calls.contains_key(self.listed[id])
        &&& forall|a: Seq<char>, b: Seq<char>| #[trigger]
            self.listed.contains_key(a) && #[trigger] self.listed.contains_key(b) && a != b
                ==> self.listed[a] != self.listed[b]
        &&& forall|slot: u64| #[trigger] self.calls.contains_key(slot) ==> slot < self.next
    }

    /// No calls.
    pub open spec fn empty() -> SessionModel {
        SessionModel { listed: Map::empty(), calls: Map::empty(), next: 0 }
    }

    /// The call in progress under an identifier.
    pub open spec fn session(self, id: Seq<char>) -> CallSession {
        self.calls[self.listed[id]]
    }

    /// The call is in progress.
    pub open spec fn is_listed(self, slot: u64) -> bool {
        leads_to(self.listed, slot)
    }

    /// With one call more, in place of one with the same identifier.
    pub open spec fn added(self, session: CallSession) -> SessionModel {
        SessionModel {
            listed: self.listed.insert(session.call_id@, self.next),
            calls: self.calls.insert(self.next, session),
            next: (self.next + 1) as u64,
        }
    }

    /// With a call taken off the table.
    pub open spec fn removed(self, id: Seq<char>) -> SessionModel {
        SessionModel { listed: self.listed.remove(id), ..self }
    }

    /// With a call changed.
    pub open spec fn changed(self, slot: u64, session: CallSession) -> SessionModel {
        SessionModel { calls: self.calls.insert(slot, session), ..self }
    }

    /// With a call forgotten, unless it is in progress.
    pub open spec fn released(self, slot: u64) -> SessionModel {
        if self.is_listed(slot) {
            self
        } else {
            SessionModel { calls: self.calls.remove(slot), ..self }
        }
    }
}

/// The calls that are not in progress are noted.
spec fn notes_unlisted(m: SessionModel, unlisted: Set<u64>) -> bool {
    forall|slot: u64| #[trigger]
        unlisted.contains(slot) <==> m.calls.contains_key(slot) && !m.is_listed(slot)
}

/// The calls in progress, and those that are over but not released.
pub struct SessionManager {
    sessions: DashMap<String, u64>,
    calls: HashMap<u64, CallSession>,
    unlisted: HashSet<u64>,
    next: u64,
}

impl View for SessionManager {
    type V = SessionModel;

    closed spec fn view(&self) -> SessionModel {
        SessionModel { listed: slots_in(self.sessions), calls: self.calls@, next: self.next }
    }
}

impl SessionManager {
    /// The manager's invariant.
    pub closed spec fn wf(self) -> bool {
        self@.wf() && notes_unlisted(self@, self.unlisted@)
    }

    /// A manager in order keeps its calls in order.
    pub proof fn lemma_wf(self)
        requires
            self.wf(),
        ensures
            self@.wf(),
    {
    }

    /// Create an empty table.
    pub fn new() -> (m: SessionManager)
        ensures
            m@ == SessionModel::empty(),
            m.wf(),
    {
        broadcast use vstd::std_specs::hash::group_hash_axioms;

        SessionManager {
            sessions: table_new(),
            calls: HashMap::new(),
            unlisted: HashSet::new(),
            next: 0,
        }
    }

    /// Whether there is a place for one more call.
    pub fn can_add(&self) -> (r: bool)
        ensures
            r == (self@.next < u64::MAX),
    {
        self.next < u64::MAX
    }

    /// Add a call, in place of one with the same identifier. Who has a share in
    /// that one keeps it.
    pub fn add_session(&mut self, session: CallSession)
        requires
            old(self).wf(),
            old(self)@.next < u64::MAX,
        ensures
            final(self)@ == old(self)@.added(session),
            final(self).wf(),
    {
        broadcast use vstd::std_specs::hash::group_hash_axioms;

        let slot: u64 = self.next;
        let id = session.call_id.clone();
        let ghost key = id@;
        let replaced = table_insert(&mut self.sessions, id, slot);
        self.calls.insert(slot, session);
        self.next = slot + 1;
        if let Some(s) = replaced {
            self.unlisted.insert(s);
        }
        proof {
            law_listing(old(self)@, session);
            assert forall|s: u64| #[trigger]
                self.unlisted@.contains(s) <==> self@.calls.contains_key(s) && !self@.is_listed(
                    s,
                ) by {
                lemma_listed_after_add(old(self)@, session, s);
            }
        }
    }

    /// A share in a call in progress.
    pub fn get_session(&self, call_id: &str) -> (r: Option<SessionHandle>)
        ensures
            r == if self@.listed.contains_key(call_id@) {
                Some(SessionHandle { slot: self@.listed[call_id@] })
            } else {
                None
            },
    {
        match table_get(&self.sessions, call_id) {
            Some(slot) => Some(SessionHandle { slot }),
            None => None,
        }
    }

    /// The call that a share stands for, to read; none once it is released.
    pub fn session(&self, handle: SessionHandle) -> (r: Option<&CallSession>)
        ensures
            r == if self@.calls.contains_key(handle.slot) {
                Some(&self@.calls[handle.slot])
            } else {
                None
            },
    {
        broadcast use vstd::std_specs::hash::group_hash_axioms;

        self.calls.get(&handle.slot)
    }

    /// The call that a share stands for, to change; none once it is released.
    pub fn lock(&mut self, handle: SessionHandle) -> (r: Option<&mut CallSession>)
        requires
            old(self).wf(),
        ensures
            match r {
                Some(s) => {
                    &&& old(self)@.calls.contains_key(handle.slot)
                    &&& *s == old(self)@.calls[handle.slot]
                    &&& final(self)@ == old(self)@.changed(handle.slot, *final(s))
                },
                None => !old(self)@.calls.contains_key(handle.slot) && final(self)@ == old(self)@,
            },
            final(self).wf(),
    {
        broadcast use vstd::std_specs::hash::group_hash_axioms;

        if !self.calls.contains_key(&handle.slot) {
            return None;
        }
        proof {
            let m = self@;
            assert forall|s: CallSession| #[trigger] m.changed(handle.slot, s).wf() && notes_unlisted(
                m.changed(handle.slot, s),
                self.unlisted@,
            ) by {
                law_change_is_shared(m, handle.slot, s);
            }
        }
        match self.calls.entry(handle.slot) {
            Entry::Occupied(e) => Some(e.into_mut()),
            Entry::Vacant(_) => None,
        }
    }

    /// Take a call off the table, and give a share in it.
    pub fn remove_session(&mut self, call_id: &str) -> (r: Option<SessionHandle>)
        requires
            old(self).wf(),
        ensures
            final(self)@ == old(self)@.removed(call_id@),
            r == if old(self)@.listed.contains_key(call_id@) {
                Some(SessionHandle { slot: old(self)@.listed[call_id@] })
            } else {
                None
            },
            final(self).wf(),
    {
        broadcast use vstd::std_specs::hash::group_hash_axioms;

        match table_remove(&mut self.sessions, call_id) {
            Some(slot) => {
                self.unlisted.insert(slot);
                proof {
                    assert forall|s: u64| #[trigger]
                        self.unlisted@.contains(s) <==> self@.calls.contains_key(s)
                            && !self@.is_listed(s) by {
                        lemma_listed_after_remove(old(self)@, call_id@, s);
                    }
                }
                Some(SessionHandle { slot })
            },
            None => {
                assert(self@ =~= old(self)@);
                None
            },
        }
    }

    /// Forget a call that is not in progress, once nobody has a share in it.
    pub fn release(&mut self, handle: SessionHandle)
        requires
            old(self).wf(),
        ensures
            final(self)@ == old(self)@.released(handle.slot),
            final(self).wf(),
    {
        broadcast use vstd::std_specs::hash::group_hash_axioms;

        if self.unlisted.remove(&handle.slot) {
            self.calls.remove(&handle.slot);
        }
        proof {
            let m = old(self)@;
            assert(self@ =~= m.released(handle.slot));
            assert forall|id: Seq<char>| #[trigger]
                m.listed.contains_key(id) implies self@.calls.contains_key(m.listed[id]) by {
                assert(m.is_listed(m.listed[id]));
            }
        }
    }

    /// The identifiers of all calls in progress, in no order.
    pub fn active_calls(&self) -> (ids: Vec<String>)
        ensures
            forall|k: Seq<char>|
                self@.listed.contains_key(k) <==> exists|i: int|
                    0 <= i < ids@.len() && (#[trigger] ids@[i])@ == k,
            forall|i: int, j: int| 0 <= i < j < ids@.len() ==> (#[trigger] ids@[i])@ != (#[trigger] ids@[j])@,
    {
        table_keys(&self.sessions)
    }

    /// The number of calls in progress.
    pub fn active_call_count(&self) -> (n: usize)
        ensures
            n == self@.listed.dom().len(),
    {
        table_len(&self.sessions)
    }

    /// Put a call into a state, and give the event that tells of it. A state
    /// that may not follow is taken all the same, and noted. Nothing happens
    /// where there is no such call.
    pub fn update_state(&mut self, call_id: &str, new_state: CallState, now_ns: u64) -> (r: Option<
        StateChange,
    >)
        requires
            old(self).wf(),
        ensures
            match r {
                Some(c) => {
                    let before = old(self)@.session(call_id@);
                    &&& old(self)@.listed.contains_key(call_id@)
                    &&& final(self)@ == old(self)@.changed(
                        old(self)@.listed[call_id@],
                        before.in_state(new_state, now_ns),
                    )
                    &&& c.event.is_change(call_id@, before.state, new_state)
                    &&& c.valid == state::may_follow(before.state, new_state)
                },
                None => !old(self)@.listed.contains_key(call_id@) && final(self)@ == old(self)@,
            },
            final(self).wf(),
    {
        let handle = match self.get_session(call_id) {
            Some(h) => h,
            None => {
                return None;
            },
        };
        match self.lock(handle) {
            Some(s) => {
                let before = s.state;
                s.set_state(new_state, now_ns);
                Some(
                    StateChange {
                        event: CallEvent::state_changed(call_id, before, new_state),
                        valid: StateValidator::can_transition(before, new_state),
                    },
                )
            },
            None => None,
        }
    }
}

proof fn lemma_listed_after_add(m: SessionModel, session: CallSession, slot: u64)
    requires
        m.wf(),
        m.next < u64::MAX,
    ensures
        m.added(session).is_listed(slot) <==> slot == m.next || (m.is_listed(slot) && !(
        m.listed.contains_key(session.call_id@) && m.listed[session.call_id@] == slot)),
{
    let id = session.call_id@;
    let after = m.added(session);
    assert(after.listed.contains_key(id));
    if m.is_listed(slot) && !(m.listed.contains_key(id) && m.listed[id] == slot) {
        let k = choose|k: Seq<char>| #[trigger] m.listed.contains_key(k) && m.listed[k] == slot;
        assert(after.listed.contains_key(k));
    }
    if after.is_listed(slot) && slot != m.next {
        let k = choose|k: Seq<char>| #[trigger]
            after.listed.contains_key(k) && after.listed[k] == slot;
        assert(m.listed.contains_key(k));
    }
}

proof fn lemma_listed_after_remove(m: SessionModel, id: Seq<char>, slot: u64)
    requires
        m.wf(),
    ensures
        m.removed(id).is_listed(slot) <==> m.is_listed(slot) && !(m.listed.contains_key(id)
            && m.listed[id] == slot),
{
    let after = m.removed(id);
    if m.is_listed(slot) && !(m.listed.contains_key(id) && m.listed[id] == slot) {
        let k = choose|k: Seq<char>| #[trigger] m.listed.contains_key(k) && m.listed[k] == slot;
        assert(after.listed.contains_key(k));
    }
    if after.is_listed(slot) {
        let k = choose|k: Seq<char>| #[trigger]
            after.listed.contains_key(k) && after.listed[k] == slot;
        assert(m.listed.contains_key(k));
    }
}

// ---------------------------------------------------------------------------
// Laws
// ---------------------------------------------------------------------------

/// A call that was added is the one under its identifier; the other calls in
/// progress are as they were, and one that had the identifier before lives on
/// for those who have a share in it.
pub proof fn law_listing(m: SessionModel, session: CallSession)
    requires
        m.wf(),
        m.next < u64::MAX,
    ensures
        ({
            let after = m.added(session);
            &&& after.wf()
            &&& after.listed.contains_key(session.call_id@)
            &&& after.session(session.call_id@) == session
            &&& forall|id: Seq<char>| #[trigger]
                m.listed.contains_key(id) && id != session.call_id@ ==> after.listed.contains_key(
                    id,
                ) && after.session(id) == m.session(id)
            &&& forall|slot: u64| #[trigger]
                m.calls.contains_key(slot) ==> after.calls.contains_key(slot) && after.calls[slot]
                    == m.calls[slot]
        }),
{
    let after = m.added(session);
    assert forall|slot: u64| #[trigger] m.calls.contains_key(slot) implies after.calls.contains_key(
        slot,
    ) && after.calls[slot] == m.calls[slot] by {
        assert(slot < m.next);
    }
}

/// What is changed through a share shows under the call's identifier and
/// through every other share in it, and in no other call.
pub proof fn law_change_is_shared(m: SessionModel, slot: u64, session: CallSession)
    requires
        m.wf(),
        m.calls.contains_key(slot),
    ensures
        ({
            let after = m.changed(slot, session);
            &&& after.wf()
            &&& after.listed == m.listed
            &&& after.calls[slot] == session
            &&& forall|id: Seq<char>| #[trigger]
                m.listed.contains_key(id) ==> after.session(id) == if m.listed[id] == slot {
                    session
                } else {
                    m.session(id)
                }
            &&& forall|other: u64| #[trigger]
                m.calls.contains_key(other) && other != slot ==> after.calls[other]
                    == m.calls[other]
        }),
{
}

/// A call that was taken off the table is not found any more, and lives on for
/// those who have a share in it, until it is released.
pub proof fn law_removed_lives_on(m: SessionModel, id: Seq<char>)
    requires
        m.wf(),
        m.listed.contains_key(id),
    ensures
        ({
            let after = m.removed(id);
            let slot = m.listed[id];
            &&& after.wf()
            &&& !after.listed.contains_key(id)
            &&& after.calls == m.calls
            &&& !after.is_listed(slot)
            &&& !after.released(slot).calls.contains_key(slot)
            &&& m.released(slot) == m
        }),
{
    let after = m.removed(id);
    let slot = m.listed[id];
    assert(m.is_listed(slot));
    lemma_listed_after_remove(m, id, slot);
    assert forall|a: Seq<char>| #[trigger] after.listed.contains_key(a) implies m.listed.contains_key(
        a,
    ) && after.listed[a] == m.listed[a] by {}
}

/// The answer is dated once: coming back to an active call does not move it.
pub proof fn law_answer_dated_once(s: CallSession, state: CallState, now_ns: u64)
    requires
        s.timing.answered_at is Some,
    ensures
        s.in_state(state, now_ns).timing.answered_at == s.timing.answered_at,
{
}

/// A change of state leaves everything else of the call, and its creation,
/// as it was.
pub proof fn law_state_changes_little(s: CallSession, state: CallState, now_ns: u64)
    ensures
        ({
            let t = s.in_state(state, now_ns);
            &&& t.state == state
            &&& t.timing.created_at == s.timing.created_at
            &&& t == (CallSession { state: t.state, timing: t.timing, ..s })
            &&& state.over() ==> t.timing.ended_at == Some(now_ns)
        }),
{
}

} // verus!
