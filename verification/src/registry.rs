//! The session registry: the authoritative map from connected sessions to
//! their client state, and the change bus that hands every mutation to every
//! subscriber.
//!
//! A session identifier is a plain number: the surrounding binary assigns a
//! fresh one to each accepted connection, standing in for that connection's
//! remote endpoint. An identifier may be reused by a later, unrelated
//! connection once the old session is gone, so nothing here assumes an
//! identifier denotes the same logical client across a disconnect.
//!
//! Event distribution is a fan-out, not a work queue: each subscriber owns an
//! independent queue, and every mutation appends its events to all of them.
//! The two mutation paths emit with opposite polarity: the bulk-merge path
//! emits precisely when the stored value changes, while the single-field
//! path emits precisely when the newly supplied value equals the value the
//! field already held. The latter is the reference behavior, almost
//! certainly an inverted comparison, preserved and flagged here rather than
//! silently fixed.
use vstd::prelude::*;

use crate::state::ChangeV;
use crate::state::ClientState;
use crate::state::ClientStateChange;
use crate::state::ClientStateV;
use crate::state::apply_change;
use crate::state::change_differs;
use crate::state::change_differs_exec;
use crate::state::empty_state;

verus! {

/// Why a registry operation was refused.
#[derive(Clone, Copy, PartialEq, Eq, Debug)]
pub enum RegistryError {
    /// The session is not connected (or was concurrently removed).
    SessionNotFound,
    /// `Add` and `Remove` cannot be issued through the field-mutation path.
    UnsupportedOperation,
}

/// One event on the change bus: the session it concerns and what changed.
pub type EventV = (u64, ChangeV);

/// Whether `id` is one of the session keys of `cs`.
pub open spec fn cs_connected(cs: Seq<(u64, ClientStateV)>, id: u64) -> bool {
    exists|i: int| 0 <= i < cs.len() && cs[i].0 == id
}

/// The position of `id` among the session keys of `cs` (meaningful only
/// when the keys are unique and `id` is among them).
pub open spec fn cs_idx(cs: Seq<(u64, ClientStateV)>, id: u64) -> int {
    choose|i: int| 0 <= i < cs.len() && cs[i].0 == id
}

/// The state stored for session `id`.
pub open spec fn cs_state(cs: Seq<(u64, ClientStateV)>, id: u64) -> ClientStateV {
    cs[cs_idx(cs, id)].1
}

/// The key of the first session, in connection order, whose identity name
/// is `name`; `None` when no connected session carries that name.
pub open spec fn find_by_name(cs: Seq<(u64, ClientStateV)>, name: Seq<char>) -> Option<u64>
    decreases cs.len(),
{
    if cs.len() == 0 {
        None
    } else if cs[0].1.client_name == Some(name) {
        Some(cs[0].0)
    } else {
        find_by_name(cs.drop_first(), name)
    }
}

/// A session found by name is among the connected sessions.
pub proof fn lemma_find_by_name_connected(cs: Seq<(u64, ClientStateV)>, name: Seq<char>)
    ensures
        find_by_name(cs, name) matches Some(id) ==> cs_connected(cs, id),
    decreases cs.len(),
{
    if cs.len() > 0 && !(cs[0].1.client_name == Some(name)) {
        lemma_find_by_name_connected(cs.drop_first(), name);
        if find_by_name(cs.drop_first(), name) is Some {
            let id = find_by_name(cs.drop_first(), name)->Some_0;
            assert(cs_connected(cs.drop_first(), id));
            let i = choose|i: int|
                0 <= i < cs.drop_first().len() && cs.drop_first()[i].0 == id;
            assert(cs[i + 1].0 == id);
        }
    }
}

/// No session key occurs twice.
pub open spec fn cs_unique(cs: Seq<(u64, ClientStateV)>) -> bool {
    forall|i: int, j: int| 0 <= i < j < cs.len() ==> cs[i].0 != cs[j].0
}

/// Every subscriber queue extended by the same events, in order.
pub open spec fn push_all(qs: Seq<Seq<EventV>>, evs: Seq<EventV>) -> Seq<Seq<EventV>> {
    qs.map_values(|q: Seq<EventV>| q + evs)
}

/// The mathematical value of one subscriber queue.
pub open spec fn queue_v(q: Seq<(u64, ClientStateChange)>) -> Seq<EventV> {
    q.map_values(|e: (u64, ClientStateChange)| (e.0, e.1@))
}

pub proof fn lemma_queue_v_push(q: Seq<(u64, ClientStateChange)>, e: (u64, ClientStateChange))
    ensures
        queue_v(q.push(e)) == queue_v(q).push((e.0, e.1@)),
{
    assert(queue_v(q.push(e)) =~= queue_v(q).push((e.0, e.1@)));
}

/// A singleton change when `b` holds, else nothing.
pub open spec fn cond_ch(b: bool, c: ChangeV) -> Seq<ChangeV> {
    if b {
        seq![c]
    } else {
        Seq::empty()
    }
}

/// The change that a bulk merge records for field number `k` (in
/// declaration order), if the partial record carries that field with a
/// value other than the stored one.
pub open spec fn field_change(s: ClientStateV, p: ClientStateV, k: int) -> Seq<ChangeV> {
    if k == 1 {
        cond_ch(
            p.client_name is Some && p.client_name != s.client_name,
            ChangeV::ClientName(p.client_name->Some_0),
        )
    } else if k == 2 {
        cond_ch(
            p.battery_level is Some && p.battery_level != s.battery_level,
            ChangeV::BatteryLevel(p.battery_level->Some_0),
        )
    } else if k == 3 {
        cond_ch(
            p.is_charging is Some && p.is_charging != s.is_charging,
            ChangeV::IsCharging(p.is_charging->Some_0),
        )
    } else if k == 4 {
        cond_ch(
            p.display_name is Some && p.display_name != s.display_name,
            ChangeV::DisplayName(p.display_name->Some_0),
        )
    } else if k == 5 {
        cond_ch(
            p.recv_audio_port is Some && p.recv_audio_port != s.recv_audio_port,
            ChangeV::RecvAudioPort(p.recv_audio_port->Some_0),
        )
    } else if k == 6 {
        cond_ch(
            p.recv_repair_port is Some && p.recv_repair_port != s.recv_repair_port,
            ChangeV::RecvRepairPort(p.recv_repair_port->Some_0),
        )
    } else if k == 7 {
        cond_ch(
            p.send_audio_port is Some && p.send_audio_port != s.send_audio_port,
            ChangeV::SendAudioPort(p.send_audio_port->Some_0),
        )
    } else if k == 8 {
        cond_ch(
            p.send_repair_port is Some && p.send_repair_port != s.send_repair_port,
            ChangeV::SendRepairPort(p.send_repair_port->Some_0),
        )
    } else if k == 9 {
        cond_ch(
            p.send_mute is Some && p.send_mute != s.send_mute,
            ChangeV::SendMute(p.send_mute->Some_0),
        )
    } else if k == 10 {
        cond_ch(
            p.recv_mute is Some && p.recv_mute != s.recv_mute,
            ChangeV::RecvMute(p.recv_mute->Some_0),
        )
    } else if k == 11 {
        cond_ch(
            p.send_audio is Some && p.send_audio != s.send_audio,
            ChangeV::SendAudio(p.send_audio->Some_0),
        )
    } else if k == 12 {
        cond_ch(
            p.recv_audio is Some && p.recv_audio != s.recv_audio,
            ChangeV::RecvAudio(p.recv_audio->Some_0),
        )
    } else if k == 13 {
        cond_ch(
            p.battery_log_interval_secs is Some && p.battery_log_interval_secs
                != s.battery_log_interval_secs,
            ChangeV::BatteryLogIntervalSecs(p.battery_log_interval_secs),
        )
    } else {
        Seq::empty()
    }
}

/// The changes of a bulk merge for the first `k` fields, in field order.
pub open spec fn merge_changes_upto(s: ClientStateV, p: ClientStateV, k: int) -> Seq<ChangeV>
    decreases k,
{
    if k <= 0 {
        Seq::empty()
    } else {
        merge_changes_upto(s, p, k - 1) + field_change(s, p, k)
    }
}

/// Exactly the changes a bulk merge of `p` onto `s` records: one per field
/// that `p` carries with a value other than the stored one, in field order.
pub open spec fn merge_changes(s: ClientStateV, p: ClientStateV) -> Seq<ChangeV> {
    merge_changes_upto(s, p, 13)
}

/// The mathematical value of a sequence of recorded changes.
pub open spec fn changes_v(s: Seq<ClientStateChange>) -> Seq<ChangeV> {
    s.map_values(|c: ClientStateChange| c@)
}

/// The changes stamped with the session they concern.
pub open spec fn tag_events(id: u64, cs: Seq<ChangeV>) -> Seq<EventV> {
    cs.map_values(|c: ChangeV| (id, c))
}

/// Exactly the events a bulk merge of `p` onto session `id` holding `s`
/// emits.
pub open spec fn merge_events(id: u64, s: ClientStateV, p: ClientStateV) -> Seq<EventV> {
    tag_events(id, merge_changes(s, p))
}

/// A bulk merge never records a change whose value equals the value the
/// field already held: every recorded change differs from the stored state.
pub proof fn lemma_merge_upto_only_differing(s: ClientStateV, p: ClientStateV, k: int)
    ensures
        forall|j: int|
            0 <= j < merge_changes_upto(s, p, k).len() ==> change_differs(
                s,
                #[trigger] merge_changes_upto(s, p, k)[j],
            ),
    decreases k,
{
    if k > 0 {
        lemma_merge_upto_only_differing(s, p, k - 1);
        assert forall|j: int|
            0 <= j < merge_changes_upto(s, p, k).len() implies change_differs(
            s,
            #[trigger] merge_changes_upto(s, p, k)[j],
        ) by {
            if j >= merge_changes_upto(s, p, k - 1).len() {
                assert(merge_changes_upto(s, p, k)[j] == field_change(s, p, k)[j
                    - merge_changes_upto(s, p, k - 1).len()]);
            }
        }
    }
}

/// The first half of the merge contract: no change event is ever emitted
/// for a field whose merged value equals the prior value.
pub proof fn lemma_merge_emits_only_changed(s: ClientStateV, p: ClientStateV)
    ensures
        forall|j: int|
            0 <= j < merge_changes(s, p).len() ==> change_differs(
                s,
                #[trigger] merge_changes(s, p)[j],
            ),
{
    lemma_merge_upto_only_differing(s, p, 13);
}

/// The second half of the merge contract: exactly one change is recorded
/// per field that the partial record carries with a value other than the
/// stored one — the length of the record is the number of such fields.
pub proof fn lemma_merge_one_event_per_changed_field(s: ClientStateV, p: ClientStateV)
    ensures
        merge_changes(s, p).len() == (if p.client_name is Some && p.client_name != s.client_name {
            1int
        } else {
            0int
        }) + (if p.battery_level is Some && p.battery_level != s.battery_level {
            1int
        } else {
            0int
        }) + (if p.is_charging is Some && p.is_charging != s.is_charging {
            1int
        } else {
            0int
        }) + (if p.display_name is Some && p.display_name != s.display_name {
            1int
        } else {
            0int
        }) + (if p.recv_audio_port is Some && p.recv_audio_port != s.recv_audio_port {
            1int
        } else {
            0int
        }) + (if p.recv_repair_port is Some && p.recv_repair_port != s.recv_repair_port {
            1int
        } else {
            0int
        }) + (if p.send_audio_port is Some && p.send_audio_port != s.send_audio_port {
            1int
        } else {
            0int
        }) + (if p.send_repair_port is Some && p.send_repair_port != s.send_repair_port {
            1int
        } else {
            0int
        }) + (if p.send_mute is Some && p.send_mute != s.send_mute {
            1int
        } else {
            0int
        }) + (if p.recv_mute is Some && p.recv_mute != s.recv_mute {
            1int
        } else {
            0int
        }) + (if p.send_audio is Some && p.send_audio != s.send_audio {
            1int
        } else {
            0int
        }) + (if p.recv_audio is Some && p.recv_audio != s.recv_audio {
            1int
        } else {
            0int
        }) + (if p.battery_log_interval_secs is Some && p.battery_log_interval_secs
            != s.battery_log_interval_secs {
            1int
        } else {
            0int
        }),
{
    assert(merge_changes_upto(s, p, 0).len() == 0);
    assert(merge_changes_upto(s, p, 1).len() == merge_changes_upto(s, p, 0).len()
        + field_change(s, p, 1).len());
    assert(merge_changes_upto(s, p, 2).len() == merge_changes_upto(s, p, 1).len()
        + field_change(s, p, 2).len());
    assert(merge_changes_upto(s, p, 3).len() == merge_changes_upto(s, p, 2).len()
        + field_change(s, p, 3).len());
    assert(merge_changes_upto(s, p, 4).len() == merge_changes_upto(s, p, 3).len()
        + field_change(s, p, 4).len());
    assert(merge_changes_upto(s, p, 5).len() == merge_changes_upto(s, p, 4).len()
        + field_change(s, p, 5).len());
    assert(merge_changes_upto(s, p, 6).len() == merge_changes_upto(s, p, 5).len()
        + field_change(s, p, 6).len());
    assert(merge_changes_upto(s, p, 7).len() == merge_changes_upto(s, p, 6).len()
        + field_change(s, p, 7).len());
    assert(merge_changes_upto(s, p, 8).len() == merge_changes_upto(s, p, 7).len()
        + field_change(s, p, 8).len());
    assert(merge_changes_upto(s, p, 9).len() == merge_changes_upto(s, p, 8).len()
        + field_change(s, p, 9).len());
    assert(merge_changes_upto(s, p, 10).len() == merge_changes_upto(s, p, 9).len()
        + field_change(s, p, 10).len());
    assert(merge_changes_upto(s, p, 11).len() == merge_changes_upto(s, p, 10).len()
        + field_change(s, p, 11).len());
    assert(merge_changes_upto(s, p, 12).len() == merge_changes_upto(s, p, 11).len()
        + field_change(s, p, 12).len());
    assert(merge_changes_upto(s, p, 13).len() == merge_changes_upto(s, p, 12).len()
        + field_change(s, p, 13).len());
}

/// Idempotence: once a partial record has been merged, merging the same
/// record again records no change at all.
pub proof fn lemma_merge_upto_idempotent(s: ClientStateV, p: ClientStateV, k: int)
    ensures
        merge_changes_upto(crate::state::merged_state(s, p), p, k) == Seq::<ChangeV>::empty(),
    decreases k,
{
    let m = crate::state::merged_state(s, p);
    if k <= 0 {
    } else {
        lemma_merge_upto_idempotent(s, p, k - 1);
        assert(field_change(m, p, k) == Seq::<ChangeV>::empty());
        assert(merge_changes_upto(m, p, k) =~= Seq::<ChangeV>::empty());
    }
}

/// Applying the same bulk-merge payload twice in a row emits events only
/// the first time: the second merge emits none.
pub proof fn lemma_merge_idempotent(s: ClientStateV, p: ClientStateV)
    ensures
        merge_changes(crate::state::merged_state(s, p), p) == Seq::<ChangeV>::empty(),
{
    lemma_merge_upto_idempotent(s, p, 13);
}

pub proof fn lemma_cs_idx_unique(cs: Seq<(u64, ClientStateV)>, id: u64, i: int)
    requires
        cs_unique(cs),
        0 <= i < cs.len(),
        cs[i].0 == id,
    ensures
        cs_connected(cs, id),
        cs_idx(cs, id) == i,
{
    assert(cs_connected(cs, id));
    let j = cs_idx(cs, id);
    assert(0 <= j < cs.len() && cs[j].0 == id);
    if i < j {
        assert(cs[i].0 != cs[j].0);
    } else if j < i {
        assert(cs[j].0 != cs[i].0);
    }
}

/// Appending the events of two successive mutations is one appending of
/// their concatenation.
/// Overwriting the state stored under `id` keeps every other session and
/// its state as it was.
pub proof fn lemma_cs_update(pre: Seq<(u64, ClientStateV)>, i: int, id: u64, v: ClientStateV)
    requires
        cs_unique(pre),
        0 <= i < pre.len(),
        pre[i].0 == id,
    ensures
        ({
            let post = pre.update(i, (id, v));
            &&& cs_unique(post)
            &&& forall|id2: u64| cs_connected(post, id2) == cs_connected(pre, id2)
            &&& cs_state(post, id) == v
            &&& forall|id2: u64|
                id2 != id && cs_connected(pre, id2) ==> cs_state(post, id2) == cs_state(pre, id2)
        }),
{
    let post = pre.update(i, (id, v));
    assert(forall|j: int| 0 <= j < pre.len() ==> post[j].0 == pre[j].0);
    assert forall|id2: u64| cs_connected(post, id2) == cs_connected(pre, id2) by {
        if cs_connected(pre, id2) {
            let j = cs_idx(pre, id2);
            assert(post[j].0 == id2);
            assert(cs_connected(post, id2));
        }
        if cs_connected(post, id2) {
            let j = cs_idx(post, id2);
            assert(pre[j].0 == id2);
            assert(cs_connected(pre, id2));
        }
    }
    lemma_cs_idx_unique(post, id, i);
    assert forall|id2: u64|
        id2 != id && cs_connected(pre, id2) implies cs_state(post, id2) == cs_state(
        pre,
        id2,
    ) by {
        let j = cs_idx(pre, id2);
        lemma_cs_idx_unique(pre, id2, j);
        lemma_cs_idx_unique(post, id2, j);
        assert(j != i);
    }
}

pub proof fn lemma_push_all_concat(qs: Seq<Seq<EventV>>, a: Seq<EventV>, b: Seq<EventV>)
    ensures
        push_all(push_all(qs, a), b) == push_all(qs, a + b),
{
    let lhs = push_all(push_all(qs, a), b);
    let rhs = push_all(qs, a + b);
    assert forall|i: int| 0 <= i < qs.len() implies lhs[i] == rhs[i] by {
        assert(lhs[i] =~= rhs[i]);
    }
    assert(lhs =~= rhs);
}

/// Appending no events changes no queue.
pub proof fn lemma_push_all_empty(qs: Seq<Seq<EventV>>)
    ensures
        push_all(qs, Seq::<EventV>::empty()) == qs,
{
    assert forall|i: int| 0 <= i < qs.len() implies push_all(qs, Seq::<EventV>::empty())[i]
        == qs[i] by {
        assert(push_all(qs, Seq::<EventV>::empty())[i] =~= qs[i]);
    }
    assert(push_all(qs, Seq::<EventV>::empty()) =~= qs);
}

/// The registry of connected sessions and the subscriber queues of its
/// change bus.
pub struct ClientManager {
    clients: Vec<(u64, ClientState)>,
    subs: Vec<Vec<(u64, ClientStateChange)>>,
}

impl ClientManager {
    /// The sessions, in the order they connected.
    pub closed spec fn clients_v(self) -> Seq<(u64, ClientStateV)> {
        self.clients@.map_values(|p: (u64, ClientState)| (p.0, p.1@))
    }

    /// The pending events of each subscriber, oldest first.
    pub closed spec fn subs_v(self) -> Seq<Seq<EventV>> {
        self.subs@.map_values(|q: Vec<(u64, ClientStateChange)>| queue_v(q@))
    }

    proof fn lemma_subs_v_index(self, t: int)
        requires
            0 <= t < self.subs@.len(),
        ensures
            self.subs_v()[t] == queue_v(self.subs@[t]@),
            self.subs_v().len() == self.subs@.len(),
    {
    }

    pub open spec fn wf(self) -> bool {
        cs_unique(self.clients_v())
    }

    pub open spec fn connected(self, id: u64) -> bool {
        cs_connected(self.clients_v(), id)
    }

    pub open spec fn state_of(self, id: u64) -> ClientStateV {
        cs_state(self.clients_v(), id)
    }

    pub open spec fn sub_count(self) -> int {
        self.subs_v().len() as int
    }

    pub open spec fn events_of(self, s: int) -> Seq<EventV> {
        self.subs_v()[s]
    }

    /// A registry with no sessions and no subscribers.
    pub fn new() -> (r: ClientManager)
        ensures
            r.wf(),
            r.clients_v() == Seq::<(u64, ClientStateV)>::empty(),
            r.subs_v() == Seq::<Seq<EventV>>::empty(),
    {
        let r = ClientManager { clients: Vec::new(), subs: Vec::new() };
        proof {
            assert(r.clients_v() =~= Seq::<(u64, ClientStateV)>::empty());
            assert(r.subs_v() =~= Seq::<Seq<EventV>>::empty());
        }
        r
    }

    /// Registers a new, independent event sink and returns its handle.
    /// Every event emitted from now on lands in this queue as well.
    pub fn subscribe(&mut self) -> (s: usize)
        ensures
            final(self).wf() == old(self).wf(),
            final(self).clients_v() == old(self).clients_v(),
            s == old(self).sub_count(),
            final(self).sub_count() == old(self).sub_count() + 1,
            final(self).subs_v() == old(self).subs_v().push(Seq::<EventV>::empty()),
            final(self).events_of(s as int) == Seq::<EventV>::empty(),
    {
        let s = self.subs.len();
        self.subs.push(Vec::new());
        proof {
            assert(self.subs_v() =~~= old(self).subs_v().push(Seq::<EventV>::empty()));
        }
        s
    }

    /// Hands out the pending events of subscriber `s` and empties its queue.
    pub fn take_events(&mut self, s: usize) -> (evs: Vec<(u64, ClientStateChange)>)
        requires
            s < old(self).sub_count(),
        ensures
            final(self).wf() == old(self).wf(),
            final(self).clients_v() == old(self).clients_v(),
            final(self).sub_count() == old(self).sub_count(),
            queue_v(evs@) == old(self).events_of(s as int),
            final(self).events_of(s as int) == Seq::<EventV>::empty(),
            forall|t: int|
                0 <= t < old(self).sub_count() && t != s ==> final(self).events_of(t) == old(self).events_of(t),
    {
        let mut out: Vec<(u64, ClientStateChange)> = Vec::new();
        core::mem::swap(&mut out, &mut self.subs[s]);
        proof {
            assert(self.subs_v()[s as int] =~= Seq::<EventV>::empty());
        }
        out
    }

    /// Finds the position of a session key in the backing vector.
    fn find_index(&self, id: u64) -> (r: Option<usize>)
        ensures
            match r {
                Some(i) => (i as int) < self.clients_v().len() && self.clients_v()[i as int].0
                    == id,
                None => !cs_connected(self.clients_v(), id),
            },
    {
        let mut i: usize = 0;
        while i < self.clients.len()
            invariant
                i <= self.clients@.len(),
                forall|j: int| 0 <= j < i ==> self.clients_v()[j].0 != id,
            decreases self.clients@.len() - i,
        {
            if self.clients[i].0 == id {
                return Some(i);
            }
            i += 1;
        }
        None
    }

    /// Appends one event to every subscriber queue.
    fn emit(&mut self, session_id: u64, change: &ClientStateChange)
        ensures
            final(self).clients_v() == old(self).clients_v(),
            final(self).subs_v() == push_all(
                old(self).subs_v(),
                seq![(session_id, change@)],
            ),
    {
        let ghost ev: EventV = (session_id, change@);
        let mut s: usize = 0;
        while s < self.subs.len()
            invariant
                ev == (session_id, change@),
                s <= self.subs@.len(),
                self.subs@.len() == old(self).subs_v().len(),
                self.clients@ == old(self).clients@,
                forall|t: int|
                    0 <= t < s ==> queue_v(self.subs@[t]@) == queue_v(old(self).subs@[t]@).push(
                        ev,
                    ),
                forall|t: int|
                    s <= t < self.subs@.len() ==> self.subs@[t]@ == old(self).subs@[t]@,
            decreases self.subs@.len() - s,
        {
            let e = (session_id, change.duplicate());
            let ghost e0 = e;
            self.subs[s].push(e);
            proof {
                assert(self.subs@[s as int]@ == old(self).subs@[s as int]@.push(e0));
                self.lemma_subs_v_index(s as int);
                old(self).lemma_subs_v_index(s as int);
                lemma_queue_v_push(old(self).subs@[s as int]@, e0);
                assert(queue_v(self.subs@[s as int]@) == queue_v(old(self).subs@[s as int]@).push(
                    ev,
                ));
                assert(self.subs_v()[s as int] == old(self).subs_v()[s as int].push(ev));
            }
            s += 1;
        }
        proof {
            assert forall|t: int| 0 <= t < self.subs@.len() implies self.subs_v()[t] == push_all(
                old(self).subs_v(),
                seq![ev],
            )[t] by {
                self.lemma_subs_v_index(t);
                old(self).lemma_subs_v_index(t);
                assert(queue_v(old(self).subs@[t]@).push(ev) =~= old(self).subs_v()[t]
                    + seq![ev]);
            }
            assert(self.subs_v() =~= push_all(old(self).subs_v(), seq![ev]));
        }
    }

    /// Creates the session if it is absent — its state starts all-unset —
    /// and announces it on the change bus.
    pub fn new_client(&mut self, session_id: u64)
        requires
            old(self).wf(),
        ensures
            final(self).wf(),
            final(self).clients_v() == if old(self).connected(session_id) {
                old(self).clients_v()
            } else {
                old(self).clients_v().push((session_id, empty_state()))
            },
            final(self).connected(session_id),
            final(self).state_of(session_id) == if old(self).connected(session_id) {
                old(self).state_of(session_id)
            } else {
                empty_state()
            },
            forall|id2: u64|
                old(self).connected(id2) ==> final(self).connected(id2) && final(self).state_of(
                    id2,
                ) == old(self).state_of(id2),
            forall|id2: u64|
                final(self).connected(id2) ==> id2 == session_id || old(self).connected(id2),
            final(self).subs_v() == push_all(
                old(self).subs_v(),
                seq![(session_id, ChangeV::Add)],
            ),
    {
        let found = self.find_index(session_id);
        match found {
            Some(i) => {
                proof {
                    lemma_cs_idx_unique(self.clients_v(), session_id, i as int);
                }
            }
            None => {
                self.clients.push((session_id, ClientState::empty()));
                proof {
                    let pre = old(self).clients_v();
                    assert(self.clients_v() =~= pre.push((session_id, empty_state())));
                    lemma_cs_idx_unique(self.clients_v(), session_id, pre.len() as int);
                    assert forall|id2: u64| cs_connected(pre, id2) implies cs_connected(
                        self.clients_v(),
                        id2,
                    ) && cs_state(self.clients_v(), id2) == cs_state(pre, id2) by {
                        let i = cs_idx(pre, id2);
                        lemma_cs_idx_unique(pre, id2, i);
                        lemma_cs_idx_unique(self.clients_v(), id2, i);
                    }
                }
            }
        }
        self.emit(session_id, &ClientStateChange::Add);
    }

    /// Destroys the session if it is present, announcing its final state
    /// snapshot; without a matching session nothing happens and nothing is
    /// emitted.
    pub fn rm_client(&mut self, session_id: u64)
        requires
            old(self).wf(),
        ensures
            final(self).wf(),
            !final(self).connected(session_id),
            old(self).connected(session_id) ==> {
                &&& final(self).clients_v() == old(self).clients_v().remove(
                    cs_idx(old(self).clients_v(), session_id),
                )
                &&& final(self).subs_v() == push_all(
                    old(self).subs_v(),
                    seq![(session_id, ChangeV::Remove(old(self).state_of(session_id)))],
                )
            },
            !old(self).connected(session_id) ==> final(self).clients_v() == old(self).clients_v()
                && final(self).subs_v() == old(self).subs_v(),
            forall|id2: u64|
                old(self).connected(id2) && id2 != session_id ==> final(self).connected(id2)
                    && final(self).state_of(id2) == old(self).state_of(id2),
            forall|id2: u64| final(self).connected(id2) ==> old(self).connected(id2),
    {
        let found = self.find_index(session_id);
        match found {
            None => {}
            Some(i) => {
                proof {
                    lemma_cs_idx_unique(self.clients_v(), session_id, i as int);
                }
                let snapshot = self.clients[i].1.snapshot();
                self.clients.remove(i);
                proof {
                    let pre = old(self).clients_v();
                    assert(self.clients_v() =~= pre.remove(i as int));
                    assert forall|id2: u64|
                        cs_connected(pre, id2) && id2 != session_id implies cs_connected(
                        self.clients_v(),
                        id2,
                    ) && cs_state(self.clients_v(), id2) == cs_state(pre, id2) by {
                        let j = cs_idx(pre, id2);
                        lemma_cs_idx_unique(pre, id2, j);
                        if j < i as int {
                            lemma_cs_idx_unique(self.clients_v(), id2, j);
                        } else {
                            lemma_cs_idx_unique(self.clients_v(), id2, j - 1);
                        }
                    }
                    assert forall|id2: u64|
                        cs_connected(self.clients_v(), id2) implies cs_connected(pre, id2) by {
                        let j = cs_idx(self.clients_v(), id2);
                        if j < i as int {
                            assert(pre[j].0 == id2);
                        } else {
                            assert(pre[j + 1].0 == id2);
                        }
                    }
                    if cs_connected(self.clients_v(), session_id) {
                        let j = cs_idx(self.clients_v(), session_id);
                        if j < i as int {
                            assert(pre[j].0 == session_id && pre[i as int].0 == session_id);
                        } else {
                            assert(pre[j + 1].0 == session_id && pre[i as int].0 == session_id);
                        }
                    }
                }
                self.emit(session_id, &ClientStateChange::Remove(snapshot));
            }
        }
    }

    /// Writes one field of the session's state. Emits the change to every
    /// subscriber exactly when the newly supplied value equals the value
    /// the field held immediately before the write — the literal behavior
    /// of the reference field-set path, almost certainly an inverted
    /// comparison (the bulk-merge path emits on difference), kept and
    /// flagged rather than silently reconciled. `Add` and `Remove` are
    /// refused: they cannot be issued through this path.
    pub fn set_client_property(&mut self, session_id: u64, state_change: ClientStateChange) -> (r:
        Result<(), RegistryError>)
        requires
            old(self).wf(),
        ensures
            final(self).wf(),
            final(self).sub_count() == old(self).sub_count(),
            r is Ok <==> old(self).connected(session_id) && !(state_change@ is Add) && !(
            state_change@ is Remove),
            r matches Err(e) ==> final(self).clients_v() == old(self).clients_v() && final(self).subs_v() == old(self).subs_v() && ((e == RegistryError::SessionNotFound) <==> !old(self).connected(session_id)),
            r is Ok ==> final(self).clients_v() == old(self).clients_v().update(
                cs_idx(old(self).clients_v(), session_id),
                (
                    session_id,
                    apply_change(old(self).state_of(session_id), state_change@),
                ),
            ),
            r is Ok ==> final(self).state_of(session_id) == apply_change(
                old(self).state_of(session_id),
                state_change@,
            ),
            r is Ok ==> final(self).subs_v() == if crate::state::change_equals(
                old(self).state_of(session_id),
                state_change@,
            ) {
                push_all(old(self).subs_v(), seq![(session_id, state_change@)])
            } else {
                old(self).subs_v()
            },
            forall|id2: u64| final(self).connected(id2) == old(self).connected(id2),
            forall|id2: u64|
                id2 != session_id && old(self).connected(id2) ==> final(self).state_of(id2) == old(self).state_of(id2),
    {
        let i = match self.find_index(session_id) {
            None => {
                return Err(RegistryError::SessionNotFound);
            }
            Some(i) => i,
        };
        proof {
            lemma_cs_idx_unique(self.clients_v(), session_id, i as int);
        }
        match &state_change {
            ClientStateChange::Add => {
                return Err(RegistryError::UnsupportedOperation);
            }
            ClientStateChange::Remove(_) => {
                return Err(RegistryError::UnsupportedOperation);
            }
            _ => {}
        }
        proof {
            assert(self.clients_v().len() == self.clients@.len());
        }
        let mut entry = self.clients.remove(i);
        let same = !change_differs_exec(&entry.1, &state_change);
        crate::state::apply_change_exec(&mut entry.1, &state_change);
        self.clients.insert(i, entry);
        proof {
            let pre = old(self).clients_v();
            let newv = apply_change(cs_state(pre, session_id), state_change@);
            assert(self.clients_v() =~= pre.update(i as int, (session_id, newv)));
            lemma_cs_update(pre, i as int, session_id, newv);
        }
        if same {
            self.emit(session_id, &state_change);
        }
        Ok(())
    }

    /// One step of a bulk merge: the `client_name` field.
    fn merge_client_name(st: &mut ClientState, changed: &ClientState, evs: &mut Vec<ClientStateChange>)
        ensures
            final(st)@ == (if changed@.client_name is Some {
                ClientStateV { client_name: changed@.client_name, ..old(st)@ }
            } else {
                old(st)@
            }),
            changes_v(final(evs)@) == changes_v(old(evs)@) + field_change(
                old(st)@,
                changed@,
                1,
            ),
    {
        if let Some(n) = &changed.client_name {
            if !crate::state::opt_string_is(&st.client_name, n) {
                evs.push(ClientStateChange::ClientName(n.clone()));
                proof {
                    assert(changes_v(evs@) =~= changes_v(old(evs)@).push(ChangeV::ClientName(n@)));
                    assert(changes_v(evs@) =~= changes_v(old(evs)@) + field_change(
                        old(st)@,
                        changed@,
                        1,
                    ));
                }
            } else {
                proof {
                    assert(changes_v(evs@) =~= changes_v(old(evs)@) + field_change(
                        old(st)@,
                        changed@,
                        1,
                    ));
                }
            }
            st.client_name = Some(n.clone());
        } else {
            proof {
                assert(changes_v(evs@) =~= changes_v(old(evs)@) + field_change(
                    old(st)@,
                    changed@,
                    1,
                ));
            }
        }
    }

    /// One step of a bulk merge: the `battery_level` field.
    fn merge_battery_level(st: &mut ClientState, changed: &ClientState, evs: &mut Vec<ClientStateChange>)
        ensures
            final(st)@ == (if changed@.battery_level is Some {
                ClientStateV { battery_level: changed@.battery_level, ..old(st)@ }
            } else {
                old(st)@
            }),
            changes_v(final(evs)@) == changes_v(old(evs)@) + field_change(
                old(st)@,
                changed@,
                2,
            ),
    {
        if let Some(x) = changed.battery_level {
            if !crate::state::opt_u32_is(&st.battery_level, x) {
                evs.push(ClientStateChange::BatteryLevel(x));
                proof {
                    assert(changes_v(evs@) =~= changes_v(old(evs)@).push(ChangeV::BatteryLevel(x)));
                    assert(changes_v(evs@) =~= changes_v(old(evs)@) + field_change(
                        old(st)@,
                        changed@,
                        2,
                    ));
                }
            } else {
                proof {
                    assert(changes_v(evs@) =~= changes_v(old(evs)@) + field_change(
                        old(st)@,
                        changed@,
                        2,
                    ));
                }
            }
            st.battery_level = Some(x);
        } else {
            proof {
                assert(changes_v(evs@) =~= changes_v(old(evs)@) + field_change(
                    old(st)@,
                    changed@,
                    2,
                ));
            }
        }
    }

    /// One step of a bulk merge: the `is_charging` field.
    fn merge_is_charging(st: &mut ClientState, changed: &ClientState, evs: &mut Vec<ClientStateChange>)
        ensures
            final(st)@ == (if changed@.is_charging is Some {
                ClientStateV { is_charging: changed@.is_charging, ..old(st)@ }
            } else {
                old(st)@
            }),
            changes_v(final(evs)@) == changes_v(old(evs)@) + field_change(
                old(st)@,
                changed@,
                3,
            ),
    {
        if let Some(x) = changed.is_charging {
            if !crate::state::opt_bool_is(&st.is_charging, x) {
                evs.push(ClientStateChange::IsCharging(x));
                proof {
                    assert(changes_v(evs@) =~= changes_v(old(evs)@).push(ChangeV::IsCharging(x)));
                    assert(changes_v(evs@) =~= changes_v(old(evs)@) + field_change(
                        old(st)@,
                        changed@,
                        3,
                    ));
                }
            } else {
                proof {
                    assert(changes_v(evs@) =~= changes_v(old(evs)@) + field_change(
                        old(st)@,
                        changed@,
                        3,
                    ));
                }
            }
            st.is_charging = Some(x);
        } else {
            proof {
                assert(changes_v(evs@) =~= changes_v(old(evs)@) + field_change(
                    old(st)@,
                    changed@,
                    3,
                ));
            }
        }
    }

    /// One step of a bulk merge: the `display_name` field.
    fn merge_display_name(st: &mut ClientState, changed: &ClientState, evs: &mut Vec<ClientStateChange>)
        ensures
            final(st)@ == (if changed@.display_name is Some {
                ClientStateV { display_name: changed@.display_name, ..old(st)@ }
            } else {
                old(st)@
            }),
            changes_v(final(evs)@) == changes_v(old(evs)@) + field_change(
                old(st)@,
                changed@,
                4,
            ),
    {
        if let Some(n) = &changed.display_name {
            if !crate::state::opt_string_is(&st.display_name, n) {
                evs.push(ClientStateChange::DisplayName(n.clone()));
                proof {
                    assert(changes_v(evs@) =~= changes_v(old(evs)@).push(ChangeV::DisplayName(n@)));
                    assert(changes_v(evs@) =~= changes_v(old(evs)@) + field_change(
                        old(st)@,
                        changed@,
                        4,
                    ));
                }
            } else {
                proof {
                    assert(changes_v(evs@) =~= changes_v(old(evs)@) + field_change(
                        old(st)@,
                        changed@,
                        4,
                    ));
                }
            }
            st.display_name = Some(n.clone());
        } else {
            proof {
                assert(changes_v(evs@) =~= changes_v(old(evs)@) + field_change(
                    old(st)@,
                    changed@,
                    4,
                ));
            }
        }
    }

    /// One step of a bulk merge: the `recv_audio_port` field.
    fn merge_recv_audio_port(st: &mut ClientState, changed: &ClientState, evs: &mut Vec<ClientStateChange>)
        ensures
            final(st)@ == (if changed@.recv_audio_port is Some {
                ClientStateV { recv_audio_port: changed@.recv_audio_port, ..old(st)@ }
            } else {
                old(st)@
            }),
            changes_v(final(evs)@) == changes_v(old(evs)@) + field_change(
                old(st)@,
                changed@,
                5,
            ),
    {
        if let Some(x) = changed.recv_audio_port {
            if !crate::state::opt_u16_is(&st.recv_audio_port, x) {
                evs.push(ClientStateChange::RecvAudioPort(x));
                proof {
                    assert(changes_v(evs@) =~= changes_v(old(evs)@).push(ChangeV::RecvAudioPort(x)));
                    assert(changes_v(evs@) =~= changes_v(old(evs)@) + field_change(
                        old(st)@,
                        changed@,
                        5,
                    ));
                }
            } else {
                proof {
                    assert(changes_v(evs@) =~= changes_v(old(evs)@) + field_change(
                        old(st)@,
                        changed@,
                        5,
                    ));
                }
            }
            st.recv_audio_port = Some(x);
        } else {
            proof {
                assert(changes_v(evs@) =~= changes_v(old(evs)@) + field_change(
                    old(st)@,
                    changed@,
                    5,
                ));
            }
        }
    }

    /// One step of a bulk merge: the `recv_repair_port` field.
    fn merge_recv_repair_port(st: &mut ClientState, changed: &ClientState, evs: &mut Vec<ClientStateChange>)
        ensures
            final(st)@ == (if changed@.recv_repair_port is Some {
                ClientStateV { recv_repair_port: changed@.recv_repair_port, ..old(st)@ }
            } else {
                old(st)@
            }),
            changes_v(final(evs)@) == changes_v(old(evs)@) + field_change(
                old(st)@,
                changed@,
                6,
            ),
    {
        if let Some(x) = changed.recv_repair_port {
            if !crate::state::opt_u16_is(&st.recv_repair_port, x) {
                evs.push(ClientStateChange::RecvRepairPort(x));
                proof {
                    assert(changes_v(evs@) =~= changes_v(old(evs)@).push(ChangeV::RecvRepairPort(x)));
                    assert(changes_v(evs@) =~= changes_v(old(evs)@) + field_change(
                        old(st)@,
                        changed@,
                        6,
                    ));
                }
            } else {
                proof {
                    assert(changes_v(evs@) =~= changes_v(old(evs)@) + field_change(
                        old(st)@,
                        changed@,
                        6,
                    ));
                }
            }
            st.recv_repair_port = Some(x);
        } else {
            proof {
                assert(changes_v(evs@) =~= changes_v(old(evs)@) + field_change(
                    old(st)@,
                    changed@,
                    6,
                ));
            }
        }
    }

    /// One step of a bulk merge: the `send_audio_port` field.
    fn merge_send_audio_port(st: &mut ClientState, changed: &ClientState, evs: &mut Vec<ClientStateChange>)
        ensures
            final(st)@ == (if changed@.send_audio_port is Some {
                ClientStateV { send_audio_port: changed@.send_audio_port, ..old(st)@ }
            } else {
                old(st)@
            }),
            changes_v(final(evs)@) == changes_v(old(evs)@) + field_change(
                old(st)@,
                changed@,
                7,
            ),
    {
        if let Some(x) = changed.send_audio_port {
            if !crate::state::opt_u16_is(&st.send_audio_port, x) {
                evs.push(ClientStateChange::SendAudioPort(x));
                proof {
                    assert(changes_v(evs@) =~= changes_v(old(evs)@).push(ChangeV::SendAudioPort(x)));
                    assert(changes_v(evs@) =~= changes_v(old(evs)@) + field_change(
                        old(st)@,
                        changed@,
                        7,
                    ));
                }
            } else {
                proof {
                    assert(changes_v(evs@) =~= changes_v(old(evs)@) + field_change(
                        old(st)@,
                        changed@,
                        7,
                    ));
                }
            }
            st.send_audio_port = Some(x);
        } else {
            proof {
                assert(changes_v(evs@) =~= changes_v(old(evs)@) + field_change(
                    old(st)@,
                    changed@,
                    7,
                ));
            }
        }
    }

    /// One step of a bulk merge: the `send_repair_port` field.
    fn merge_send_repair_port(st: &mut ClientState, changed: &ClientState, evs: &mut Vec<ClientStateChange>)
        ensures
            final(st)@ == (if changed@.send_repair_port is Some {
                ClientStateV { send_repair_port: changed@.send_repair_port, ..old(st)@ }
            } else {
                old(st)@
            }),
            changes_v(final(evs)@) == changes_v(old(evs)@) + field_change(
                old(st)@,
                changed@,
                8,
            ),
    {
        if let Some(x) = changed.send_repair_port {
            if !crate::state::opt_u16_is(&st.send_repair_port, x) {
                evs.push(ClientStateChange::SendRepairPort(x));
                proof {
                    assert(changes_v(evs@) =~= changes_v(old(evs)@).push(ChangeV::SendRepairPort(x)));
                    assert(changes_v(evs@) =~= changes_v(old(evs)@) + field_change(
                        old(st)@,
                        changed@,
                        8,
                    ));
                }
            } else {
                proof {
                    assert(changes_v(evs@) =~= changes_v(old(evs)@) + field_change(
                        old(st)@,
                        changed@,
                        8,
                    ));
                }
            }
            st.send_repair_port = Some(x);
        } else {
            proof {
                assert(changes_v(evs@) =~= changes_v(old(evs)@) + field_change(
                    old(st)@,
                    changed@,
                    8,
                ));
            }
        }
    }

    /// One step of a bulk merge: the `send_mute` field.
    fn merge_send_mute(st: &mut ClientState, changed: &ClientState, evs: &mut Vec<ClientStateChange>)
        ensures
            final(st)@ == (if changed@.send_mute is Some {
                ClientStateV { send_mute: changed@.send_mute, ..old(st)@ }
            } else {
                old(st)@
            }),
            changes_v(final(evs)@) == changes_v(old(evs)@) + field_change(
                old(st)@,
                changed@,
                9,
            ),
    {
        if let Some(x) = changed.send_mute {
            if !crate::state::opt_bool_is(&st.send_mute, x) {
                evs.push(ClientStateChange::SendMute(x));
                proof {
                    assert(changes_v(evs@) =~= changes_v(old(evs)@).push(ChangeV::SendMute(x)));
                    assert(changes_v(evs@) =~= changes_v(old(evs)@) + field_change(
                        old(st)@,
                        changed@,
                        9,
                    ));
                }
            } else {
                proof {
                    assert(changes_v(evs@) =~= changes_v(old(evs)@) + field_change(
                        old(st)@,
                        changed@,
                        9,
                    ));
                }
            }
            st.send_mute = Some(x);
        } else {
            proof {
                assert(changes_v(evs@) =~= changes_v(old(evs)@) + field_change(
                    old(st)@,
                    changed@,
                    9,
                ));
            }
        }
    }

    /// One step of a bulk merge: the `recv_mute` field.
    fn merge_recv_mute(st: &mut ClientState, changed: &ClientState, evs: &mut Vec<ClientStateChange>)
        ensures
            final(st)@ == (if changed@.recv_mute is Some {
                ClientStateV { recv_mute: changed@.recv_mute, ..old(st)@ }
            } else {
                old(st)@
            }),
            changes_v(final(evs)@) == changes_v(old(evs)@) + field_change(
                old(st)@,
                changed@,
                10,
            ),
    {
        if let Some(x) = changed.recv_mute {
            if !crate::state::opt_bool_is(&st.recv_mute, x) {
                evs.push(ClientStateChange::RecvMute(x));
                proof {
                    assert(changes_v(evs@) =~= changes_v(old(evs)@).push(ChangeV::RecvMute(x)));
                    assert(changes_v(evs@) =~= changes_v(old(evs)@) + field_change(
                        old(st)@,
                        changed@,
                        10,
                    ));
                }
            } else {
                proof {
                    assert(changes_v(evs@) =~= changes_v(old(evs)@) + field_change(
                        old(st)@,
                        changed@,
                        10,
                    ));
                }
            }
            st.recv_mute = Some(x);
        } else {
            proof {
                assert(changes_v(evs@) =~= changes_v(old(evs)@) + field_change(
                    old(st)@,
                    changed@,
                    10,
                ));
            }
        }
    }

    /// One step of a bulk merge: the `send_audio` field.
    fn merge_send_audio(st: &mut ClientState, changed: &ClientState, evs: &mut Vec<ClientStateChange>)
        ensures
            final(st)@ == (if changed@.send_audio is Some {
                ClientStateV { send_audio: changed@.send_audio, ..old(st)@ }
            } else {
                old(st)@
            }),
            changes_v(final(evs)@) == changes_v(old(evs)@) + field_change(
                old(st)@,
                changed@,
                11,
            ),
    {
        if let Some(x) = changed.send_audio {
            if !crate::state::opt_bool_is(&st.send_audio, x) {
                evs.push(ClientStateChange::SendAudio(x));
                proof {
                    assert(changes_v(evs@) =~= changes_v(old(evs)@).push(ChangeV::SendAudio(x)));
                    assert(changes_v(evs@) =~= changes_v(old(evs)@) + field_change(
                        old(st)@,
                        changed@,
                        11,
                    ));
                }
            } else {
                proof {
                    assert(changes_v(evs@) =~= changes_v(old(evs)@) + field_change(
                        old(st)@,
                        changed@,
                        11,
                    ));
                }
            }
            st.send_audio = Some(x);
        } else {
            proof {
                assert(changes_v(evs@) =~= changes_v(old(evs)@) + field_change(
                    old(st)@,
                    changed@,
                    11,
                ));
            }
        }
    }

    /// One step of a bulk merge: the `recv_audio` field.
    fn merge_recv_audio(st: &mut ClientState, changed: &ClientState, evs: &mut Vec<ClientStateChange>)
        ensures
            final(st)@ == (if changed@.recv_audio is Some {
                ClientStateV { recv_audio: changed@.recv_audio, ..old(st)@ }
            } else {
                old(st)@
            }),
            changes_v(final(evs)@) == changes_v(old(evs)@) + field_change(
                old(st)@,
                changed@,
                12,
            ),
    {
        if let Some(x) = changed.recv_audio {
            if !crate::state::opt_bool_is(&st.recv_audio, x) {
                evs.push(ClientStateChange::RecvAudio(x));
                proof {
                    assert(changes_v(evs@) =~= changes_v(old(evs)@).push(ChangeV::RecvAudio(x)));
                    assert(changes_v(evs@) =~= changes_v(old(evs)@) + field_change(
                        old(st)@,
                        changed@,
                        12,
                    ));
                }
            } else {
                proof {
                    assert(changes_v(evs@) =~= changes_v(old(evs)@) + field_change(
                        old(st)@,
                        changed@,
                        12,
                    ));
                }
            }
            st.recv_audio = Some(x);
        } else {
            proof {
                assert(changes_v(evs@) =~= changes_v(old(evs)@) + field_change(
                    old(st)@,
                    changed@,
                    12,
                ));
            }
        }
    }

    /// One step of a bulk merge: the `battery_log_interval_secs` field.
    fn merge_battery_log_interval_secs(st: &mut ClientState, changed: &ClientState, evs: &mut Vec<ClientStateChange>)
        ensures
            final(st)@ == (if changed@.battery_log_interval_secs is Some {
                ClientStateV { battery_log_interval_secs: changed@.battery_log_interval_secs, ..old(st)@ }
            } else {
                old(st)@
            }),
            changes_v(final(evs)@) == changes_v(old(evs)@) + field_change(
                old(st)@,
                changed@,
                13,
            ),
    {
        if let Some(iv) = changed.battery_log_interval_secs {
            if !crate::state::opt_u32_is(&st.battery_log_interval_secs, iv) {
                evs.push(ClientStateChange::BatteryLogIntervalSecs(Some(iv)));
                proof {
                    assert(changes_v(evs@) =~= changes_v(old(evs)@).push(ChangeV::BatteryLogIntervalSecs(Some(iv))));
                    assert(changes_v(evs@) =~= changes_v(old(evs)@) + field_change(
                        old(st)@,
                        changed@,
                        13,
                    ));
                }
            } else {
                proof {
                    assert(changes_v(evs@) =~= changes_v(old(evs)@) + field_change(
                        old(st)@,
                        changed@,
                        13,
                    ));
                }
            }
            st.battery_log_interval_secs = Some(iv);
        } else {
            proof {
                assert(changes_v(evs@) =~= changes_v(old(evs)@) + field_change(
                    old(st)@,
                    changed@,
                    13,
                ));
            }
        }
    }

    /// Merges every field that `changed` carries onto `st`, recording one
    /// change per field whose value differs from the stored one, in field
    /// order. Handled one field at a time, each step a function of its own.
    #[verifier::rlimit(100)]
    #[verifier::spinoff_prover]
    fn merge_collect(st: &mut ClientState, changed: &ClientState) -> (evs: Vec<ClientStateChange>)
        ensures
            final(st)@ == crate::state::merged_state(old(st)@, changed@),
            changes_v(evs@) == merge_changes(old(st)@, changed@),
    {
        let ghost s0: ClientStateV = st@;
        let ghost pv: ClientStateV = changed@;
        let mut evs: Vec<ClientStateChange> = Vec::new();
        let ghost mut rec: Seq<ChangeV> = Seq::empty();
        let ghost mut prev: ClientStateV = st@;
        proof {
            assert(changes_v(evs@) =~= rec);
            assert(rec == merge_changes_upto(s0, pv, 0));
        }
        Self::merge_client_name(st, changed, &mut evs);
        proof {
            assert(field_change(prev, pv, 1) == field_change(s0, pv, 1));
            rec = rec + field_change(s0, pv, 1);
            assert(rec == merge_changes_upto(s0, pv, 1));
            prev = st@;
        }
        Self::merge_battery_level(st, changed, &mut evs);
        proof {
            assert(field_change(prev, pv, 2) == field_change(s0, pv, 2));
            rec = rec + field_change(s0, pv, 2);
            assert(rec == merge_changes_upto(s0, pv, 2));
            prev = st@;
        }
        Self::merge_is_charging(st, changed, &mut evs);
        proof {
            assert(field_change(prev, pv, 3) == field_change(s0, pv, 3));
            rec = rec + field_change(s0, pv, 3);
            assert(rec == merge_changes_upto(s0, pv, 3));
            prev = st@;
        }
        Self::merge_display_name(st, changed, &mut evs);
        proof {
            assert(field_change(prev, pv, 4) == field_change(s0, pv, 4));
            rec = rec + field_change(s0, pv, 4);
            assert(rec == merge_changes_upto(s0, pv, 4));
            prev = st@;
        }
        Self::merge_recv_audio_port(st, changed, &mut evs);
        proof {
            assert(field_change(prev, pv, 5) == field_change(s0, pv, 5));
            rec = rec + field_change(s0, pv, 5);
            assert(rec == merge_changes_upto(s0, pv, 5));
            prev = st@;
        }
        Self::merge_recv_repair_port(st, changed, &mut evs);
        proof {
            assert(field_change(prev, pv, 6) == field_change(s0, pv, 6));
            rec = rec + field_change(s0, pv, 6);
            assert(rec == merge_changes_upto(s0, pv, 6));
            prev = st@;
        }
        Self::merge_send_audio_port(st, changed, &mut evs);
        proof {
            assert(field_change(prev, pv, 7) == field_change(s0, pv, 7));
            rec = rec + field_change(s0, pv, 7);
            assert(rec == merge_changes_upto(s0, pv, 7));
            prev = st@;
        }
        Self::merge_send_repair_port(st, changed, &mut evs);
        proof {
            assert(field_change(prev, pv, 8) == field_change(s0, pv, 8));
            rec = rec + field_change(s0, pv, 8);
            assert(rec == merge_changes_upto(s0, pv, 8));
            prev = st@;
        }
        Self::merge_send_mute(st, changed, &mut evs);
        proof {
            assert(field_change(prev, pv, 9) == field_change(s0, pv, 9));
            rec = rec + field_change(s0, pv, 9);
            assert(rec == merge_changes_upto(s0, pv, 9));
            prev = st@;
        }
        Self::merge_recv_mute(st, changed, &mut evs);
        proof {
            assert(field_change(prev, pv, 10) == field_change(s0, pv, 10));
            rec = rec + field_change(s0, pv, 10);
            assert(rec == merge_changes_upto(s0, pv, 10));
            prev = st@;
        }
        Self::merge_send_audio(st, changed, &mut evs);
        proof {
            assert(field_change(prev, pv, 11) == field_change(s0, pv, 11));
            rec = rec + field_change(s0, pv, 11);
            assert(rec == merge_changes_upto(s0, pv, 11));
            prev = st@;
        }
        Self::merge_recv_audio(st, changed, &mut evs);
        proof {
            assert(field_change(prev, pv, 12) == field_change(s0, pv, 12));
            rec = rec + field_change(s0, pv, 12);
            assert(rec == merge_changes_upto(s0, pv, 12));
            prev = st@;
        }
        Self::merge_battery_log_interval_secs(st, changed, &mut evs);
        proof {
            assert(field_change(prev, pv, 13) == field_change(s0, pv, 13));
            rec = rec + field_change(s0, pv, 13);
            assert(rec == merge_changes_upto(s0, pv, 13));
            prev = st@;
        }
        proof {
            assert(st@ == crate::state::merged_state(s0, pv));
            assert(changes_v(evs@) == rec);
        }
        evs
    }

    /// Appends the given changes, stamped with `session_id`, to every
    /// subscriber queue, in order.
    fn emit_seq(&mut self, session_id: u64, evs: &Vec<ClientStateChange>)
        ensures
            final(self).clients_v() == old(self).clients_v(),
            final(self).subs_v() == push_all(
                old(self).subs_v(),
                tag_events(session_id, changes_v(evs@)),
            ),
    {
        let ghost qs0: Seq<Seq<EventV>> = old(self).subs_v();
        let mut k: usize = 0;
        proof {
            lemma_push_all_empty(qs0);
            assert(tag_events(session_id, changes_v(evs@.take(0))) =~= Seq::<EventV>::empty());
        }
        while k < evs.len()
            invariant
                k <= evs@.len(),
                self.clients_v() == old(self).clients_v(),
                self.subs_v() == push_all(
                    qs0,
                    tag_events(session_id, changes_v(evs@.take(k as int))),
                ),
                qs0 == old(self).subs_v(),
            decreases evs@.len() - k,
        {
            let ghost pre_tagged = tag_events(session_id, changes_v(evs@.take(k as int)));
            self.emit(session_id, &evs[k]);
            proof {
                lemma_push_all_concat(qs0, pre_tagged, seq![(session_id, evs@[k as int]@)]);
                assert(tag_events(session_id, changes_v(evs@.take(k as int + 1))) =~= pre_tagged
                    + seq![(session_id, evs@[k as int]@)]);
            }
            k += 1;
        }
        proof {
            assert(evs@.take(evs@.len() as int) =~= evs@);
        }
    }

    /// Merges every field that `changed` carries onto the session's state,
    /// emitting one event per field whose value differs from the stored
    /// one, in field order.
    pub fn update_client(&mut self, session_id: u64, changed: ClientState) -> (r: Result<
        (),
        RegistryError,
    >)
        requires
            old(self).wf(),
        ensures
            final(self).wf(),
            final(self).sub_count() == old(self).sub_count(),
            r is Ok <==> old(self).connected(session_id),
            r is Err ==> final(self).clients_v() == old(self).clients_v() && final(self).subs_v()
                == old(self).subs_v() && r == Err::<(), RegistryError>(
                RegistryError::SessionNotFound,
            ),
            r is Ok ==> final(self).clients_v() == old(self).clients_v().update(
                cs_idx(old(self).clients_v(), session_id),
                (
                    session_id,
                    crate::state::merged_state(old(self).state_of(session_id), changed@),
                ),
            ),
            r is Ok ==> final(self).state_of(session_id) == crate::state::merged_state(
                old(self).state_of(session_id),
                changed@,
            ),
            r is Ok ==> final(self).subs_v() == push_all(
                old(self).subs_v(),
                merge_events(session_id, old(self).state_of(session_id), changed@),
            ),
            forall|id2: u64| final(self).connected(id2) == old(self).connected(id2),
            forall|id2: u64|
                id2 != session_id && old(self).connected(id2) ==> final(self).state_of(id2) == old(
                    self,
                ).state_of(id2),
    {
        let i = match self.find_index(session_id) {
            None => {
                return Err(RegistryError::SessionNotFound);
            }
            Some(i) => i,
        };
        proof {
            lemma_cs_idx_unique(self.clients_v(), session_id, i as int);
            assert(self.clients_v().len() == self.clients@.len());
        }
        let mut entry = self.clients.remove(i);
        let ghost s0: ClientStateV = entry.1@;
        let evs = Self::merge_collect(&mut entry.1, &changed);
        self.clients.insert(i, entry);
        proof {
            let pre = old(self).clients_v();
            let newv = crate::state::merged_state(s0, changed@);
            assert(self.clients_v() =~= pre.update(i as int, (session_id, newv)));
            lemma_cs_update(pre, i as int, session_id, newv);
        }
        self.emit_seq(session_id, &evs);
        Ok(())
    }

    /// An immutable copy of the session's current state.
    pub fn get_client(&mut self, session_id: u64) -> (r: Result<ClientState, RegistryError>)
        requires
            old(self).wf(),
        ensures
            final(self).wf(),
            final(self).clients_v() == old(self).clients_v(),
            final(self).subs_v() == old(self).subs_v(),
            match r {
                Ok(st) => old(self).connected(session_id) && st@ == old(self).state_of(session_id),
                Err(e) => e == RegistryError::SessionNotFound && !old(self).connected(session_id),
            },
    {
        match self.find_index(session_id) {
            None => Err(RegistryError::SessionNotFound),
            Some(i) => {
                proof {
                    lemma_cs_idx_unique(self.clients_v(), session_id, i as int);
                }
                Ok(self.clients[i].1.snapshot())
            }
        }
    }

    /// The first session, in connection order, whose identity name is
    /// `client_name`.
    pub fn get_session_id(&self, client_name: &str) -> (r: Option<u64>)
        ensures
            r == find_by_name(self.clients_v(), client_name@),
    {
        let target: String = client_name.to_owned();
        let ghost csv = self.clients_v();
        proof {
            assert(csv.skip(0) =~= csv);
        }
        let mut i: usize = 0;
        while i < self.clients.len()
            invariant
                i <= self.clients@.len(),
                csv == self.clients_v(),
                target@ == client_name@,
                find_by_name(csv, client_name@) == find_by_name(
                    csv.skip(i as int),
                    client_name@,
                ),
            decreases self.clients@.len() - i,
        {
            let matched = match &self.clients[i].1.client_name {
                Some(n) => *n == target,
                None => false,
            };
            proof {
                assert(csv.skip(i as int)[0] == csv[i as int]);
                assert(matched == (csv[i as int].1.client_name == Some(client_name@)));
            }
            if matched {
                return Some(self.clients[i].0);
            }
            proof {
                assert(csv.skip(i as int).drop_first() =~= csv.skip(i as int + 1));
            }
            i += 1;
        }
        proof {
            assert(csv.skip(i as int) =~= Seq::<(u64, ClientStateV)>::empty());
        }
        None
    }

    /// A point-in-time copy of every connected session's state, in
    /// connection order.
    pub fn get_all_clients(&self) -> (r: Vec<ClientState>)
        ensures
            r@.len() == self.clients_v().len(),
            forall|i: int| 0 <= i < r@.len() ==> r@[i]@ == self.clients_v()[i].1,
    {
        let mut out: Vec<ClientState> = Vec::new();
        let mut i: usize = 0;
        while i < self.clients.len()
            invariant
                i <= self.clients@.len(),
                out@.len() == i,
                forall|j: int| 0 <= j < i ==> out@[j]@ == self.clients_v()[j].1,
            decreases self.clients@.len() - i,
        {
            out.push(self.clients[i].1.snapshot());
            i += 1;
        }
        out
    }
}

} // verus!
