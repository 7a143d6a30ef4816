//! The end of a session, and its resumption over a new connection.
use std::collections::VecDeque;
use std::sync::atomic::AtomicBool;
use std::sync::Arc;
use vstd::prelude::*;

use super::model::{
    cleaned_is_wf, drop_keeps_wf, expiry_of, no_publications, numbers, occupied, pubrel_model,
    resend_keeps_wf, resumed_is_wf, slots_without, slots_without_shrink, somes, taken, taken_update,
    unqueued_is_wf, StateModel,
};
use super::{expiry_interval, slot_view, MqttState};
use crate::bitset::{count_ones, is_set, ones, positions, positions_are_set};
use crate::clock::age;
use crate::tables::{
    hashed_keys, listed_before, listed_grows, lists, lists_both, ordered_keys, read_as, transmitted,
};
use crate::v5::event::{Request, RequestModel};
use crate::v5::mqttbytes::v5::packet::{Packet, PacketModel};
use crate::v5::mqttbytes::v5::publish::{Publish, PublishModel};
use crate::v5::mqttbytes::v5::pubrel::PubRel;

verus! {

/// What requests hold.
pub open spec fn request_views(v: Seq<Request>) -> Seq<RequestModel> {
    Seq::new(v.len(), |i: int| v[i]@)
}

/// What slots hold.
pub open spec fn slot_views(v: Seq<Option<Publish>>) -> Seq<Option<PublishModel>> {
    Seq::new(v.len(), |i: int| slot_view(v[i]))
}

spec fn publish_requests(p: Seq<PublishModel>) -> Seq<RequestModel> {
    Seq::new(p.len(), |i: int| RequestModel::Publish(p[i]))
}

/// Takes the publications out of their slots, in order.
fn drain(slots: &mut Vec<Option<Publish>>) -> (r: Vec<Request>)
    ensures
        slot_views(final(slots)@) == no_publications(old(slots)@.len()),
        request_views(r@) == publish_requests(somes(slot_views(old(slots)@))),
{
    let ghost all = slot_views(slots@);
    let n: usize = slots.len();
    let mut pending: Vec<Request> = Vec::with_capacity(100);
    let mut i: usize = 0;
    assert(all.take(0) =~= Seq::<Option<PublishModel>>::empty());
    assert(request_views(pending@) =~= publish_requests(somes(all.take(0))));
    while i < n
        invariant
            i <= n,
            slots@.len() == n,
            all.len() == n,
            request_views(pending@) == publish_requests(somes(all.take(i as int))),
            forall|j: int|
                0 <= j < n ==> slot_view(#[trigger] slots@[j]) == (if j < i {
                    None
                } else {
                    all[j]
                }),
        decreases n - i,
    {
        assert(all.take(i + 1).drop_last() =~= all.take(i as int));
        let ghost before = request_views(pending@);
        if let Some(publish) = slots[i].take() {
            let ghost p = publish@;
            pending.push(Request::Publish(publish));
            assert(request_views(pending@) =~= before.push(RequestModel::Publish(p)));
            assert(publish_requests(somes(all.take(i as int)).push(p)) =~= publish_requests(
                somes(all.take(i as int)),
            ).push(RequestModel::Publish(p)));
        }
        i = i + 1;
    }
    assert(all.take(i as int) =~= all);
    assert(slot_views(slots@) =~= no_publications(n as nat));
    pending
}

impl MqttState {
    /// Returns inflight outgoing packets and clears internal queues
    pub fn clean(&mut self) -> (r: Vec<Request>)
        requires
            old(self)@.outgoing_rel.len() <= 65536,
        ensures
            request_views(r@) == old(self)@.pending_requests(),
            final(self)@ == old(self)@.cleaned(),
            old(self)@.wf() ==> final(self)@.wf(),
    {
        broadcast use vstd::std_specs::hash::group_hash_axioms;

        let ghost s = self@;
        proof {
            if s.wf() {
                cleaned_is_wf(s);
            }
            positions_are_set(s.outgoing_rel);
            assert(s.outgoing_pub =~= slot_views(self.outgoing_pub@));
        }
        self.ledger.transmission_flags.clear();
        // remove and collect pending publishes
        let mut pending = drain(&mut self.outgoing_pub);
        // remove and collect pending releases
        let released = ones(&self.outgoing_rel);
        let ghost front = request_views(pending@);
        let ghost releases = numbers(positions(s.outgoing_rel));
        let mut i: usize = 0;
        while i < released.len()
            invariant
                i <= released@.len(),
                releases == numbers(released@),
                forall|k: int| 0 <= k < released@.len() ==> (#[trigger] released@[k]) < 65536,
                request_views(pending@) == front + Seq::new(
                    i as nat,
                    |k: int| RequestModel::PubRel(pubrel_model(releases[k])),
                ),
            decreases released@.len() - i,
        {
            let ghost before = request_views(pending@);
            pending.push(Request::PubRel(PubRel::new(released[i] as u16, None)));
            i = i + 1;
            proof {
                let m = RequestModel::PubRel(pubrel_model(releases[i - 1]));
                assert(request_views(pending@) =~= before.push(m));
                assert(request_views(pending@) =~= front + Seq::new(
                    i as nat,
                    |k: int| RequestModel::PubRel(pubrel_model(releases[k])),
                ));
            }
        }
        self.outgoing_rel.clear();
        // remove packed ids of incoming qos2 publishes
        self.incoming_pub.clear();
        self.ledger.incoming_ack.clear();
        self.ledger.incoming_rec.clear();
        self.ledger.incoming_done.clear();
        self.ledger.outgoing_sub.clear();
        self.ledger.outgoing_unsub.clear();
        self.ledger.topic_alises.clear();
        self.ledger.outgoing_aliases.clear();
        self.ledger.resume_queue.clear();
        self.ledger.resume_sent.clear();
        self.ledger.outgoing_expiry_started.clear();
        self.await_pingresp = false;
        self.collision_ping_count = 0;
        self.inflight = 0;
        proof {
            assert(request_views(pending@) =~= s.pending_requests());
            assert(self@.outgoing_pub =~= slot_views(self.outgoing_pub@));
            assert(self@ =~= s.cleaned());
        }
        pending
    }

    /// Track whether a controlled writer may have transmitted a publication.
    /// A cancelled request that never entered the writer must not be replayed.
    pub fn track_publish_transmission(&mut self, id: u16, flag: Arc<AtomicBool>)
        ensures
            final(self)@ == old(self)@.flagged(id, flag),
            old(self)@.wf() ==> final(self)@.wf(),
    {
        broadcast use vstd::std_specs::btree::group_btree_axioms;

        let ghost s = self@;
        self.ledger.transmission_flags.insert(id, flag);
        assert(self@ =~= s.flagged(id, flag));
    }

    /// The tracked publications that have not entered the writer, as far as their flags tell.
    fn unsent_publications(&self) -> (r: Vec<u16>)
        ensures
            self@.tells_unsent(r@.to_set()),
            r@.no_duplicates(),
    {
        broadcast use vstd::std_specs::btree::group_btree_axioms;

        let ghost flags = self.ledger.transmission_flags@;
        let keys = ordered_keys(&self.ledger.transmission_flags);
        let mut unsent: Vec<u16> = Vec::new();
        let mut i: usize = 0;
        while i < keys.len()
            invariant
                i <= keys@.len(),
                flags == self.ledger.transmission_flags@,
                lists(keys@, flags.dom()),
                unsent@.no_duplicates(),
                forall|id: u16| #[trigger]
                    unsent@.contains(id) ==> keys@.take(i as int).contains(id) && read_as(
                        flags[id],
                        false,
                    ),
                forall|id: u16| #[trigger]
                    keys@.take(i as int).contains(id) && !unsent@.contains(id) ==> read_as(
                        flags[id],
                        true,
                    ),
            decreases keys@.len() - i,
        {
            let id: u16 = keys[i];
            let ghost before = unsent@;
            proof {
                assert(keys@.to_set().contains(id));
                listed_grows(keys@, i as int);
                assert(!keys@.take(i as int).to_set().contains(id));
                assert(!keys@.take(i as int).contains(id));
                assert(!before.contains(id));
            }
            if let Some(flag) = self.ledger.transmission_flags.get(&id) {
                if !transmitted(flag) {
                    unsent.push(id);
                }
            }
            proof {
                let seen = keys@.take(i as int);
                let more = keys@.take(i + 1);
                assert forall|x: u16| #[trigger] more.contains(x) <==> seen.contains(x) || x == id by {
                    assert(more.to_set().contains(x) <==> seen.to_set().insert(id).contains(x));
                }
                assert forall|x: u16| #[trigger] unsent@.contains(x) implies before.contains(x) || (x
                    == id && unsent@.len() > before.len()) by {
                    let j = unsent@.index_of(x);
                    if j < before.len() {
                        assert(before[j] == x);
                    }
                }
                assert forall|x: u16| #[trigger] before.contains(x) implies unsent@.contains(x) by {
                    let j = before.index_of(x);
                    assert(unsent@[j] == x);
                }
                if unsent@.len() > before.len() {
                    assert(unsent@[before.len() as int] == id);
                }
            }
            i = i + 1;
        }
        proof {
            assert(keys@.take(i as int) =~= keys@);
            assert forall|id: u16| #[trigger] flags.contains_key(id) implies read_as(
                flags[id],
                !unsent@.to_set().contains(id),
            ) by {
                assert(keys@.to_set().contains(id));
            }
            assert forall|id: u16| #[trigger] unsent@.to_set().contains(id) implies flags.contains_key(
                id,
            ) by {
                assert(keys@.to_set().contains(id));
            }
        }
        unsent
    }

    /// Forgets publications that have not entered the writer.
    fn discard_unsent_publications(&mut self, unsent: &Vec<u16>)
        requires
            old(self)@.wf(),
        ensures
            final(self)@ == old(self)@.without(unsent@.to_set()).keep_flags(),
    {
        broadcast use vstd::std_specs::btree::group_btree_axioms;

        let ghost s = self@;
        let ghost gone = unsent@.take(0).to_set();
        proof {
            assert(gone =~= Set::<u16>::empty());
            assert(slots_without(s.outgoing_pub, gone) =~= s.outgoing_pub);
            assert(s.without(gone) =~= s);
        }
        let mut i: usize = 0;
        while i < unsent.len()
            invariant
                i <= unsent@.len(),
                s == old(self)@,
                s.wf(),
                self@ == s.without(unsent@.take(i as int).to_set()),
            decreases unsent@.len() - i,
        {
            let id: u16 = unsent[i];
            let ghost before = self@;
            let ghost set = unsent@.take(i as int).to_set();
            let ghost more = unsent@.take(i + 1).to_set();
            proof {
                assert(unsent@.take(i + 1) =~= unsent@.take(i as int).push(id));
                assert forall|x: u16| more.contains(x) == set.insert(id).contains(x) by {
                    if set.contains(x) {
                        let j = unsent@.take(i as int).index_of(x);
                        assert(unsent@.take(i + 1)[j] == x);
                    }
                    if more.contains(x) && x != id {
                        let j = unsent@.take(i + 1).index_of(x);
                        assert(unsent@.take(i as int)[j] == x);
                    }
                    assert(unsent@.take(i + 1)[i as int] == id);
                }
                assert(more =~= set.insert(id));
                resumed_is_wf(s, set);
                slots_without_shrink(s.outgoing_pub, set);
                slots_without_shrink(s.outgoing_pub, more);
            }
            if (id as usize) < self.outgoing_pub.len() {
                if self.outgoing_pub[id as usize].is_some() {
                    proof {
                        drop_keeps_wf(before, id);
                        taken_update(before.outgoing_pub, id as int, None);
                    }
                    self.drop_publication(id);
                }
            }
            self.ledger.transmission_flags.remove(&id);
            proof {
                let left = slots_without(s.outgoing_pub, more);
                assert forall|j: int| 0 <= j < left.len() implies self@.outgoing_pub[j] == left[j] by {
                    assert(before.outgoing_pub[j] == slots_without(s.outgoing_pub, set)[j]);
                    assert(j as u16 == id <==> j == id);
                }
                assert(self@.outgoing_pub =~= left);
                assert(self@.transmission_flags =~= s.without(more).transmission_flags);
                assert(self@ =~= s.without(more));
            }
            i = i + 1;
        }
        assert(unsent@.take(i as int) =~= unsent@);
        self.keep_flags();
    }

    /// Stops the time of expiry of publications that are gone.
    fn keep_expiring(&mut self)
        ensures
            final(self)@ == (StateModel {
                expiring: old(self)@.expiring.restrict(occupied(old(self)@.outgoing_pub)),
                ..old(self)@
            }),
    {
        broadcast use vstd::std_specs::hash::group_hash_axioms;

        let ghost s = self@;
        let ghost present = occupied(s.outgoing_pub);
        let keys = hashed_keys(&self.ledger.outgoing_expiry_started);
        let mut i: usize = 0;
        proof {
            assert(listed_before(keys@, 0).difference(present) =~= Set::<u16>::empty());
            assert(s.expiring.remove_keys(Set::empty()) =~= s.expiring);
        }
        while i < keys.len()
            invariant
                i <= keys@.len(),
                s == old(self)@,
                present == occupied(s.outgoing_pub),
                lists(keys@, s.expiring.dom()),
                self@ == (StateModel {
                    expiring: s.expiring.remove_keys(
                        listed_before(keys@, i as int).difference(present),
                    ),
                    ..s
                }),
            decreases keys@.len() - i,
        {
            let id: u16 = keys[i];
            proof {
                listed_grows(keys@, i as int);
            }
            let kept = (id as usize) < self.outgoing_pub.len()
                && self.outgoing_pub[id as usize].is_some();
            if !kept {
                self.ledger.outgoing_expiry_started.remove(&id);
            }
            proof {
                let gone = listed_before(keys@, i + 1).difference(present);
                assert(kept == present.contains(id));
                assert(self@.expiring =~= s.expiring.remove_keys(gone));
                assert(self@ =~= StateModel { expiring: self@.expiring, ..s });
            }
            i = i + 1;
        }
        proof {
            assert(keys@.take(i as int) =~= keys@);
            assert(self@.expiring =~= s.expiring.restrict(present));
        }
    }

    /// Begin recovery of the same verified broker session. Alias and quota
    /// negotiation is connection-local; QoS receive/replay state is not cleared.
    /// Publications whose flag tells that they never entered the writer are forgotten. Returns
    /// the identifiers of subscriptions, and of their removals, whose answers are lost.
    pub fn resume_session(&mut self) -> (r: Vec<u16>)
        requires
            old(self)@.wf(),
        ensures
            exists|unsent: Set<u16>|
                {
                    &&& old(self)@.tells_unsent(unsent)
                    &&& final(self)@ == #[trigger] old(self)@.resumed(unsent)
                },
            lists_both(r@, old(self)@.outgoing_sub.dom(), old(self)@.outgoing_unsub.dom()),
            final(self)@.wf(),
    {
        let unsent = self.unsent_publications();
        self.resume_session_without(&unsent)
    }

    /// Begin recovery of the same verified broker session without the publications `unsent`,
    /// which never entered the writer.
    pub fn resume_session_without(&mut self, unsent: &Vec<u16>) -> (r: Vec<u16>)
        requires
            old(self)@.wf(),
        ensures
            final(self)@ == old(self)@.resumed(unsent@.to_set()),
            lists_both(r@, old(self)@.outgoing_sub.dom(), old(self)@.outgoing_unsub.dom()),
            final(self)@.wf(),
    {
        broadcast use vstd::std_specs::hash::group_hash_axioms;

        let ghost s = self@;
        let ghost t = s.resumed(unsent@.to_set());
        proof {
            resumed_is_wf(s, unsent@.to_set());
        }
        self.discard_unsent_publications(unsent);
        self.keep_expiring();
        self.await_pingresp = false;
        self.collision_ping_count = 0;
        self.events.clear();
        self.ledger.topic_alises.clear();
        self.ledger.outgoing_aliases.clear();
        self.broker_topic_alias_max = 0;
        self.max_outgoing_inflight = self.ledger.max_outgoing_inflight_upper_limit;
        self.ledger.resume_sent.clear();
        proof {
            assert(self@.outgoing_pub == t.outgoing_pub);
            assert(self@.outgoing_rel == t.outgoing_rel);
        }
        let queue = self.retransmission_queue();
        self.ledger.resume_queue = queue;
        let interrupted = self.interrupted_requests();
        self.ledger.outgoing_sub.clear();
        self.ledger.outgoing_unsub.clear();
        assert(self@ =~= t);
        interrupted
    }

    /// The identifiers of releases and then of publications, ascending.
    fn retransmission_queue(&self) -> (r: VecDeque<u16>)
        requires
            self@.sized(),
            self@.outgoing_wf(),
        ensures
            r@ == numbers(positions(self@.outgoing_rel)) + numbers(
                positions(taken(self@.outgoing_pub)),
            ),
    {
        let mut queue: VecDeque<u16> = VecDeque::new();
        // PUBREL is not constrained by Receive Maximum.
        let released = ones(&self.outgoing_rel);
        proof {
            positions_are_set(self@.outgoing_rel);
        }
        let ghost front = numbers(released@);
        let mut i: usize = 0;
        while i < released.len()
            invariant
                i <= released@.len(),
                front == numbers(released@),
                forall|k: int| 0 <= k < released@.len() ==> (#[trigger] released@[k]) < 65536,
                queue@ == front.take(i as int),
            decreases released@.len() - i,
        {
            queue.push_back(released[i] as u16);
            i = i + 1;
            assert(queue@ =~= front.take(i as int));
        }
        assert(front.take(i as int) =~= front);
        let ghost marks = taken(self@.outgoing_pub);
        let mut k: usize = 0;
        assert(marks.take(0) =~= Seq::<bool>::empty());
        assert(queue@ =~= front + numbers(positions(marks.take(0))));
        while k < self.outgoing_pub.len()
            invariant
                k <= self.outgoing_pub@.len(),
                self@.sized(),
                self@.outgoing_wf(),
                marks == taken(self@.outgoing_pub),
                queue@ == front + numbers(positions(marks.take(k as int))),
            decreases self.outgoing_pub@.len() - k,
        {
            assert(marks.take(k + 1).drop_last() =~= marks.take(k as int));
            let ghost before = positions(marks.take(k as int));
            if let Some(p) = &self.outgoing_pub[k] {
                assert(self@.outgoing_pub[k as int] is Some);
                queue.push_back(p.pkid);
                assert(queue@ =~= front + numbers(before.push(k)));
            }
            k = k + 1;
        }
        assert(marks.take(k as int) =~= marks);
        queue
    }

    /// The identifiers of subscriptions that await an answer, then those of their removals.
    fn interrupted_requests(&self) -> (r: Vec<u16>)
        ensures
            lists_both(r@, self@.outgoing_sub.dom(), self@.outgoing_unsub.dom()),
    {
        let mut ids = hashed_keys(&self.ledger.outgoing_sub);
        let removed = hashed_keys(&self.ledger.outgoing_unsub);
        let ghost front = ids@;
        let mut i: usize = 0;
        assert(front + removed@.take(0) =~= front);
        while i < removed.len()
            invariant
                i <= removed@.len(),
                ids@ == front + removed@.take(i as int),
            decreases removed@.len() - i,
        {
            ids.push(removed[i]);
            i = i + 1;
            assert(ids@ =~= front + removed@.take(i as int));
        }
        proof {
            assert(self@.outgoing_sub.dom() =~= self.ledger.outgoing_sub@.dom());
            assert(ids@.take(front.len() as int) =~= front);
            assert(ids@.skip(front.len() as int) =~= removed@);
        }
        ids
    }

    /// Whether a packet can be sent again within the window of this connection.
    pub fn has_resumed_packet(&self) -> (r: bool)
        requires
            self@.wf(),
        ensures
            r == self@.has_resumed(),
    {
        if self.ledger.resume_queue.len() == 0 {
            return false;
        }
        let id: u16 = self.ledger.resume_queue[0];
        self.outgoing_rel.contains(id as usize) || count_ones(&self.ledger.resume_sent)
            < self.max_outgoing_inflight as usize
    }

    /// Sends the packet of an identifier again, `elapsed` seconds after it was accepted.
    pub fn resend(&mut self, id: u16, elapsed: u64) -> (r: Option<Packet>)
        requires
            old(self)@.wf(),
            id <= old(self)@.upper_limit,
        ensures
            packet_view(r) == old(self)@.resend(id, elapsed).0,
            final(self)@ == old(self)@.resend(id, elapsed).1,
            final(self)@.wf(),
    {
        broadcast use vstd::std_specs::hash::group_hash_axioms;

        let ghost s = self@;
        proof {
            resend_keeps_wf(s, id, elapsed);
        }
        if self.outgoing_rel.contains(id as usize) {
            return Some(Packet::PubRel(PubRel::new(id, None)));
        }
        let mut publish = match &self.outgoing_pub[id as usize] {
            Some(publish) => publish.clone(),
            None => return None,
        };
        let ghost p = publish@;
        if let Some(properties) = publish.properties {
            let mut properties = properties;
            properties.topic_alias = None;
            if let Some(expiry) = properties.message_expiry_interval {
                if elapsed >= expiry as u64 {
                    proof {
                        drop_keeps_wf(s, id);
                    }
                    self.drop_publication(id);
                    self.ledger.outgoing_expiry_started.remove(&id);
                    assert(self@.expiring =~= s.expiring.remove(id));
                    assert(self@ =~= s.resend(id, elapsed).1);
                    return None;
                }
                properties.message_expiry_interval = Some(expiry - elapsed as u32);
            }
            publish.properties = Some(properties);
        }
        publish.dup = true;
        assert(publish@ =~= StateModel::repeated(p, elapsed));
        self.ledger.resume_sent.insert(id as usize);
        assert(self@ =~= s.resend(id, elapsed).1);
        Some(Packet::Publish(publish))
    }

    /// Whether a publication that is not released can expire.
    fn can_expire(&self, id: u16) -> (r: bool)
        requires
            self@.sized(),
            id <= self@.upper_limit,
        ensures
            r == (!is_set(self@.outgoing_rel, id as int) && (self@.outgoing_pub[id as int] matches Some(
                p,
            ) && expiry_of(p) is Some)),
    {
        if self.outgoing_rel.contains(id as usize) {
            return false;
        }
        match &self.outgoing_pub[id as usize] {
            Some(publish) => expiry_interval(publish).is_some(),
            None => false,
        }
    }

    /// Emits at most one retransmission within this connection's negotiated
    /// Receive Maximum. Call after acknowledgements and while output has room.
    pub fn next_resumed_packet(&mut self) -> (r: Option<Packet>)
        requires
            old(self)@.wf(),
        ensures
            exists|told: Map<u16, u64>|
                {
                    &&& old(self)@.tells_elapsed(told)
                    &&& #[trigger] old(self)@.next_resumed(told) == Some(
                        (packet_view(r), final(self)@),
                    )
                },
            final(self)@.wf(),
    {
        broadcast use vstd::std_specs::hash::group_hash_axioms;

        let ghost s = self@;
        // What the clock told of publications that have expired
        let ghost mut told: Map<u16, u64> = Map::empty();
        while self.has_resumed_packet()
            invariant
                self@.wf(),
                s == old(self)@,
                s.tells_elapsed(told),
                extends(s.expiring, self@.expiring),
                forall|id: u16| #[trigger]
                    told.contains_key(id) ==> !self@.expiring.contains_key(id),
                forall|m: Map<u16, u64>|
                    extends(m, told) ==> #[trigger] s.next_resumed(m) == self@.next_resumed(m),
            decreases self@.resume_queue.len(),
        {
            let ghost before = self@;
            let id: u16 = self.ledger.resume_queue[0];
            self.ledger.resume_queue.pop_front();
            proof {
                assert(self@.resume_queue =~= before.resume_queue.skip(1));
                assert(self@ =~= before.unqueued());
                unqueued_is_wf(before);
            }
            let ghost mut after = told;
            let mut elapsed: u64 = 0;
            if self.can_expire(id) {
                if let Some(start) = self.ledger.outgoing_expiry_started.get(&id) {
                    elapsed = age(start);
                    proof {
                        after = told.insert(id, elapsed);
                    }
                }
            }
            let packet = self.resend(id, elapsed);
            proof {
                assert(before.ages(id) ==> after.contains_key(id) && after[id] == elapsed);
                assert(extends(after, told));
                assert forall|m: Map<u16, u64>| extends(m, after) implies #[trigger] s.next_resumed(
                    m,
                ) == (if packet is Some {
                    Some((packet_view(packet), self@))
                } else {
                    self@.next_resumed(m)
                }) by {
                    assert(extends(m, told)) by {
                        assert forall|k: u16| #[trigger] told.contains_key(k) implies m.contains_key(
                            k,
                        ) && m[k] == told[k] by {
                            assert(after.contains_key(k));
                        }
                    }
                    if before.ages(id) {
                        assert(m.contains_key(id) && m[id] == elapsed);
                    }
                }
            }
            if packet.is_some() {
                assert(s.next_resumed(after) == Some((packet_view(packet), self@)));
                return packet;
            }
            proof {
                told = after;
                assert(self@.expiring == before.expiring || self@.expiring
                    == before.expiring.remove(id));
                assert forall|k: u16| #[trigger] self@.expiring.contains_key(
                    k,
                ) implies s.expiring.contains_key(k) && s.expiring[k] == self@.expiring[k] by {
                    assert(before.expiring.contains_key(k));
                }
            }
        }
        assert(s.next_resumed(told) == self@.next_resumed(told));
        None
    }
}

/// Whether a table has all entries of another.
pub open spec fn extends<V>(m: Map<u16, V>, entries: Map<u16, V>) -> bool {
    forall|id: u16| #[trigger]
        entries.contains_key(id) ==> m.contains_key(id) && m[id] == entries[id]
}

/// What an optional packet holds.
pub open spec fn packet_view(p: Option<Packet>) -> Option<PacketModel> {
    match p {
        Some(p) => Some(p@),
        None => None,
    }
}

} // verus!
