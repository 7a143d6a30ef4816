//! The end of a session, and its resumption over a new connection.
use std::sync::Arc;
use std::sync::atomic::AtomicBool;
use vstd::prelude::*;

use crate::bitset::{count, count_update, ones, positions, positions_are_set};
use crate::event::{Request, RequestModel};
use crate::mqttbytes::v4::{Packet, PacketModel, PubRel, Publish, PublishModel};
use crate::tables::{listed_grows, lists, ordered_keys, read_as, transmitted};
use super::{slot_view, MqttState};
use super::model::{cleaned_is_wf, no_publications, numbers, resumed_is_wf, slots_without, somes};

verus! {

/// What requests hold.
pub open spec fn request_views(v: Seq<Request>) -> Seq<RequestModel> {
    Seq::new(v.len(), |i: int| v[i]@)
}

/// What packets hold.
pub open spec fn packet_views(v: Seq<Packet>) -> Seq<PacketModel> {
    Seq::new(v.len(), |i: int| v[i]@)
}

/// What slots hold.
pub open spec fn slot_views(v: Seq<Option<Publish>>) -> Seq<Option<PublishModel>> {
    Seq::new(v.len(), |i: int| slot_view(v[i]))
}

/// The slots from `start` on and around.
spec fn around(slots: Seq<Option<PublishModel>>, start: int) -> Seq<Option<PublishModel>> {
    slots.skip(start) + slots.take(start)
}

spec fn publish_requests(p: Seq<PublishModel>) -> Seq<RequestModel> {
    Seq::new(p.len(), |i: int| RequestModel::Publish(p[i]))
}

spec fn publish_packets(p: Seq<PublishModel>) -> Seq<PacketModel> {
    Seq::new(p.len(), |i: int| PacketModel::Publish(PublishModel { dup: true, ..p[i] }))
}

proof fn somes_step(s: Seq<Option<PublishModel>>, j: int)
    requires
        0 <= j < s.len(),
    ensures
        somes(s.take(j + 1)) == match s[j] {
            Some(p) => somes(s.take(j)).push(p),
            None => somes(s.take(j)),
        },
{
    assert(s.take(j + 1).drop_last() =~= s.take(j));
}

/// Takes the publications out of their slots, from `start` on and around.
fn drain(slots: &mut Vec<Option<Publish>>, start: usize) -> (r: Vec<Request>)
    requires
        start <= old(slots)@.len(),
        old(slots)@.len() <= 65536,
    ensures
        slot_views(final(slots)@) == no_publications(old(slots)@.len()),
        request_views(r@) == publish_requests(somes(around(slot_views(old(slots)@), start as int))),
{
    let ghost all = slot_views(slots@);
    let ghost turned = around(all, start as int);
    let n: usize = slots.len();
    let mut pending: Vec<Request> = Vec::with_capacity(100);
    let mut j: usize = 0;
    assert(turned.take(0) =~= Seq::<Option<PublishModel>>::empty());
    assert(request_views(pending@) =~= publish_requests(somes(turned.take(0))));
    while j < n
        invariant
            j <= n,
            n <= 65536,
            start <= n,
            slots@.len() == n,
            all.len() == n,
            turned == around(all, start as int),
            request_views(pending@) == publish_requests(somes(turned.take(j as int))),
            forall|i: int|
                0 <= i < n ==> slot_view(#[trigger] slots@[i]) == (if (i >= start && i < start + j)
                    || i + n < start + j {
                    None
                } else {
                    all[i]
                }),
        decreases n - j,
    {
        let i: usize = if start + j < n {
            start + j
        } else {
            start + j - n
        };
        proof {
            somes_step(turned, j as int);
            assert(turned[j as int] == all[i as int]);
        }
        let ghost before = request_views(pending@);
        if let Some(publish) = slots[i].take() {
            let ghost p = publish@;
            pending.push(Request::Publish(publish));
            assert(request_views(pending@) =~= before.push(RequestModel::Publish(p)));
            assert(publish_requests(somes(turned.take(j as int)).push(p)) =~= publish_requests(
                somes(turned.take(j as int)),
            ).push(RequestModel::Publish(p)));
        }
        j = j + 1;
    }
    assert(turned.take(j as int) =~= turned);
    assert(slot_views(slots@) =~= no_publications(n as nat));
    pending
}

/// The publications as packets that are sent again, from `start` on and around.
fn repeat_publications(slots: &Vec<Option<Publish>>, start: usize) -> (r: Vec<Packet>)
    requires
        start <= slots@.len(),
        slots@.len() <= 65536,
    ensures
        packet_views(r@) == publish_packets(somes(around(slot_views(slots@), start as int))),
{
    let ghost all = slot_views(slots@);
    let ghost turned = around(all, start as int);
    let n: usize = slots.len();
    let mut packets: Vec<Packet> = Vec::new();
    let mut j: usize = 0;
    assert(turned.take(0) =~= Seq::<Option<PublishModel>>::empty());
    assert(packet_views(packets@) =~= publish_packets(somes(turned.take(0))));
    while j < n
        invariant
            j <= n,
            n <= 65536,
            start <= n,
            slots@.len() == n,
            all == slot_views(slots@),
            turned == around(all, start as int),
            packet_views(packets@) == publish_packets(somes(turned.take(j as int))),
        decreases n - j,
    {
        let i: usize = if start + j < n {
            start + j
        } else {
            start + j - n
        };
        proof {
            somes_step(turned, j as int);
            assert(turned[j as int] == all[i as int]);
        }
        let ghost before = packet_views(packets@);
        if let Some(publish) = &slots[i] {
            let mut publish = publish.clone();
            let ghost p = publish@;
            publish.dup = true;
            packets.push(Packet::Publish(publish));
            let ghost m = PacketModel::Publish(PublishModel { dup: true, ..p });
            assert(packet_views(packets@) =~= before.push(m));
            assert(publish_packets(somes(turned.take(j as int)).push(p)) =~= publish_packets(
                somes(turned.take(j as int)),
            ).push(m));
        }
        j = j + 1;
    }
    assert(turned.take(j as int) =~= turned);
    packets
}

impl MqttState {
    /// Returns inflight outgoing packets and clears internal queues
    pub fn clean(&mut self) -> (r: Vec<Request>)
        requires
            old(self)@.last_puback < old(self)@.outgoing_pub.len() <= 65536,
            old(self)@.outgoing_rel.len() <= 65536,
        ensures
            request_views(r@) == old(self)@.pending_requests(),
            final(self)@ == old(self)@.cleaned(),
            old(self)@.wf() ==> final(self)@.wf(),
    {
        let ghost s = self@;
        proof {
            if s.wf() {
                cleaned_is_wf(s);
            }
            positions_are_set(s.outgoing_rel);
            assert(s.outgoing_pub =~= slot_views(self.outgoing_pub@));
        }
        self.ledger.transmission_flags.clear();
        let start: usize = self.last_puback as usize + 1;
        let mut pending = drain(&mut self.outgoing_pub, start);
        // remove and collect pending releases
        let released = ones(&self.outgoing_rel);
        let ghost front = request_views(pending@);
        let ghost releases = s.releases();
        let mut i: usize = 0;
        while i < released.len()
            invariant
                i <= released@.len(),
                releases == numbers(released@),
                forall|k: int| 0 <= k < released@.len() ==> (#[trigger] released@[k]) < 65536,
                request_views(pending@) == front + Seq::new(
                    i as nat,
                    |k: int| RequestModel::PubRel(PubRel { pkid: releases[k] }),
                ),
            decreases released@.len() - i,
        {
            let ghost before = request_views(pending@);
            pending.push(Request::PubRel(PubRel::new(released[i] as u16)));
            i = i + 1;
            proof {
                let m = RequestModel::PubRel(PubRel { pkid: releases[i - 1] });
                assert(request_views(pending@) =~= before.push(m));
                assert(request_views(pending@) =~= front + Seq::new(
                    i as nat,
                    |k: int| RequestModel::PubRel(PubRel { pkid: releases[k] }),
                ));
            }
        }
        self.outgoing_rel.clear();
        // remove packet ids of incoming qos2 publishes
        self.incoming_pub.clear();
        self.ledger.incoming_ack.clear();
        self.ledger.incoming_rec.clear();
        self.ledger.outgoing_sub.clear();
        self.ledger.outgoing_unsub.clear();
        self.await_pingresp = false;
        self.collision_ping_count = 0;
        self.inflight = 0;
        proof {
            assert(request_views(pending@) =~= s.pending_requests());
            assert(self@.outgoing_pub =~= slot_views(self.outgoing_pub@));
            assert(self@ =~= s.cleaned());
        }
        pending
    }

    /// Track whether a controlled writer may have transmitted a publication.
    /// A cancelled request that never entered the writer must not be replayed.
    pub fn track_publish_transmission(&mut self, id: u16, flag: Arc<AtomicBool>)
        ensures
            final(self)@ == old(self)@.flagged(id, flag),
            old(self)@.wf() ==> final(self)@.wf(),
    {
        broadcast use vstd::std_specs::btree::group_btree_axioms;

        let ghost s = self@;
        self.ledger.transmission_flags.insert(id, flag);
        proof {
            let t = s.flagged(id, flag);
            assert(self@ =~= t);
            if s.wf() {
                super::model::flags_keep_wf(s, t);
            }
        }
    }

    /// The tracked publications that have not entered the writer, as far as their flags tell.
    fn unsent_publications(&self) -> (r: Vec<u16>)
        ensures
            self@.tells_unsent(r@.to_set()),
            r@.no_duplicates(),
    {
        broadcast use vstd::std_specs::btree::group_btree_axioms;

        let ghost flags = self.ledger.transmission_flags@;
        let keys = ordered_keys(&self.ledger.transmission_flags);
        let mut unsent: Vec<u16> = Vec::new();
        let mut i: usize = 0;
        while i < keys.len()
            invariant
                i <= keys@.len(),
                flags == self.ledger.transmission_flags@,
                lists(keys@, flags.dom()),
                unsent@.no_duplicates(),
                forall|id: u16| #[trigger]
                    unsent@.contains(id) ==> keys@.take(i as int).contains(id) && read_as(
                        flags[id],
                        false,
                    ),
                forall|id: u16| #[trigger]
                    keys@.take(i as int).contains(id) && !unsent@.contains(id) ==> read_as(
                        flags[id],
                        true,
                    ),
            decreases keys@.len() - i,
        {
            let id: u16 = keys[i];
            let ghost before = unsent@;
            proof {
                assert(keys@.to_set().contains(id));
                listed_grows(keys@, i as int);
                assert(!keys@.take(i as int).to_set().contains(id));
                assert(!keys@.take(i as int).contains(id));
                assert(!before.contains(id));
            }
            if let Some(flag) = self.ledger.transmission_flags.get(&id) {
                if !transmitted(flag) {
                    unsent.push(id);
                }
            }
            proof {
                let seen = keys@.take(i as int);
                let more = keys@.take(i + 1);
                assert forall|x: u16| #[trigger] more.contains(x) <==> seen.contains(x) || x == id by {
                    assert(more.to_set().contains(x) <==> seen.to_set().insert(id).contains(x));
                }
                assert forall|x: u16| #[trigger] unsent@.contains(x) implies before.contains(x) || (x
                    == id && unsent@.len() > before.len()) by {
                    let j = unsent@.index_of(x);
                    if j < before.len() {
                        assert(before[j] == x);
                    }
                }
                assert forall|x: u16| #[trigger] before.contains(x) implies unsent@.contains(x) by {
                    let j = before.index_of(x);
                    assert(unsent@[j] == x);
                }
                if unsent@.len() > before.len() {
                    assert(unsent@[before.len() as int] == id);
                }
            }
            i = i + 1;
        }
        proof {
            assert(keys@.take(i as int) =~= keys@);
            assert forall|id: u16| #[trigger] flags.contains_key(id) implies read_as(
                flags[id],
                !unsent@.to_set().contains(id),
            ) by {
                assert(keys@.to_set().contains(id));
            }
            assert forall|id: u16| #[trigger] unsent@.to_set().contains(id) implies flags.contains_key(
                id,
            ) by {
                assert(keys@.to_set().contains(id));
            }
        }
        unsent
    }

    /// Forgets publications that have not entered the writer.
    fn discard_unsent_publications(&mut self, unsent: &Vec<u16>)
        requires
            old(self)@.wf(),
        ensures
            final(self)@ == old(self)@.discard(unsent@.to_set()),
    {
        broadcast use vstd::std_specs::btree::group_btree_axioms;

        let ghost s = self@;
        let ghost gone = unsent@.take(0).to_set();
        proof {
            assert(gone =~= Set::<u16>::empty());
            assert(slots_without(s.outgoing_pub, gone) =~= s.outgoing_pub);
            assert(s.without(gone) =~= s);
        }
        let mut i: usize = 0;
        while i < unsent.len()
            invariant
                i <= unsent@.len(),
                s == old(self)@,
                s.wf(),
                self@ == s.without(unsent@.take(i as int).to_set()),
                self@.inflight == count(self@.busy()),
            decreases unsent@.len() - i,
        {
            let id: u16 = unsent[i];
            let ghost before = self@;
            let ghost set = unsent@.take(i as int).to_set();
            let ghost more = unsent@.take(i + 1).to_set();
            proof {
                assert(unsent@.take(i + 1) =~= unsent@.take(i as int).push(id));
                assert forall|x: u16| more.contains(x) == set.insert(id).contains(x) by {
                    if set.contains(x) {
                        let j = unsent@.take(i as int).index_of(x);
                        assert(unsent@.take(i + 1)[j] == x);
                    }
                    if more.contains(x) && x != id {
                        let j = unsent@.take(i + 1).index_of(x);
                        assert(unsent@.take(i as int)[j] == x);
                    }
                    assert(unsent@.take(i + 1)[i as int] == id);
                }
                assert(more =~= set.insert(id));
            }
            if (id as usize) < self.outgoing_pub.len() {
                if self.outgoing_pub[id as usize].is_some() {
                    proof {
                        count_update(before.busy(), id as int, false);
                        assert(!s.outgoing_rel[id as int]) by {
                            assert(s.outgoing_pub[id as int] is Some);
                        }
                    }
                    self.outgoing_pub.set(id as usize, None);
                    self.inflight = self.inflight - 1;
                    assert(self@.busy() =~= before.busy().update(id as int, false));
                }
            }
            self.ledger.transmission_flags.remove(&id);
            proof {
                let left = slots_without(s.outgoing_pub, more);
                assert forall|j: int| 0 <= j < left.len() implies self@.outgoing_pub[j] == left[j] by {
                    assert(before.outgoing_pub[j] == slots_without(s.outgoing_pub, set)[j]);
                    assert(j as u16 == id <==> j == id);
                }
                assert(self@.outgoing_pub =~= left);
                assert(self@.transmission_flags =~= s.without(more).transmission_flags);
                assert(self@ =~= s.without(more));
            }
            i = i + 1;
        }
        assert(unsent@.take(i as int) =~= unsent@);
        self.keep_flags();
    }

    /// Resume the same broker session without losing QoS packet identities.
    /// The caller must verify CONNACK Session Present before invoking this.
    /// These are protocol retransmissions, not new application publications.
    /// SUBSCRIBE/UNSUBSCRIBE results interrupted by the old transport are unknown;
    /// their identifiers are returned and released without replaying operations.
    /// Publications whose flag tells that they never entered the writer are forgotten.
    pub fn resume_session(&mut self) -> (r: (Vec<Packet>, Vec<u16>))
        requires
            old(self)@.wf(),
        ensures
            exists|unsent: Set<u16>|
                {
                    &&& old(self)@.tells_unsent(unsent)
                    &&& final(self)@ == #[trigger] old(self)@.resumed(unsent)
                    &&& packet_views(r.0@) == old(self)@.resumed(unsent).retransmissions()
                },
            r.1@ == old(self)@.interrupted(),
            final(self)@.wf(),
    {
        let unsent = self.unsent_publications();
        self.resume_session_without(&unsent)
    }

    /// Resume the same broker session without the publications `unsent`, which never entered the
    /// writer.
    pub fn resume_session_without(&mut self, unsent: &Vec<u16>) -> (r: (Vec<Packet>, Vec<u16>))
        requires
            old(self)@.wf(),
        ensures
            final(self)@ == old(self)@.resumed(unsent@.to_set()),
            packet_views(r.0@) == old(self)@.resumed(unsent@.to_set()).retransmissions(),
            r.1@ == old(self)@.interrupted(),
            final(self)@.wf(),
    {
        let ghost s = self@;
        let ghost t = s.resumed(unsent@.to_set());
        proof {
            resumed_is_wf(s, unsent@.to_set());
        }
        self.discard_unsent_publications(unsent);
        self.await_pingresp = false;
        self.collision_ping_count = 0;
        self.events.clear();
        let interrupted = self.interrupted_requests();
        self.ledger.outgoing_sub.clear();
        self.ledger.outgoing_unsub.clear();
        proof {
            assert(self@ =~= t);
            assert(t.outgoing_pub =~= slot_views(self.outgoing_pub@));
            positions_are_set(t.outgoing_rel);
        }
        let mut packets = repeat_publications(&self.outgoing_pub, self.last_puback as usize + 1);
        let released = ones(&self.outgoing_rel);
        let ghost front = packet_views(packets@);
        let ghost releases = t.releases();
        let mut i: usize = 0;
        while i < released.len()
            invariant
                i <= released@.len(),
                releases == numbers(released@),
                forall|k: int| 0 <= k < released@.len() ==> (#[trigger] released@[k]) < 65536,
                packet_views(packets@) == front + Seq::new(
                    i as nat,
                    |k: int| PacketModel::PubRel(PubRel { pkid: releases[k] }),
                ),
            decreases released@.len() - i,
        {
            let ghost before = packet_views(packets@);
            packets.push(Packet::PubRel(PubRel::new(released[i] as u16)));
            i = i + 1;
            proof {
                let m = PacketModel::PubRel(PubRel { pkid: releases[i - 1] });
                assert(packet_views(packets@) =~= before.push(m));
                assert(packet_views(packets@) =~= front + Seq::new(
                    i as nat,
                    |k: int| PacketModel::PubRel(PubRel { pkid: releases[k] }),
                ));
            }
        }
        assert(packet_views(packets@) =~= t.retransmissions());
        (packets, interrupted)
    }

    /// The identifiers of subscriptions, and of their removals, that await an answer.
    fn interrupted_requests(&self) -> (r: Vec<u16>)
        requires
            self@.outgoing_pub.len() <= 65536,
            self@.outgoing_unsub.len() <= 65536,
        ensures
            r@ == self@.interrupted(),
    {
        broadcast use vstd::std_specs::btree::group_btree_axioms;

        let n: usize = self.outgoing_pub.len();
        let ghost marks = Seq::new(n as nat, |i: int| self@.outgoing_sub.contains_key(i as u16));
        let mut ids: Vec<u16> = Vec::new();
        let mut i: usize = 0;
        assert(marks.take(0) =~= Seq::<bool>::empty());
        assert(ids@ =~= numbers(positions(marks.take(0))));
        while i < n
            invariant
                i <= n <= 65536,
                marks == Seq::new(n as nat, |i: int| self@.outgoing_sub.contains_key(i as u16)),
                ids@ == numbers(positions(marks.take(i as int))),
            decreases n - i,
        {
            let id: u16 = i as u16;
            assert(marks.take(i + 1).drop_last() =~= marks.take(i as int));
            if self.ledger.outgoing_sub.contains_key(&id) {
                ids.push(id);
                assert(ids@ =~= numbers(positions(marks.take(i as int)).push(i)));
            }
            i = i + 1;
        }
        assert(marks.take(i as int) =~= marks);
        let removed = ones(&self.ledger.outgoing_unsub);
        proof {
            positions_are_set(self@.outgoing_unsub);
        }
        let ghost front = ids@;
        let ghost tail = numbers(removed@);
        let mut k: usize = 0;
        assert(front + tail.take(0) =~= front);
        while k < removed.len()
            invariant
                k <= removed@.len(),
                tail == numbers(removed@),
                forall|j: int| 0 <= j < removed@.len() ==> (#[trigger] removed@[j]) < 65536,
                ids@ == front + tail.take(k as int),
            decreases removed@.len() - k,
        {
            ids.push(removed[k] as u16);
            k = k + 1;
            assert(ids@ =~= front + tail.take(k as int));
        }
        assert(tail.take(k as int) =~= tail);
        ids
    }
}

} // verus!
