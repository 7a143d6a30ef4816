//! The state machine of MQTT 3.1.1 as a mathematical model, and its laws.
use std::sync::atomic::AtomicBool;
use std::sync::Arc;

use vstd::prelude::*;

use crate::bitset::{all_clear, count, is_set, positions};
use crate::event::{EventModel, Outgoing, RequestModel};
use crate::mqttbytes::{qos_number, QoS};
use crate::mqttbytes::v4::{
    PacketModel, PubAck, PubComp, PubRec, PubRel, PublishModel, SubAck, Subscribe,
    SubscribeReasonCode, Unsubscribe,
};
use crate::state::StateError;
use crate::tables::read_as;

verus! {

/// What a transition answers: a packet for the network, nothing, or a refusal.
pub type Outcome = Result<Option<PacketModel>, StateError>;

/// State of the mqtt connection.
#[verifier::ext_equal]
pub struct StateModel {
    /// Flags of the publications that a controlled writer handles
    pub transmission_flags: Map<u16, Arc<AtomicBool>>,
    pub await_pingresp: bool,
    pub collision_ping_count: usize,
    pub last_pkid: u16,
    pub last_puback: u16,
    pub inflight: u16,
    pub max_inflight: u16,
    pub outgoing_pub: Seq<Option<PublishModel>>,
    pub outgoing_rel: Seq<bool>,
    pub incoming_pub: Seq<bool>,
    pub incoming_ack: Seq<bool>,
    pub incoming_rec: Seq<bool>,
    pub outgoing_sub: Map<u16, Seq<QoS>>,
    pub outgoing_unsub: Seq<bool>,
    pub collision: Option<PublishModel>,
    pub events: Seq<EventModel>,
    pub manual_acks: bool,
}

/// The identifiers of slots that hold a publication.
pub open spec fn occupied(slots: Seq<Option<PublishModel>>) -> Set<u16> {
    Set::new(|id: u16| id < slots.len() && slots[id as int] is Some)
}

/// Whether an acknowledgement answers each filter of a subscription, with no higher quality of
/// service than was asked for.
pub open spec fn grants(requested: Seq<QoS>, codes: Seq<SubscribeReasonCode>) -> bool {
    &&& requested.len() == codes.len()
    &&& forall|i: int|
        0 <= i < codes.len() ==> (#[trigger] codes[i] matches SubscribeReasonCode::Success(qos)
            ==> qos_number(qos) <= qos_number(requested[i]))
}

/// The publications that are there, in order.
pub open spec fn somes(s: Seq<Option<PublishModel>>) -> Seq<PublishModel>
    decreases s.len(),
{
    if s.len() == 0 {
        Seq::empty()
    } else {
        match s.last() {
            Some(p) => somes(s.drop_last()).push(p),
            None => somes(s.drop_last()),
        }
    }
}

/// Identifiers as packet numbers.
pub open spec fn numbers(s: Seq<usize>) -> Seq<u16> {
    Seq::new(s.len(), |i: int| s[i] as u16)
}

/// The identifiers of subscriptions, ascending.
pub open spec fn subscribed(table: Map<u16, Seq<QoS>>, n: nat) -> Seq<u16> {
    numbers(positions(Seq::new(n, |i: int| table.contains_key(i as u16))))
}

/// No publications.
pub open spec fn no_publications(n: nat) -> Seq<Option<PublishModel>> {
    Seq::new(n, |i: int| None)
}

/// The slots that hold a publication or a release.
pub open spec fn busy_slots(publications: Seq<Option<PublishModel>>, releases: Seq<bool>) -> Seq<
    bool,
> {
    Seq::new(publications.len(), |i: int| publications[i] is Some || releases[i])
}

/// The slots without the publications `unsent`.
pub open spec fn slots_without(
    publications: Seq<Option<PublishModel>>,
    unsent: Set<u16>,
) -> Seq<Option<PublishModel>> {
    Seq::new(
        publications.len(),
        |i: int|
            if unsent.contains(i as u16) {
                None
            } else {
                publications[i]
            },
    )
}

impl StateModel {
    /// A new state.
    pub open spec fn initial(max_inflight: u16, manual_acks: bool) -> StateModel {
        let slots = (max_inflight + 1) as nat;
        StateModel {
            transmission_flags: Map::empty(),
            await_pingresp: false,
            collision_ping_count: 0,
            last_pkid: 0,
            last_puback: 0,
            inflight: 0,
            max_inflight,
            outgoing_pub: no_publications(slots),
            outgoing_rel: all_clear(slots),
            incoming_pub: all_clear(65536),
            incoming_ack: all_clear(65536),
            incoming_rec: all_clear(65536),
            outgoing_sub: Map::empty(),
            outgoing_unsub: all_clear(slots),
            collision: None,
            events: Seq::empty(),
            manual_acks,
        }
    }

    /// The identifiers of publications and releases that await an acknowledgement.
    pub open spec fn busy(self) -> Seq<bool> {
        busy_slots(self.outgoing_pub, self.outgoing_rel)
    }

    /// Whether an identifier belongs to a subscription or its removal.
    pub open spec fn subscribes(self, id: int) -> bool {
        self.outgoing_sub.contains_key(id as u16) || is_set(self.outgoing_unsub, id)
    }

    /// Whether an identifier can be given to a new request.
    pub open spec fn free(self, id: int) -> bool {
        &&& 0 < id <= self.max_inflight
        &&& self.outgoing_pub[id] is None
        &&& !self.outgoing_rel[id]
        &&& !self.outgoing_sub.contains_key(id as u16)
        &&& !self.outgoing_unsub[id]
    }

    /// The invariant. All requests share one name space of identifiers, each identifier belongs
    /// to one request at most, and the number of exchanges in flight is the number of
    /// publications and releases that await an acknowledgement.
    pub open spec fn wf(self) -> bool {
        &&& self.outgoing_pub.len() == self.max_inflight + 1
        &&& self.outgoing_rel.len() == self.max_inflight + 1
        &&& self.outgoing_unsub.len() == self.max_inflight + 1
        &&& self.incoming_pub.len() == 65536
        &&& self.incoming_ack.len() == 65536
        &&& self.incoming_rec.len() == 65536
        &&& self.max_inflight > 0 ==> self.last_pkid < self.max_inflight
        &&& self.max_inflight == 0 ==> self.last_pkid == 0
        &&& self.last_puback <= self.max_inflight
        &&& self.outgoing_pub[0] is None && !self.outgoing_rel[0] && !self.outgoing_unsub[0]
        &&& forall|i: int|
            #![trigger self.outgoing_pub[i]]
            #![trigger self.outgoing_rel[i]]
            0 <= i <= self.max_inflight ==> {
                &&& self.outgoing_pub[i] matches Some(p) ==> p.pkid == i && p.qos
                    != QoS::AtMostOnce && !self.outgoing_rel[i] && !self.subscribes(i)
                &&& self.outgoing_rel[i] ==> !self.subscribes(i)
            }
        &&& forall|id: u16| #[trigger]
            self.outgoing_sub.contains_key(id) ==> 0 < id <= self.max_inflight
                && !self.outgoing_unsub[id as int]
        &&& self.collision matches Some(p) ==> 0 < p.pkid <= self.max_inflight && p.qos
            != QoS::AtMostOnce
        &&& forall|i: int|
            0 <= i < 65536 ==> ((#[trigger] self.incoming_rec[i]) ==> self.incoming_pub[i])
        &&& forall|i: int|
            0 <= i < 65536 ==> ((#[trigger] self.incoming_ack[i]) ==> !self.incoming_pub[i])
        &&& !self.incoming_pub[0] && !self.incoming_ack[0] && !self.incoming_rec[0]
        &&& self.inflight == count(self.busy())
    }

    /// The state with one more event.
    pub open spec fn emit(self, o: Outgoing) -> StateModel {
        StateModel { events: self.events.push(EventModel::Outgoing(o)), ..self }
    }

    // Identifiers ------------------------------------------------------------------------

    /// The identifier that follows `k` others, from the last one on and around.
    pub open spec fn nth_id(self, k: int) -> int {
        let v = self.last_pkid + k + 1;
        if v <= self.max_inflight {
            v
        } else {
            v - self.max_inflight
        }
    }

    /// The first of the identifiers that follow `k` others which is free.
    pub open spec fn find_from(self, k: int) -> Option<u16>
        decreases self.max_inflight - k,
    {
        if k >= self.max_inflight {
            None
        } else if self.free(self.nth_id(k)) {
            Some(self.nth_id(k) as u16)
        } else {
            self.find_from(k + 1)
        }
    }

    /// The next free identifier; `None` where all are in use.
    pub open spec fn find_id(self) -> Option<u16> {
        self.find_from(0)
    }

    /// The identifier that was given out last after `k` more.
    pub open spec fn last_after(self, k: int) -> u16 {
        if self.last_pkid + k < self.max_inflight {
            (self.last_pkid + k) as u16
        } else {
            (self.last_pkid + k - self.max_inflight) as u16
        }
    }

    /// The state after the identifier `id` was given out. Identifiers start over at the end.
    pub open spec fn advance(self, id: u16) -> StateModel {
        StateModel {
            last_pkid: if id == self.max_inflight {
                0
            } else {
                id
            },
            ..self
        }
    }

    /// A search for an identifier.
    pub open spec fn next_available(self) -> (Result<u16, StateError>, StateModel) {
        match self.find_id() {
            Some(id) => (Ok(id), self.advance(id)),
            None => (Err(StateError::InvalidState), self),
        }
    }

    // Requests ---------------------------------------------------------------------------

    /// Keeps a publication until it is acknowledged.
    pub open spec fn store(self, p: PublishModel) -> StateModel {
        StateModel {
            outgoing_pub: self.outgoing_pub.update(p.pkid as int, Some(p)),
            inflight: (self.inflight + 1) as u16,
            ..self
        }
    }

    /// A request to publish. Above the lowest quality of service the publication gets a free
    /// identifier, or brings its own; one whose identifier still awaits an acknowledgement waits.
    pub open spec fn publish(self, p: PublishModel) -> (Outcome, StateModel) {
        if p.qos == QoS::AtMostOnce {
            (Ok(Some(PacketModel::Publish(p))), self.emit(Outgoing::Publish(p.pkid)))
        } else if p.pkid == 0 {
            match self.find_id() {
                Some(id) => {
                    let p = PublishModel { pkid: id, ..p };
                    (
                        Ok(Some(PacketModel::Publish(p))),
                        self.advance(id).store(p).emit(Outgoing::Publish(id)),
                    )
                },
                None => (Err(StateError::InvalidState), self),
            }
        } else if is_set(self.outgoing_rel, p.pkid as int) || self.subscribes(p.pkid as int) {
            (Err(StateError::InvalidState), self)
        } else if p.pkid > self.max_inflight {
            (Err(StateError::Unsolicited(p.pkid)), self)
        } else if self.outgoing_pub[p.pkid as int] is Some {
            (
                Ok(None),
                StateModel { collision: Some(p), ..self }.emit(Outgoing::AwaitAck(p.pkid)),
            )
        } else {
            (
                Ok(Some(PacketModel::Publish(p))),
                self.store(p).emit(Outgoing::Publish(p.pkid)),
            )
        }
    }

    /// Marks a release. One that is marked already is not counted again.
    pub open spec fn release(self, id: u16) -> StateModel {
        if self.outgoing_rel[id as int] {
            self
        } else {
            StateModel {
                outgoing_rel: self.outgoing_rel.update(id as int, true),
                inflight: (self.inflight + 1) as u16,
                ..self
            }
        }
    }

    /// A request to release a publication; identifier 0 asks for a free one.
    pub open spec fn pubrel(self, id: u16) -> (Outcome, StateModel) {
        if id == 0 {
            match self.find_id() {
                Some(id) => (
                    Ok(Some(PacketModel::PubRel(PubRel { pkid: id }))),
                    self.advance(id).release(id).emit(Outgoing::PubRel(id)),
                ),
                None => (Err(StateError::InvalidState), self),
            }
        } else if id > self.max_inflight || self.outgoing_pub[id as int] is Some
            || self.subscribes(id as int) {
            (Err(StateError::InvalidState), self)
        } else {
            (
                Ok(Some(PacketModel::PubRel(PubRel { pkid: id }))),
                self.release(id).emit(Outgoing::PubRel(id)),
            )
        }
    }

    /// A request to subscribe. What was asked for is kept until the answer comes.
    pub open spec fn subscribe(self, p: Subscribe) -> (Outcome, StateModel) {
        if p.filters@.len() == 0 {
            (Err(StateError::EmptySubscription), self)
        } else {
            match self.find_id() {
                Some(id) => (
                    Ok(Some(PacketModel::Subscribe(Subscribe { pkid: id, ..p }))),
                    StateModel {
                        outgoing_sub: self.outgoing_sub.insert(
                            id,
                            Seq::new(p.filters@.len(), |i: int| p.filters@[i].qos),
                        ),
                        ..self.advance(id)
                    }.emit(Outgoing::Subscribe(id)),
                ),
                None => (Err(StateError::InvalidState), self),
            }
        }
    }

    /// A request to unsubscribe.
    pub open spec fn unsubscribe(self, p: Unsubscribe) -> (Outcome, StateModel) {
        if p.topics@.len() == 0 {
            (Err(StateError::EmptySubscription), self)
        } else {
            match self.find_id() {
                Some(id) => (
                    Ok(Some(PacketModel::Unsubscribe(Unsubscribe { pkid: id, ..p }))),
                    StateModel {
                        outgoing_unsub: self.outgoing_unsub.update(id as int, true),
                        ..self.advance(id)
                    }.emit(Outgoing::Unsubscribe(id)),
                ),
                None => (Err(StateError::InvalidState), self),
            }
        }
    }

    /// A request to ping. One that was not answered is an error; so is the second one while a
    /// publication waits for an identifier.
    pub open spec fn ping(self) -> (Outcome, StateModel) {
        let s = if self.collision is Some {
            StateModel { collision_ping_count: (self.collision_ping_count + 1) as usize, ..self }
        } else {
            self
        };
        if self.collision is Some && s.collision_ping_count >= 2 {
            (Err(StateError::CollisionTimeout), s)
        } else if self.await_pingresp {
            (Err(StateError::AwaitPingResp), s)
        } else {
            (
                Ok(Some(PacketModel::PingReq)),
                StateModel { await_pingresp: true, ..s }.emit(Outgoing::PingReq),
            )
        }
    }

    pub open spec fn disconnect(self) -> (Outcome, StateModel) {
        (Ok(Some(PacketModel::Disconnect)), self.emit(Outgoing::Disconnect))
    }

    /// An acknowledgement of an incoming publication of the middle quality of service.
    pub open spec fn puback(self, id: u16) -> (Outcome, StateModel) {
        if !self.incoming_ack[id as int] {
            (Err(StateError::Unsolicited(id)), self)
        } else {
            (
                Ok(Some(PacketModel::PubAck(PubAck { pkid: id }))),
                StateModel {
                    incoming_ack: self.incoming_ack.update(id as int, false),
                    ..self
                }.emit(Outgoing::PubAck(id)),
            )
        }
    }

    /// An acknowledgement of an incoming publication of the highest quality of service.
    pub open spec fn pubrec(self, id: u16) -> (Outcome, StateModel) {
        if !self.incoming_pub[id as int] {
            (Err(StateError::Unsolicited(id)), self)
        } else {
            (
                Ok(Some(PacketModel::PubRec(PubRec { pkid: id }))),
                StateModel {
                    incoming_rec: self.incoming_rec.update(id as int, false),
                    ..self
                }.emit(Outgoing::PubRec(id)),
            )
        }
    }

    /// A request of the client.
    pub open spec fn outgoing(self, request: RequestModel) -> (Outcome, StateModel) {
        match request {
            RequestModel::Publish(p) => self.publish(p),
            RequestModel::PubRel(p) => self.pubrel(p.pkid),
            RequestModel::Subscribe(p) => self.subscribe(p),
            RequestModel::Unsubscribe(p) => self.unsubscribe(p),
            RequestModel::PingReq => self.ping(),
            RequestModel::Disconnect => self.disconnect(),
            RequestModel::PubAck(p) => self.puback(p.pkid),
            RequestModel::PubRec(p) => self.pubrec(p.pkid),
            _ => (Err(StateError::WrongPacket), self),
        }
    }

    /// The acknowledgement that an application owes for an incoming publication.
    pub open spec fn acknowledgement(self, id: u16) -> Result<RequestModel, StateError> {
        if !self.manual_acks {
            Err(StateError::InvalidState)
        } else if self.incoming_ack[id as int] {
            Ok(RequestModel::PubAck(PubAck { pkid: id }))
        } else if self.incoming_rec[id as int] {
            Ok(RequestModel::PubRec(PubRec { pkid: id }))
        } else {
            Err(StateError::Unsolicited(id))
        }
    }

    // Incoming packets -------------------------------------------------------------------

    pub open spec fn on_pingresp(self) -> (Outcome, StateModel) {
        if !self.await_pingresp {
            (Err(StateError::WrongPacket), self)
        } else {
            (Ok(None), StateModel { await_pingresp: false, ..self })
        }
    }

    /// The answer to a subscription is held against what was asked for before it is released.
    pub open spec fn on_suback(self, ack: SubAck) -> (Outcome, StateModel) {
        if !self.outgoing_sub.contains_key(ack.pkid) {
            (Err(StateError::Unsolicited(ack.pkid)), self)
        } else if !grants(self.outgoing_sub[ack.pkid], ack.return_codes@) {
            (Err(StateError::WrongPacket), self)
        } else {
            (Ok(None), StateModel { outgoing_sub: self.outgoing_sub.remove(ack.pkid), ..self })
        }
    }

    pub open spec fn on_unsuback(self, id: u16) -> (Outcome, StateModel) {
        if !is_set(self.outgoing_unsub, id as int) {
            (Err(StateError::Unsolicited(id)), self)
        } else {
            (
                Ok(None),
                StateModel {
                    outgoing_unsub: self.outgoing_unsub.update(id as int, false),
                    ..self
                },
            )
        }
    }

    /// An incoming publication. Its identifier is kept until it is acknowledged; a repeated one
    /// must be marked as such, and is acknowledged again once the application allowed it.
    pub open spec fn on_publish(self, p: PublishModel) -> (Outcome, StateModel) {
        let id = p.pkid as int;
        if p.qos == QoS::AtMostOnce {
            (Ok(None), self)
        } else if id == 0 {
            (Err(StateError::WrongPacket), self)
        } else if p.qos == QoS::AtLeastOnce {
            if self.incoming_pub[id] || (self.incoming_ack[id] && !p.dup) {
                (Err(StateError::WrongPacket), self)
            } else {
                let s = StateModel { incoming_ack: self.incoming_ack.update(id, true), ..self };
                if self.manual_acks {
                    (Ok(None), s)
                } else {
                    s.puback(p.pkid)
                }
            }
        } else if self.incoming_ack[id] {
            (Err(StateError::WrongPacket), self)
        } else if self.incoming_pub[id] {
            if !p.dup {
                (Err(StateError::WrongPacket), self)
            } else if self.incoming_rec[id] {
                (Ok(None), self)
            } else {
                self.pubrec(p.pkid)
            }
        } else {
            let s = StateModel {
                incoming_pub: self.incoming_pub.update(id, true),
                incoming_rec: self.incoming_rec.update(id, true),
                ..self
            };
            if self.manual_acks {
                (Ok(None), s)
            } else {
                s.pubrec(p.pkid)
            }
        }
    }

    /// Whether a publication waits for the identifier.
    pub open spec fn collides(self, id: u16) -> bool {
        self.collision matches Some(p) && p.pkid == id
    }

    /// Hands out the publication that waited for an identifier.
    pub open spec fn resolve(self) -> StateModel {
        StateModel { collision: None, collision_ping_count: 0, ..self }.emit(
            Outgoing::Publish(self.collision->0.pkid),
        )
    }

    /// Whether a publication of the given quality of service awaits an acknowledgement.
    pub open spec fn awaits(self, id: u16, qos: QoS) -> bool {
        id <= self.max_inflight && (self.outgoing_pub[id as int] matches Some(p) && p.qos == qos)
    }

    pub open spec fn on_puback(self, id: u16) -> (Outcome, StateModel) {
        if !self.awaits(id, QoS::AtLeastOnce) {
            (Err(StateError::Unsolicited(id)), self)
        } else {
            let s = StateModel {
                last_puback: id,
                outgoing_pub: self.outgoing_pub.update(id as int, None),
                inflight: (self.inflight - 1) as u16,
                ..self
            };
            if self.collides(id) {
                let p = self.collision->0;
                (Ok(Some(PacketModel::Publish(p))), s.store(p).resolve())
            } else {
                (Ok(None), s)
            }
        }
    }

    /// A receipt moves a publication to its release; a repeated one repeats the release.
    pub open spec fn on_pubrec(self, id: u16) -> (Outcome, StateModel) {
        let rel = Ok(Some(PacketModel::PubRel(PubRel { pkid: id })));
        if is_set(self.outgoing_rel, id as int) {
            (rel, self.emit(Outgoing::PubRel(id)))
        } else if !self.awaits(id, QoS::ExactlyOnce) {
            (Err(StateError::Unsolicited(id)), self)
        } else {
            (
                rel,
                StateModel {
                    outgoing_pub: self.outgoing_pub.update(id as int, None),
                    outgoing_rel: self.outgoing_rel.update(id as int, true),
                    ..self
                }.emit(Outgoing::PubRel(id)),
            )
        }
    }

    /// A release ends an exchange; one that has ended already is confirmed again. A release that
    /// comes before the receipt was allowed is refused.
    pub open spec fn on_pubrel(self, id: u16) -> (Outcome, StateModel) {
        if id == 0 || self.incoming_ack[id as int] || self.incoming_rec[id as int] {
            (Err(StateError::Unsolicited(id)), self)
        } else {
            (
                Ok(Some(PacketModel::PubComp(PubComp { pkid: id }))),
                StateModel {
                    incoming_pub: self.incoming_pub.update(id as int, false),
                    ..self
                }.emit(Outgoing::PubComp(id)),
            )
        }
    }

    /// A confirmation ends an exchange. A publication that waited for its identifier is handed out
    /// and kept until it is acknowledged.
    pub open spec fn on_pubcomp(self, id: u16) -> (Outcome, StateModel) {
        if !is_set(self.outgoing_rel, id as int) {
            (Err(StateError::Unsolicited(id)), self)
        } else {
            let s = StateModel {
                outgoing_rel: self.outgoing_rel.update(id as int, false),
                inflight: (self.inflight - 1) as u16,
                ..self
            };
            if self.collides(id) {
                let p = self.collision->0;
                (Ok(Some(PacketModel::Publish(p))), s.store(p).resolve())
            } else {
                (Ok(None), s)
            }
        }
    }

    /// What a packet does to the exchanges.
    pub open spec fn on_packet(self, packet: PacketModel) -> (Outcome, StateModel) {
        match packet {
            PacketModel::PingResp => self.on_pingresp(),
            PacketModel::Publish(p) => self.on_publish(p),
            PacketModel::SubAck(p) => self.on_suback(p),
            PacketModel::UnsubAck(p) => self.on_unsuback(p.pkid),
            PacketModel::PubAck(p) => self.on_puback(p.pkid),
            PacketModel::PubRec(p) => self.on_pubrec(p.pkid),
            PacketModel::PubRel(p) => self.on_pubrel(p.pkid),
            PacketModel::PubComp(p) => self.on_pubcomp(p.pkid),
            _ => (Err(StateError::WrongPacket), self),
        }
    }

    /// Whether a packet repeats a publication that was delivered before.
    pub open spec fn repeats(self, packet: PacketModel) -> bool {
        packet matches PacketModel::Publish(p) && p.qos == QoS::ExactlyOnce
            && self.incoming_pub[p.pkid as int]
    }

    /// The flags of publications that are still there.
    pub open spec fn keep_flags(self) -> StateModel {
        StateModel {
            transmission_flags: self.transmission_flags.restrict(occupied(self.outgoing_pub)),
            ..self
        }
    }

    /// A packet from the network. It is reported in front of what it gives rise to, unless it
    /// repeats a publication.
    pub open spec fn incoming(self, packet: PacketModel) -> (Outcome, StateModel) {
        let (outcome, s) = self.on_packet(packet);
        if outcome is Err {
            (outcome, s)
        } else {
            let t = if self.repeats(packet) {
                s
            } else {
                StateModel {
                    events: s.events.insert(
                        self.events.len() as int,
                        EventModel::Incoming(packet),
                    ),
                    ..s
                }
            };
            (outcome, t.keep_flags())
        }
    }

    // Sessions ---------------------------------------------------------------------------

    /// The publications in the order in which they are sent again: from behind the last one that
    /// was acknowledged, and around.
    pub open spec fn publications(self) -> Seq<PublishModel> {
        let k = self.last_puback + 1;
        somes(self.outgoing_pub.skip(k) + self.outgoing_pub.take(k))
    }

    /// The releases, ascending.
    pub open spec fn releases(self) -> Seq<u16> {
        numbers(positions(self.outgoing_rel))
    }

    /// The requests that were in flight.
    pub open spec fn pending_requests(self) -> Seq<RequestModel> {
        let p = self.publications();
        let r = self.releases();
        Seq::new(p.len(), |i: int| RequestModel::Publish(p[i])) + Seq::new(
            r.len(),
            |i: int| RequestModel::PubRel(PubRel { pkid: r[i] }),
        )
    }

    /// The state without any exchange.
    pub open spec fn cleaned(self) -> StateModel {
        StateModel {
            transmission_flags: Map::empty(),
            outgoing_pub: no_publications(self.outgoing_pub.len()),
            outgoing_rel: all_clear(self.outgoing_rel.len()),
            incoming_pub: all_clear(self.incoming_pub.len()),
            incoming_ack: all_clear(self.incoming_ack.len()),
            incoming_rec: all_clear(self.incoming_rec.len()),
            outgoing_sub: Map::empty(),
            outgoing_unsub: all_clear(self.outgoing_unsub.len()),
            await_pingresp: false,
            collision_ping_count: 0,
            inflight: 0,
            ..self
        }
    }

    /// The state with a flag that tells whether a controlled writer may have transmitted the
    /// publication of an identifier.
    pub open spec fn flagged(self, id: u16, flag: Arc<AtomicBool>) -> StateModel {
        StateModel { transmission_flags: self.transmission_flags.insert(id, flag), ..self }
    }

    /// Whether readings of the flags tell that, of the tracked publications, those of `unsent`
    /// have not entered the writer and all others may have.
    pub open spec fn tells_unsent(self, unsent: Set<u16>) -> bool {
        &&& unsent.subset_of(self.transmission_flags.dom())
        &&& forall|id: u16| #[trigger]
            self.transmission_flags.contains_key(id) ==> read_as(
                self.transmission_flags[id],
                !unsent.contains(id),
            )
    }

    /// The state without the publications `unsent` and their flags.
    pub open spec fn without(self, unsent: Set<u16>) -> StateModel {
        let publications = slots_without(self.outgoing_pub, unsent);
        StateModel {
            outgoing_pub: publications,
            inflight: count(busy_slots(publications, self.outgoing_rel)) as u16,
            transmission_flags: self.transmission_flags.remove_keys(unsent),
            ..self
        }
    }

    /// The state without the publications `unsent`, which never reached the writer.
    pub open spec fn discard(self, unsent: Set<u16>) -> StateModel {
        self.without(unsent).keep_flags()
    }

    /// The state at the start of a new connection of the same session.
    pub open spec fn resumed(self, unsent: Set<u16>) -> StateModel {
        StateModel {
            await_pingresp: false,
            collision_ping_count: 0,
            events: Seq::empty(),
            outgoing_sub: Map::empty(),
            outgoing_unsub: all_clear(self.outgoing_unsub.len()),
            ..self.discard(unsent)
        }
    }

    /// The packets that are sent again: the publications, marked as repeated, and the releases.
    pub open spec fn retransmissions(self) -> Seq<PacketModel> {
        let p = self.publications();
        let r = self.releases();
        Seq::new(
            p.len(),
            |i: int| PacketModel::Publish(PublishModel { dup: true, ..p[i] }),
        ) + Seq::new(r.len(), |i: int| PacketModel::PubRel(PubRel { pkid: r[i] }))
    }

    /// The identifiers of subscriptions, and of their removals, whose answers are lost.
    pub open spec fn interrupted(self) -> Seq<u16> {
        subscribed(self.outgoing_sub, self.outgoing_pub.len()) + numbers(
            positions(self.outgoing_unsub),
        )
    }

    /// Whether acknowledgements for outgoing requests remain outstanding.
    pub open spec fn pending(self) -> bool {
        self.inflight != 0 || !self.outgoing_sub.is_empty() || count(self.outgoing_unsub) != 0
    }

    /// The number of incoming exchanges.
    pub open spec fn incoming_inflight(self) -> nat {
        count(self.incoming_ack) + count(self.incoming_pub)
    }
}

// Laws ---------------------------------------------------------------------------------------

/// A search finds a free identifier, and finds one where there is any.
pub proof fn found_id_is_free(s: StateModel)
    requires
        s.wf(),
    ensures
        s.find_id() matches Some(id) ==> s.free(id as int),
        s.find_id() is None ==> forall|id: int| !(#[trigger] s.free(id)),
{
    found_from_is_free(s, 0);
    if s.find_id() is None {
        assert forall|id: int| !(#[trigger] s.free(id)) by {
            if 0 < id <= s.max_inflight {
                let k = if id > s.last_pkid {
                    id - s.last_pkid - 1
                } else {
                    id + s.max_inflight - s.last_pkid - 1
                };
                assert(s.nth_id(k) == id);
            }
        }
    }
}

pub proof fn found_from_is_free(s: StateModel, k: int)
    requires
        s.wf(),
        0 <= k <= s.max_inflight,
    ensures
        s.find_from(k) matches Some(id) ==> s.free(id as int) && 0 < id <= s.max_inflight,
        s.find_from(k) is None ==> forall|j: int|
            k <= j < s.max_inflight ==> !s.free(#[trigger] s.nth_id(j)),
    decreases s.max_inflight - k,
{
    if k < s.max_inflight && !s.free(s.nth_id(k)) {
        found_from_is_free(s, k + 1);
        if s.find_from(k) is None {
            assert forall|j: int| k <= j < s.max_inflight implies !s.free(
                #[trigger] s.nth_id(j),
            ) by {
                if j > k {
                    assert(k + 1 <= j);
                }
            }
        }
    }
}

/// A new state is well formed.
pub proof fn initial_is_wf(max_inflight: u16, manual_acks: bool)
    ensures
        StateModel::initial(max_inflight, manual_acks).wf(),
{
    let s = StateModel::initial(max_inflight, manual_acks);
    crate::bitset::count_clear(s.busy());
}

proof fn advance_keeps_wf(s: StateModel, id: u16)
    requires
        s.wf(),
        0 < id <= s.max_inflight,
    ensures
        s.advance(id).wf(),
{
    let t = s.advance(id);
    assert(t.busy() =~= s.busy());
    assert forall|i: int| #![trigger t.outgoing_pub[i]] #![trigger t.outgoing_rel[i]] 0 <= i
        <= t.max_inflight implies {
        &&& t.outgoing_pub[i] matches Some(p) ==> p.pkid == i && p.qos != QoS::AtMostOnce
            && !t.outgoing_rel[i] && !t.subscribes(i)
        &&& t.outgoing_rel[i] ==> !t.subscribes(i)
    } by {
        assert(s.outgoing_pub[i] == t.outgoing_pub[i]);
        assert(t.subscribes(i) == s.subscribes(i));
    }
}

/// A slot that is free leaves room for one more exchange.
pub proof fn room_for_one(s: StateModel, i: int)
    requires
        s.wf(),
        0 < i <= s.max_inflight,
        s.outgoing_pub[i] is None,
        !s.outgoing_rel[i],
    ensures
        s.inflight < s.max_inflight,
{
    crate::bitset::count_room2(s.busy(), 0, i);
}

/// A slot that is taken is counted.
pub proof fn taken_is_counted(s: StateModel, i: int)
    requires
        s.wf(),
        0 <= i <= s.max_inflight,
        s.outgoing_pub[i] is Some || s.outgoing_rel[i],
    ensures
        s.inflight > 0,
{
    crate::bitset::count_update(s.busy(), i, false);
}

proof fn store_keeps_wf(s: StateModel, p: PublishModel)
    requires
        s.wf(),
        s.free(p.pkid as int),
        p.qos != QoS::AtMostOnce,
    ensures
        s.store(p).wf(),
{
    let i = p.pkid as int;
    let t = s.store(p);
    room_for_one(s, i);
    crate::bitset::count_update(s.busy(), i, true);
    assert(t.busy() =~= s.busy().update(i, true));
    slots_keep(s, t, i);
}

/// The slots stay well formed where they are those of `s` but for one that is free of
/// subscriptions.
proof fn slots_keep(s: StateModel, t: StateModel, i: int)
    requires
        s.wf(),
        0 <= i <= s.max_inflight,
        t.max_inflight == s.max_inflight,
        t.outgoing_sub == s.outgoing_sub,
        t.outgoing_unsub == s.outgoing_unsub,
        t.outgoing_pub.len() == s.outgoing_pub.len(),
        t.outgoing_rel.len() == s.outgoing_rel.len(),
        forall|j: int|
            0 <= j <= s.max_inflight && j != i ==> t.outgoing_pub[j] == s.outgoing_pub[j]
                && t.outgoing_rel[j] == s.outgoing_rel[j],
        t.outgoing_pub[i] matches Some(p) ==> p.pkid == i && p.qos != QoS::AtMostOnce
            && !t.outgoing_rel[i] && !s.subscribes(i),
        t.outgoing_rel[i] ==> !s.subscribes(i),
    ensures
        forall|j: int|
            #![trigger t.outgoing_pub[j]]
            #![trigger t.outgoing_rel[j]]
            0 <= j <= t.max_inflight ==> {
                &&& t.outgoing_pub[j] matches Some(p) ==> p.pkid == j && p.qos
                    != QoS::AtMostOnce && !t.outgoing_rel[j] && !t.subscribes(j)
                &&& t.outgoing_rel[j] ==> !t.subscribes(j)
            },
{
    assert forall|j: int| #![trigger t.outgoing_pub[j]] #![trigger t.outgoing_rel[j]] 0 <= j
        <= t.max_inflight implies {
        &&& t.outgoing_pub[j] matches Some(p) ==> p.pkid == j && p.qos != QoS::AtMostOnce
            && !t.outgoing_rel[j] && !t.subscribes(j)
        &&& t.outgoing_rel[j] ==> !t.subscribes(j)
    } by {
        assert(t.subscribes(j) == s.subscribes(j));
        if j != i {
            assert(t.outgoing_pub[j] == s.outgoing_pub[j]);
            assert(t.outgoing_rel[j] == s.outgoing_rel[j]);
        }
    }
}

proof fn release_keeps_wf(s: StateModel, id: u16)
    requires
        s.wf(),
        0 < id <= s.max_inflight,
        s.outgoing_pub[id as int] is None,
        !s.subscribes(id as int),
    ensures
        s.release(id).wf(),
{
    let i = id as int;
    let t = s.release(id);
    if !s.outgoing_rel[i] {
        room_for_one(s, i);
        crate::bitset::count_update(s.busy(), i, true);
        assert(t.busy() =~= s.busy().update(i, true));
        slots_keep(s, t, i);
    }
}

/// A change that does not touch outgoing requests keeps them well formed.
proof fn others_keep_wf(s: StateModel, t: StateModel)
    requires
        s.wf(),
        t == (StateModel {
            transmission_flags: t.transmission_flags,
            await_pingresp: t.await_pingresp,
            collision_ping_count: t.collision_ping_count,
            collision: t.collision,
            events: t.events,
            incoming_pub: t.incoming_pub,
            incoming_ack: t.incoming_ack,
            incoming_rec: t.incoming_rec,
            last_puback: t.last_puback,
            ..s
        }),
        t.last_puback <= t.max_inflight,
        t.incoming_pub.len() == 65536,
        t.incoming_ack.len() == 65536,
        t.incoming_rec.len() == 65536,
        t.collision matches Some(p) ==> 0 < p.pkid <= t.max_inflight && p.qos != QoS::AtMostOnce,
        forall|i: int|
            0 <= i < 65536 ==> ((#[trigger] t.incoming_rec[i]) ==> t.incoming_pub[i]),
        forall|i: int|
            0 <= i < 65536 ==> ((#[trigger] t.incoming_ack[i]) ==> !t.incoming_pub[i]),
        !t.incoming_pub[0] && !t.incoming_ack[0] && !t.incoming_rec[0],
    ensures
        t.wf(),
{
    assert(t.busy() =~= s.busy());
    slots_keep(s, t, 0);
}

/// A request of the client keeps the state well formed.
pub proof fn outgoing_keeps_wf(s: StateModel, request: RequestModel)
    requires
        s.wf(),
    ensures
        s.outgoing(request).1.wf(),
{
    found_from_is_free(s, 0);
    match request {
        RequestModel::Publish(p) => publish_keeps_wf(s, p),
        RequestModel::PubRel(p) => pubrel_keeps_wf(s, p.pkid),
        RequestModel::Subscribe(p) => {
            if p.filters@.len() > 0 && s.find_id() is Some {
                let id = s.find_id()->0;
                let a = s.advance(id);
                advance_keeps_wf(s, id);
                let t = s.subscribe(p).1;
                assert(t.busy() =~= a.busy());
                assert forall|i: int| #![trigger t.outgoing_pub[i]] #![trigger t.outgoing_rel[i]] 0
                    <= i <= t.max_inflight implies {
                    &&& t.outgoing_pub[i] matches Some(p) ==> p.pkid == i && p.qos
                        != QoS::AtMostOnce && !t.outgoing_rel[i] && !t.subscribes(i)
                    &&& t.outgoing_rel[i] ==> !t.subscribes(i)
                } by {
                    assert(s.outgoing_pub[i] == t.outgoing_pub[i]);
                    assert(s.outgoing_rel[i] == t.outgoing_rel[i]);
                    assert(i != id ==> t.subscribes(i) == s.subscribes(i));
                }
            }
        },
        RequestModel::Unsubscribe(p) => {
            if p.topics@.len() > 0 && s.find_id() is Some {
                let id = s.find_id()->0;
                let a = s.advance(id);
                advance_keeps_wf(s, id);
                let t = s.unsubscribe(p).1;
                assert(t.busy() =~= a.busy());
                assert forall|i: int| #![trigger t.outgoing_pub[i]] #![trigger t.outgoing_rel[i]] 0
                    <= i <= t.max_inflight implies {
                    &&& t.outgoing_pub[i] matches Some(p) ==> p.pkid == i && p.qos
                        != QoS::AtMostOnce && !t.outgoing_rel[i] && !t.subscribes(i)
                    &&& t.outgoing_rel[i] ==> !t.subscribes(i)
                } by {
                    assert(s.outgoing_pub[i] == t.outgoing_pub[i]);
                    assert(s.outgoing_rel[i] == t.outgoing_rel[i]);
                    assert(i != id ==> t.subscribes(i) == s.subscribes(i));
                }
            }
        },
        RequestModel::PingReq => others_keep_wf(s, s.ping().1),
        RequestModel::Disconnect => others_keep_wf(s, s.disconnect().1),
        RequestModel::PubAck(p) => others_keep_wf(s, s.puback(p.pkid).1),
        RequestModel::PubRec(p) => others_keep_wf(s, s.pubrec(p.pkid).1),
        _ => {},
    }
}

proof fn publish_keeps_wf(s: StateModel, p: PublishModel)
    requires
        s.wf(),
    ensures
        s.publish(p).1.wf(),
{
    found_from_is_free(s, 0);
    let t = s.publish(p).1;
    if p.qos == QoS::AtMostOnce {
        others_keep_wf(s, t);
    } else if p.pkid == 0 {
        if let Some(id) = s.find_id() {
            let q = PublishModel { pkid: id, ..p };
            advance_keeps_wf(s, id);
            assert(s.advance(id).free(id as int));
            store_keeps_wf(s.advance(id), q);
            others_keep_wf(s.advance(id).store(q), t);
        }
    } else if s.publish(p).0 is Ok {
        if s.outgoing_pub[p.pkid as int] is Some {
            others_keep_wf(s, t);
        } else {
            store_keeps_wf(s, p);
            others_keep_wf(s.store(p), t);
        }
    }
}

proof fn pubrel_keeps_wf(s: StateModel, id: u16)
    requires
        s.wf(),
    ensures
        s.pubrel(id).1.wf(),
{
    found_from_is_free(s, 0);
    let t = s.pubrel(id).1;
    if id == 0 {
        if let Some(id) = s.find_id() {
            let a = s.advance(id);
            advance_keeps_wf(s, id);
            release_keeps_wf(a, id);
            others_keep_wf(a.release(id), t);
        }
    } else if s.pubrel(id).0 is Ok {
        release_keeps_wf(s, id);
        others_keep_wf(s.release(id), t);
    }
}

/// A packet from the network keeps the state well formed.
pub proof fn incoming_keeps_wf(s: StateModel, packet: PacketModel)
    requires
        s.wf(),
    ensures
        s.on_packet(packet).1.wf(),
        s.incoming(packet).1.wf(),
{
    let t = s.on_packet(packet).1;
    match packet {
        PacketModel::PingResp => others_keep_wf(s, t),
        PacketModel::Publish(p) => {
            if s.on_publish(p).0 is Ok {
                others_keep_wf(s, t);
            }
        },
        PacketModel::SubAck(p) => {
            if s.on_suback(p).0 is Ok {
                assert(t.busy() =~= s.busy());
                assert forall|i: int| #![trigger t.outgoing_pub[i]] #![trigger t.outgoing_rel[i]] 0
                    <= i <= t.max_inflight implies {
                    &&& t.outgoing_pub[i] matches Some(p) ==> p.pkid == i && p.qos
                        != QoS::AtMostOnce && !t.outgoing_rel[i] && !t.subscribes(i)
                    &&& t.outgoing_rel[i] ==> !t.subscribes(i)
                } by {
                    assert(s.outgoing_pub[i] == t.outgoing_pub[i]);
                    assert(t.subscribes(i) ==> s.subscribes(i));
                }
            }
        },
        PacketModel::UnsubAck(p) => {
            if s.on_unsuback(p.pkid).0 is Ok {
                assert(t.busy() =~= s.busy());
                assert forall|i: int| #![trigger t.outgoing_pub[i]] #![trigger t.outgoing_rel[i]] 0
                    <= i <= t.max_inflight implies {
                    &&& t.outgoing_pub[i] matches Some(p) ==> p.pkid == i && p.qos
                        != QoS::AtMostOnce && !t.outgoing_rel[i] && !t.subscribes(i)
                    &&& t.outgoing_rel[i] ==> !t.subscribes(i)
                } by {
                    assert(s.outgoing_pub[i] == t.outgoing_pub[i]);
                    assert(t.subscribes(i) ==> s.subscribes(i));
                }
            }
        },
        PacketModel::PubAck(p) => puback_keeps_wf(s, p.pkid),
        PacketModel::PubRec(p) => pubrec_keeps_wf(s, p.pkid),
        PacketModel::PubRel(p) => {
            if s.on_pubrel(p.pkid).0 is Ok {
                others_keep_wf(s, t);
            }
        },
        PacketModel::PubComp(p) => pubcomp_keeps_wf(s, p.pkid),
        _ => {},
    }
    if s.on_packet(packet).0 is Ok {
        others_keep_wf(t, s.incoming(packet).1);
    }
}

proof fn puback_keeps_wf(s: StateModel, id: u16)
    requires
        s.wf(),
    ensures
        s.on_puback(id).1.wf(),
{
    let i = id as int;
    if s.awaits(id, QoS::AtLeastOnce) {
        let t = StateModel {
            last_puback: id,
            outgoing_pub: s.outgoing_pub.update(i, None),
            inflight: (s.inflight - 1) as u16,
            ..s
        };
        crate::bitset::count_update(s.busy(), i, false);
        assert(t.busy() =~= s.busy().update(i, false));
        slots_keep(s, t, i);
        assert(t.wf());
        if s.collides(id) {
            let p = s.collision->0;
            store_keeps_wf(t, p);
            others_keep_wf(t.store(p), s.on_puback(id).1);
        }
    }
}

proof fn pubrec_keeps_wf(s: StateModel, id: u16)
    requires
        s.wf(),
    ensures
        s.on_pubrec(id).1.wf(),
{
    let i = id as int;
    let t = s.on_pubrec(id).1;
    if is_set(s.outgoing_rel, i) {
        others_keep_wf(s, t);
    } else if s.awaits(id, QoS::ExactlyOnce) {
        assert(t.busy() =~= s.busy());
        slots_keep(s, t, i);
    }
}

proof fn pubcomp_keeps_wf(s: StateModel, id: u16)
    requires
        s.wf(),
    ensures
        s.on_pubcomp(id).1.wf(),
{
    let i = id as int;
    if is_set(s.outgoing_rel, i) {
        let t = StateModel {
            outgoing_rel: s.outgoing_rel.update(i, false),
            inflight: (s.inflight - 1) as u16,
            ..s
        };
        confirmed_is_wf(s, id);
        if s.collides(id) {
            let p = s.collision->0;
            store_keeps_wf(t, p);
            others_keep_wf(t.store(p), s.on_pubcomp(id).1);
        }
    }
}

/// The end of a session keeps the state well formed.
pub proof fn cleaned_is_wf(s: StateModel)
    requires
        s.wf(),
    ensures
        s.cleaned().wf(),
{
    crate::bitset::count_clear(s.cleaned().busy());
}

/// The start of a new connection keeps the state well formed.
pub proof fn resumed_is_wf(s: StateModel, unsent: Set<u16>)
    requires
        s.wf(),
    ensures
        s.resumed(unsent).wf(),
{
    let t = s.resumed(unsent);
    let d = s.discard(unsent);
    crate::bitset::count_bound(d.busy());
    crate::bitset::count_room(d.busy(), 0);
    assert(t.busy() =~= d.busy());
    assert(d.busy() =~= StateModel { inflight: s.inflight, ..d }.busy());
    assert forall|i: int| #![trigger t.outgoing_pub[i]] #![trigger t.outgoing_rel[i]] 0 <= i
        <= t.max_inflight implies {
        &&& t.outgoing_pub[i] matches Some(p) ==> p.pkid == i && p.qos != QoS::AtMostOnce
            && !t.outgoing_rel[i] && !t.subscribes(i)
        &&& t.outgoing_rel[i] ==> !t.subscribes(i)
    } by {
        assert(t.outgoing_pub[i] is Some ==> t.outgoing_pub[i] == s.outgoing_pub[i]);
        assert(t.outgoing_rel[i] == s.outgoing_rel[i]);
    }
}

/// A packet that is refused leaves the state as it was.
pub proof fn refused_packet_changes_nothing(s: StateModel, packet: PacketModel)
    requires
        s.wf(),
        s.incoming(packet).0 is Err,
    ensures
        s.incoming(packet).1 == s,
{
}

/// A request other than a ping that is refused leaves the state as it was.
pub proof fn refused_request_changes_nothing(s: StateModel, request: RequestModel)
    requires
        s.wf(),
        request !is PingReq,
        s.outgoing(request).0 is Err,
    ensures
        s.outgoing(request).1 == s,
{
}

/// An acknowledgement that does not fit the quality of service of a publication is refused, and
/// the publication stays.
pub proof fn wrong_acknowledgement_keeps_publication(s: StateModel, id: u16)
    requires
        s.wf(),
        id <= s.max_inflight,
        s.outgoing_pub[id as int] is Some,
    ensures
        s.outgoing_pub[id as int]->0.qos == QoS::ExactlyOnce ==> s.incoming(
            PacketModel::PubAck(PubAck { pkid: id }),
        ) == (Err::<Option<PacketModel>, StateError>(StateError::Unsolicited(id)), s),
        s.outgoing_pub[id as int]->0.qos == QoS::AtLeastOnce ==> s.incoming(
            PacketModel::PubRec(PubRec { pkid: id }),
        ) == (Err::<Option<PacketModel>, StateError>(StateError::Unsolicited(id)), s),
{
    assert(!s.outgoing_rel[id as int]);
}

/// A publication of the highest quality of service is delivered once: its repetition is not
/// reported, whatever answer it gets.
pub proof fn repetition_is_not_delivered(s: StateModel, p: PublishModel)
    requires
        s.wf(),
        p.qos == QoS::ExactlyOnce,
        s.incoming_pub[p.pkid as int],
    ensures
        ({
            let t = s.incoming(PacketModel::Publish(p)).1;
            &&& s.events.len() <= t.events.len()
            &&& t.events.take(s.events.len() as int) == s.events
            &&& forall|i: int|
                s.events.len() <= i < t.events.len() ==> (#[trigger] t.events[i]) is Outgoing
        }),
{
    let t = s.incoming(PacketModel::Publish(p)).1;
    assert(t.events.take(s.events.len() as int) =~= s.events);
}

/// A release that comes before the application allowed the receipt is refused.
pub proof fn early_release_is_refused(s: StateModel, id: u16)
    requires
        s.wf(),
        s.incoming_rec[id as int],
    ensures
        s.incoming(PacketModel::PubRel(PubRel { pkid: id })) == (
            Err::<Option<PacketModel>, StateError>(StateError::Unsolicited(id)),
            s,
        ),
{
}

/// A release that is asked for again is answered again and not counted twice.
pub proof fn repeated_release_is_counted_once(s: StateModel, id: u16)
    requires
        s.wf(),
        id != 0,
        s.pubrel(id).0 is Ok,
    ensures
        s.pubrel(id).1.pubrel(id).0 == s.pubrel(id).0,
        s.pubrel(id).1.pubrel(id).1.inflight == s.pubrel(id).1.inflight,
{
}

/// A receipt that is repeated is answered with the same release, and the exchange stays.
pub proof fn repeated_receipt_repeats_release(s: StateModel, id: u16)
    requires
        s.wf(),
        s.on_pubrec(id).0 is Ok,
    ensures
        ({
            let t = s.on_pubrec(id).1;
            &&& t.on_pubrec(id).0 == s.on_pubrec(id).0
            &&& t.on_pubrec(id).1.outgoing_rel == t.outgoing_rel
            &&& t.inflight == s.inflight
            &&& t.on_pubrec(id).1.inflight == s.inflight
        }),
{
}

/// An incoming publication of the middle quality of service is acknowledged once.
pub proof fn acknowledgement_is_not_repeated(s: StateModel, id: u16)
    requires
        s.wf(),
        s.puback(id).0 is Ok,
    ensures
        s.puback(id).1.puback(id).0 == Err::<Option<PacketModel>, StateError>(
            StateError::Unsolicited(id),
        ),
        s.puback(id).1.acknowledgement(id) is Err,
{
    assert(!s.incoming_rec[id as int]) by {
        assert(!s.incoming_pub[id as int]);
    }
}

/// An answer to a ping that was not sent is refused; so are packets that a client does not get,
/// and requests that a client does not make.
pub proof fn unsolicited_is_refused(s: StateModel, packet: PacketModel, request: RequestModel)
    requires
        s.wf(),
    ensures
        packet is PingResp && !s.await_pingresp ==> s.incoming(packet).0 is Err,
        packet is Connect || packet is ConnAck || packet is Subscribe || packet is Unsubscribe
            || packet is PingReq || packet is Disconnect ==> s.incoming(packet) == (
            Err::<Option<PacketModel>, StateError>(StateError::WrongPacket),
            s,
        ),
        request is PubComp || request is PingResp || request is SubAck || request is UnsubAck
            ==> s.outgoing(request) == (
            Err::<Option<PacketModel>, StateError>(StateError::WrongPacket),
            s,
        ),
{
}

/// A request never takes the identifier of another: a publication, release or subscription that
/// gets an identifier gets one that was free.
pub proof fn identifiers_are_exclusive(s: StateModel, request: RequestModel)
    requires
        s.wf(),
        s.outgoing(request).0 is Ok,
    ensures
        s.outgoing(request).0 matches Ok(Some(PacketModel::Publish(p))) ==> p.qos
            == QoS::AtMostOnce || s.free(p.pkid as int),
        s.outgoing(request).0 matches Ok(Some(PacketModel::Subscribe(p))) ==> s.free(p.pkid as int),
        s.outgoing(request).0 matches Ok(Some(PacketModel::Unsubscribe(p))) ==> s.free(
            p.pkid as int,
        ),
        s.outgoing(request).0 matches Ok(Some(PacketModel::PubRel(p))) ==> s.free(p.pkid as int)
            || is_set(s.outgoing_rel, p.pkid as int),
{
    found_from_is_free(s, 0);
}

/// A new connection of the same session loses no identifier: the publications that reached the
/// writer and all releases stay where they are, and are sent again.
pub proof fn resumption_keeps_identifiers(s: StateModel, unsent: Set<u16>, id: u16)
    requires
        s.wf(),
        id <= s.max_inflight,
    ensures
        !unsent.contains(id) ==> s.resumed(unsent).outgoing_pub[id as int]
            == s.outgoing_pub[id as int],
        s.resumed(unsent).outgoing_rel == s.outgoing_rel,
        s.resumed(unsent).incoming_pub == s.incoming_pub,
        s.resumed(unsent).incoming_ack == s.incoming_ack,
        s.resumed(unsent).incoming_rec == s.incoming_rec,
        s.resumed(unsent).outgoing_pub[id as int] matches Some(p) ==> s.resumed(
            unsent,
        ).retransmissions().contains(PacketModel::Publish(PublishModel { dup: true, ..p })),
        unsent.contains(id) ==> s.resumed(unsent).outgoing_pub[id as int] is None,
{
    let t = s.resumed(unsent);
    if let Some(p) = t.outgoing_pub[id as int] {
        let k = t.last_puback + 1;
        let around = t.outgoing_pub.skip(k) + t.outgoing_pub.take(k);
        let j = if id >= k {
            id - k
        } else {
            t.outgoing_pub.len() - k + id
        };
        assert(around[j] == t.outgoing_pub[id as int]);
        somes_contains(around, j);
        let n = somes(around).index_of(p);
        assert(t.retransmissions()[n] == PacketModel::Publish(PublishModel { dup: true, ..p }));
    }
}

pub(crate) proof fn somes_contains(s: Seq<Option<PublishModel>>, j: int)
    requires
        0 <= j < s.len(),
        s[j] is Some,
    ensures
        somes(s).contains(s[j]->0),
    decreases s.len(),
{
    let front = s.drop_last();
    if j == s.len() - 1 {
        assert(somes(s)[somes(s).len() - 1] == s[j]->0);
    } else {
        somes_contains(front, j);
        let n = somes(front).index_of(s[j]->0);
        assert(somes(s)[n] == s[j]->0);
    }
}

// Steps of the transitions -------------------------------------------------------------------

pub(crate) proof fn last_after_keeps_wf(s: StateModel, k: int)
    requires
        s.wf(),
        s.max_inflight > 0,
        0 <= k <= s.max_inflight,
    ensures
        (StateModel { last_pkid: s.last_after(k), ..s }).wf(),
        k < s.max_inflight ==> s.last_after(k) + 1 == s.nth_id(k),
{
    let t = StateModel { last_pkid: s.last_after(k), ..s };
    assert(t.busy() =~= s.busy());
    slots_keep(s, t, 0);
}

/// A change of the incoming exchanges alone.
pub(crate) proof fn received_is_wf(s: StateModel, t: StateModel)
    requires
        s.wf(),
        t == (StateModel {
            incoming_pub: t.incoming_pub,
            incoming_ack: t.incoming_ack,
            incoming_rec: t.incoming_rec,
            ..s
        }),
        t.incoming_pub.len() == 65536,
        t.incoming_ack.len() == 65536,
        t.incoming_rec.len() == 65536,
        forall|i: int|
            0 <= i < 65536 ==> ((#[trigger] t.incoming_rec[i]) ==> t.incoming_pub[i]),
        forall|i: int|
            0 <= i < 65536 ==> ((#[trigger] t.incoming_ack[i]) ==> !t.incoming_pub[i]),
        !t.incoming_pub[0] && !t.incoming_ack[0] && !t.incoming_rec[0],
    ensures
        t.wf(),
{
    others_keep_wf(s, t);
}

/// The state without a publication that was acknowledged.
pub(crate) proof fn acknowledged_is_wf(s: StateModel, id: u16)
    requires
        s.wf(),
        s.awaits(id, QoS::AtLeastOnce),
    ensures
        (StateModel {
            last_puback: id,
            outgoing_pub: s.outgoing_pub.update(id as int, None),
            inflight: (s.inflight - 1) as u16,
            ..s
        }).wf(),
{
    let i = id as int;
    let t = StateModel {
        last_puback: id,
        outgoing_pub: s.outgoing_pub.update(i, None),
        inflight: (s.inflight - 1) as u16,
        ..s
    };
    crate::bitset::count_update(s.busy(), i, false);
    assert(t.busy() =~= s.busy().update(i, false));
    slots_keep(s, t, i);
}

/// The state without a release that was confirmed; its identifier is free.
pub(crate) proof fn confirmed_is_wf(s: StateModel, id: u16)
    requires
        s.wf(),
        is_set(s.outgoing_rel, id as int),
    ensures
        ({
            let t = StateModel {
                outgoing_rel: s.outgoing_rel.update(id as int, false),
                inflight: (s.inflight - 1) as u16,
                ..s
            };
            t.wf() && t.free(id as int)
        }),
{
    let i = id as int;
    let t = StateModel {
        outgoing_rel: s.outgoing_rel.update(i, false),
        inflight: (s.inflight - 1) as u16,
        ..s
    };
    assert(s.outgoing_pub[i] is None);
    crate::bitset::count_update(s.busy(), i, false);
    assert(t.busy() =~= s.busy().update(i, false));
    slots_keep(s, t, i);
}

/// The state without a publication that waited for an identifier.
pub(crate) proof fn uncollided_is_wf(s: StateModel)
    requires
        s.wf(),
    ensures
        (StateModel { collision: None, ..s }).wf(),
{
    others_keep_wf(s, StateModel { collision: None, ..s });
}

/// A publication whose flag never went up is not sent again: it is tracked, no load of its flag
/// gives that it entered the writer, and so a new connection forgets it. One whose flag went up
/// stays.
pub proof fn unsent_is_not_replayed(
    s: StateModel,
    id: u16,
    flag: Arc<AtomicBool>,
    unsent: Set<u16>,
)
    requires
        s.wf(),
        id <= s.max_inflight,
        s.flagged(id, flag).tells_unsent(unsent),
    ensures
        !read_as(flag, true) ==> s.flagged(id, flag).resumed(unsent).outgoing_pub[id as int]
            is None,
        !read_as(flag, false) ==> s.flagged(id, flag).resumed(unsent).outgoing_pub[id as int]
            == s.outgoing_pub[id as int],
{
    assert(s.flagged(id, flag).transmission_flags.contains_key(id));
}

/// A flag stays with its publication: no request touches the flags, and a packet drops only those
/// of publications that are gone.
#[verifier::spinoff_prover]
#[verifier::rlimit(40)]
pub proof fn flags_follow_publications(
    s: StateModel,
    request: RequestModel,
    packet: PacketModel,
    id: u16,
)
    requires
        s.wf(),
        s.transmission_flags.contains_key(id),
    ensures
        s.outgoing(request).1.transmission_flags == s.transmission_flags,
        s.incoming(packet).0 is Err ==> s.incoming(packet).1.transmission_flags
            == s.transmission_flags,
        id <= s.max_inflight && s.incoming(packet).1.outgoing_pub[id as int] is Some ==> {
            let t = s.incoming(packet).1;
            t.transmission_flags.contains_key(id) && t.transmission_flags[id]
                == s.transmission_flags[id]
        },
{
}

/// A packet only appends events.
pub(crate) proof fn events_grow(s: StateModel, packet: PacketModel)
    ensures
        s.events.len() <= s.on_packet(packet).1.events.len(),
{
}

/// A publication that waited for an identifier and is handed out is kept until it is acknowledged.
pub proof fn handed_out_is_kept(s: StateModel, packet: PacketModel)
    requires
        s.wf(),
    ensures
        s.incoming(packet).0 matches Ok(Some(PacketModel::Publish(p))) ==> {
            let t = s.incoming(packet).1;
            &&& s.collision == Some(p)
            &&& t.collision is None
            &&& t.outgoing_pub[p.pkid as int] == Some(p)
            &&& t.awaits(p.pkid, p.qos)
            &&& t.inflight == s.inflight
        },
{
    if let PacketModel::PubAck(p) = packet {
        if s.awaits(p.pkid, QoS::AtLeastOnce) {
            taken_is_counted(s, p.pkid as int);
        }
    }
    if let PacketModel::PubComp(p) = packet {
        if is_set(s.outgoing_rel, p.pkid as int) {
            taken_is_counted(s, p.pkid as int);
        }
    }
}

/// Events that are taken out or put in leave the state well formed.
pub proof fn events_are_apart(s: StateModel, events: Seq<EventModel>)
    requires
        s.wf(),
    ensures
        (StateModel { events, ..s }).wf(),
{
    others_keep_wf(s, StateModel { events, ..s });
}

/// A change of the flags alone.
pub(crate) proof fn flags_keep_wf(s: StateModel, t: StateModel)
    requires
        s.wf(),
        t == (StateModel { transmission_flags: t.transmission_flags, ..s }),
    ensures
        t.wf(),
{
    others_keep_wf(s, t);
}

} // verus!
