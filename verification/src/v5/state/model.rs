//! The state machine of MQTT 5 as a mathematical model, and its laws.
use std::sync::atomic::AtomicBool;
use std::sync::Arc;
use std::time::Instant;

use vstd::prelude::*;
use vstd::utf8::valid_utf8;

use crate::bitset::{all_clear, count, count_update, is_set, positions};
use crate::clock::passed;
use crate::event::Outgoing;
use crate::memory::saturated;
use crate::tables::{read_as, total_len};
use crate::v5::event::{EventModel, RequestModel};
use crate::v5::mqttbytes::{qos_number, QoS};
use crate::v5::mqttbytes::v5::connack::{ConnAckModel, ConnectReturnCode};
use crate::v5::mqttbytes::v5::disconnect::{DisconnectModel, DisconnectReasonCode};
use crate::v5::mqttbytes::v5::packet::PacketModel;
use crate::v5::mqttbytes::v5::property::{pick, Entry};
use crate::v5::mqttbytes::v5::puback::{PubAckModel, PubAckReason};
use crate::v5::mqttbytes::v5::pubcomp::{PubCompModel, PubCompReason};
use crate::v5::mqttbytes::v5::publish::{PublishModel, PublishPropertiesModel};
use crate::v5::mqttbytes::v5::pubrec::{PubRecModel, PubRecReason};
use crate::v5::mqttbytes::v5::pubrel::{PubRelModel, PubRelReason};
use crate::v5::mqttbytes::v5::suback::{SubAckModel, SubscribeReasonCode};
use crate::v5::mqttbytes::v5::subscribe::SubscribeModel;
use crate::v5::mqttbytes::v5::unsuback::UnsubAckModel;
use crate::v5::mqttbytes::v5::unsubscribe::UnsubscribeModel;

verus! {

/// Why a transition is refused.
#[verifier::ext_equal]
pub enum Refusal {
    InvalidState,
    OutgoingCapacity,
    Unsolicited(u16),
    AwaitPingResp,
    WrongPacket,
    CollisionTimeout,
    EmptySubscription,
    InvalidAlias { alias: u16, max: u16 },
    ServerDisconnect { reason_code: DisconnectReasonCode, reason_string: Option<Seq<char>> },
    ConnFail { reason: ConnectReturnCode },
    /// Errors of the network, which no transition gives
    Network,
}

/// What a transition answers: a packet for the network, nothing, or a refusal.
pub type Outcome = Result<Option<PacketModel>, Refusal>;

/// State of the mqtt connection.
#[verifier::ext_equal]
pub struct StateModel {
    /// Flags of the publications that a controlled writer handles
    pub transmission_flags: Map<u16, Arc<AtomicBool>>,
    pub await_pingresp: bool,
    pub collision_ping_count: usize,
    pub last_pkid: u16,
    pub inflight: u16,
    pub outgoing_pub: Seq<Option<PublishModel>>,
    pub outgoing_rel: Seq<bool>,
    pub incoming_pub: Seq<bool>,
    pub collision: Option<PublishModel>,
    pub events: Seq<EventModel>,
    pub manual_acks: bool,
    /// Topics of the aliases that the broker has set
    pub topic_aliases: Map<u16, Seq<u8>>,
    pub broker_topic_alias_max: u16,
    pub max_outgoing_inflight: u16,
    pub upper_limit: u16,
    pub incoming_ack: Seq<bool>,
    pub incoming_rec: Seq<bool>,
    /// Tokens of the exchanges whose last acknowledgement is being written
    pub incoming_done: Map<usize, u64>,
    pub next_completion: u64,
    pub outgoing_sub: Map<u16, Seq<QoS>>,
    pub outgoing_unsub: Map<u16, usize>,
    /// Topics of the aliases that this client has set
    pub outgoing_aliases: Map<u16, Seq<u8>>,
    pub receive_maximum: usize,
    pub receive_alias_maximum: u16,
    pub alias_bytes_maximum: usize,
    pub defer_write_completion: bool,
    pub resume_queue: Seq<u16>,
    pub resume_sent: Seq<bool>,
    /// When the time of expiry of publications started
    pub expiring: Map<u16, Instant>,
}

/// Whether an acknowledgement answers each filter of a subscription, with no higher quality of
/// service than was asked for.
pub open spec fn grants(requested: Seq<QoS>, codes: Seq<SubscribeReasonCode>) -> bool {
    &&& requested.len() == codes.len()
    &&& forall|i: int|
        0 <= i < codes.len() ==> (#[trigger] codes[i] matches SubscribeReasonCode::Success(qos)
            ==> qos_number(qos) <= qos_number(requested[i]))
}

/// The identifiers of slots that hold a publication.
pub open spec fn occupied(slots: Seq<Option<PublishModel>>) -> Set<u16> {
    Set::new(|id: u16| id < slots.len() && slots[id as int] is Some)
}

/// The topic alias of a publication, if it has one.
pub open spec fn alias_of(p: PublishModel) -> Option<u16> {
    match p.properties {
        Some(v) => v.topic_alias,
        None => None,
    }
}

/// The expiry interval of a publication, if it has one.
pub open spec fn expiry_of(p: PublishModel) -> Option<u32> {
    match p.properties {
        Some(v) => v.message_expiry_interval,
        None => None,
    }
}

/// Whether the topics of the aliases stay within a limit when `alias` gets a topic of `len`
/// octets.
pub open spec fn alias_fits(m: Map<u16, Seq<u8>>, alias: u16, len: nat, maximum: usize) -> bool {
    saturated((total_len(m, m.dom().remove(alias), 65536) + len) as int) <= maximum
}

/// The number that a property of a packet gives, if it is there.
pub open spec fn short_in(properties: Option<Seq<Entry>>, id: u8) -> Option<u16> {
    match properties {
        Some(es) => if pick(es, id).len() > 0 && pick(es, id)[0].1 is Short {
            Some(pick(es, id)[0].1->Short_0)
        } else {
            None
        },
        None => None,
    }
}

/// The text that a property of a packet gives, if it is there.
pub open spec fn text_in(properties: Option<Seq<Entry>>, id: u8) -> Option<Seq<char>> {
    match properties {
        Some(es) => if pick(es, id).len() > 0 && pick(es, id)[0].1 is Text {
            Some(pick(es, id)[0].1->Text_0)
        } else {
            None
        },
        None => None,
    }
}

/// Identifiers as packet numbers.
pub open spec fn numbers(s: Seq<usize>) -> Seq<u16> {
    Seq::new(s.len(), |i: int| s[i] as u16)
}

/// No publications.
pub open spec fn no_publications(n: nat) -> Seq<Option<PublishModel>> {
    Seq::new(n, |i: int| None)
}

/// The slots that hold a publication.
pub open spec fn taken(slots: Seq<Option<PublishModel>>) -> Seq<bool> {
    Seq::new(slots.len(), |i: int| slots[i] is Some)
}

/// The slots without the publications `unsent`.
pub open spec fn slots_without(slots: Seq<Option<PublishModel>>, unsent: Set<u16>) -> Seq<
    Option<PublishModel>,
> {
    Seq::new(
        slots.len(),
        |i: int|
            if unsent.contains(i as u16) {
                None
            } else {
                slots[i]
            },
    )
}

/// The publications that are there, in order.
pub open spec fn somes(s: Seq<Option<PublishModel>>) -> Seq<PublishModel>
    decreases s.len(),
{
    if s.len() == 0 {
        Seq::empty()
    } else {
        match s.last() {
            Some(p) => somes(s.drop_last()).push(p),
            None => somes(s.drop_last()),
        }
    }
}

/// An acknowledgement without properties.
pub open spec fn puback_model(id: u16) -> PubAckModel {
    PubAckModel { pkid: id, reason: PubAckReason::Success, properties: None }
}

/// A receipt without properties.
pub open spec fn pubrec_model(id: u16) -> PubRecModel {
    PubRecModel { pkid: id, reason: PubRecReason::Success, properties: None }
}

/// A release without properties.
pub open spec fn pubrel_model(id: u16) -> PubRelModel {
    PubRelModel { pkid: id, reason: PubRelReason::Success, properties: None }
}

/// The confirmation of a release; an exchange that is not known is reported.
pub open spec fn pubcomp_model(id: u16, known: bool) -> PubCompModel {
    PubCompModel {
        pkid: id,
        reason: if known {
            PubCompReason::Success
        } else {
            PubCompReason::PacketIdentifierNotFound
        },
        properties: None,
    }
}

impl StateModel {
    /// A new state.
    pub open spec fn initial(max_inflight: u16, manual_acks: bool) -> StateModel {
        let slots = (max_inflight + 1) as nat;
        StateModel {
            transmission_flags: Map::empty(),
            await_pingresp: false,
            collision_ping_count: 0,
            last_pkid: 0,
            inflight: 0,
            outgoing_pub: no_publications(slots),
            outgoing_rel: all_clear(slots),
            incoming_pub: all_clear(65536),
            collision: None,
            events: Seq::empty(),
            manual_acks,
            topic_aliases: Map::empty(),
            broker_topic_alias_max: 0,
            max_outgoing_inflight: max_inflight,
            upper_limit: max_inflight,
            incoming_ack: all_clear(65536),
            incoming_rec: all_clear(65536),
            incoming_done: Map::empty(),
            next_completion: 0,
            outgoing_sub: Map::empty(),
            outgoing_unsub: Map::empty(),
            outgoing_aliases: Map::empty(),
            receive_maximum: 65535,
            receive_alias_maximum: 0,
            alias_bytes_maximum: 16777216,
            defer_write_completion: false,
            resume_queue: Seq::empty(),
            resume_sent: all_clear(slots),
            expiring: Map::empty(),
        }
    }

    /// Whether an identifier belongs to a subscription or its removal.
    pub open spec fn subscribes(self, id: u16) -> bool {
        self.outgoing_sub.contains_key(id) || self.outgoing_unsub.contains_key(id)
    }

    /// Whether an identifier can be given to a new request.
    pub open spec fn free(self, id: int) -> bool {
        &&& 0 < id <= self.upper_limit
        &&& self.outgoing_pub[id] is None
        &&& !self.outgoing_rel[id]
        &&& !self.subscribes(id as u16)
    }

    /// The sizes of the tables.
    pub open spec fn sized(self) -> bool {
        &&& self.outgoing_pub.len() == self.upper_limit + 1
        &&& self.outgoing_rel.len() == self.upper_limit + 1
        &&& self.resume_sent.len() == self.upper_limit + 1
        &&& self.incoming_pub.len() == 65536
        &&& self.incoming_ack.len() == 65536
        &&& self.incoming_rec.len() == 65536
    }

    /// The part of the invariant on outgoing publications and releases: a publication has the
    /// identifier of its slot, and no fewer exchanges are in flight than there are publications
    /// and releases.
    pub open spec fn outgoing_wf(self) -> bool {
        &&& self.outgoing_pub[0] is None
        &&& forall|i: int|
            0 <= i <= self.upper_limit ==> ((#[trigger] self.outgoing_pub[i]) matches Some(p)
                ==> p.pkid == i && p.qos != QoS::AtMostOnce)
        &&& count(taken(self.outgoing_pub)) + count(self.outgoing_rel) <= self.inflight
        &&& self.collision matches Some(p) ==> 0 < p.pkid <= self.upper_limit && p.qos
            != QoS::AtMostOnce
    }

    /// The part of the invariant on identifiers: subscriptions and their removals have different
    /// identifiers, which are within the limit.
    pub open spec fn ids_wf(self) -> bool {
        &&& self.last_pkid <= self.upper_limit
        &&& self.max_outgoing_inflight <= self.upper_limit
        &&& forall|id: u16| #[trigger]
            self.outgoing_sub.contains_key(id) ==> 0 < id <= self.upper_limit
                && !self.outgoing_unsub.contains_key(id)
        &&& forall|id: u16| #[trigger]
            self.outgoing_unsub.contains_key(id) ==> 0 < id <= self.upper_limit
        &&& forall|i: int|
            0 <= i < self.resume_queue.len() ==> (#[trigger] self.resume_queue[i])
                <= self.upper_limit
    }

    /// The part of the invariant on incoming exchanges. A token names its exchange in its lower
    /// sixteen bits and was given out once.
    pub open spec fn incoming_wf(self) -> bool {
        &&& forall|i: int|
            0 <= i < 65536 ==> ((#[trigger] self.incoming_rec[i]) ==> self.incoming_pub[i])
        &&& forall|i: int|
            0 <= i < 65536 ==> ((#[trigger] self.incoming_ack[i]) ==> !self.incoming_pub[i])
        &&& !self.incoming_pub[0] && !self.incoming_ack[0] && !self.incoming_rec[0]
        &&& self.next_completion % 65536 == 0
        &&& forall|id: usize| #[trigger]
            self.incoming_done.contains_key(id) ==> {
                &&& 0 < id < 65536
                &&& self.incoming_done[id] % 65536 == id
                &&& self.incoming_done[id] <= self.next_completion + 65535
                &&& self.incoming_ack[id as int] || self.incoming_pub[id as int]
                &&& !self.incoming_rec[id as int]
            }
    }

    /// The invariant.
    pub open spec fn wf(self) -> bool {
        self.sized() && self.outgoing_wf() && self.ids_wf() && self.incoming_wf()
    }

    /// The state with one more event.
    pub open spec fn emit(self, o: Outgoing) -> StateModel {
        StateModel { events: self.events.push(EventModel::Outgoing(o)), ..self }
    }

    // Identifiers ------------------------------------------------------------------------

    /// The identifier that follows `k` others, from the last one on and around.
    pub open spec fn nth_id(self, k: int) -> int {
        let v = self.last_pkid + k + 1;
        if v <= self.upper_limit {
            v
        } else {
            v - self.upper_limit
        }
    }

    /// The first of the identifiers that follow `k` others which is free.
    pub open spec fn find_from(self, k: int) -> Option<u16>
        decreases self.upper_limit - k,
    {
        if k >= self.upper_limit {
            None
        } else if self.free(self.nth_id(k)) {
            Some(self.nth_id(k) as u16)
        } else {
            self.find_from(k + 1)
        }
    }

    /// The next free identifier; `None` where all are in use.
    pub open spec fn find_id(self) -> Option<u16> {
        self.find_from(0)
    }

    /// The state after a search for an identifier. Identifiers start over at the end.
    pub open spec fn searched(self) -> StateModel {
        StateModel {
            last_pkid: match self.find_id() {
                Some(id) => if id == self.upper_limit {
                    0
                } else {
                    id
                },
                None => if self.last_pkid == 0 {
                    self.upper_limit
                } else {
                    self.last_pkid
                },
            },
            ..self
        }
    }

    /// A search for an identifier.
    pub open spec fn next_available(self) -> (Result<u16, Refusal>, StateModel) {
        match self.find_id() {
            Some(id) => (Ok(id), self.searched()),
            None => (Err(Refusal::OutgoingCapacity), self.searched()),
        }
    }

    /// The state after the identifier `id` was given out without a search.
    pub open spec fn advance(self, id: u16) -> StateModel {
        StateModel {
            last_pkid: if id == self.max_outgoing_inflight {
                0
            } else {
                id
            },
            ..self
        }
    }

    // Requests ---------------------------------------------------------------------------

    /// Why the topic alias of a publication cannot be used, if it cannot.
    pub open spec fn alias_refusal(self, p: PublishModel) -> Option<Refusal> {
        match alias_of(p) {
            None => None,
            Some(alias) => if alias == 0 || alias > self.broker_topic_alias_max {
                Some(Refusal::InvalidAlias { alias, max: self.broker_topic_alias_max })
            } else if p.topic.len() == 0 {
                if self.outgoing_aliases.contains_key(alias) {
                    None
                } else {
                    Some(Refusal::InvalidState)
                }
            } else if !alias_fits(
                self.outgoing_aliases,
                alias,
                p.topic.len(),
                self.alias_bytes_maximum,
            ) {
                Some(Refusal::InvalidState)
            } else {
                None
            },
        }
    }

    /// The publication as it is kept: under its topic even where only the alias is sent.
    pub open spec fn retained(self, p: PublishModel) -> PublishModel {
        if p.topic.len() == 0 {
            PublishModel { topic: self.outgoing_aliases[alias_of(p)->0], ..p }
        } else {
            p
        }
    }

    /// Keeps a publication until it is acknowledged.
    pub open spec fn store(self, p: PublishModel) -> StateModel {
        StateModel {
            outgoing_pub: self.outgoing_pub.update(p.pkid as int, Some(p)),
            inflight: (self.inflight + 1) as u16,
            ..self
        }
    }

    /// The state after a publication was handed out: its alias is set, and it is reported.
    pub open spec fn announce(self, p: PublishModel) -> StateModel {
        let s = if alias_of(p) is Some && p.topic.len() > 0 {
            StateModel {
                outgoing_aliases: self.outgoing_aliases.insert(alias_of(p)->0, p.topic),
                ..self
            }
        } else {
            self
        };
        s.emit(Outgoing::Publish(p.pkid))
    }

    /// A publication that has an identifier above the lowest quality of service. `moment` is when
    /// it is accepted.
    pub open spec fn publish_as(self, p: PublishModel, moment: Instant) -> (Outcome, StateModel) {
        if is_set(self.outgoing_rel, p.pkid as int) || self.subscribes(p.pkid) {
            (Err(Refusal::InvalidState), self)
        } else if p.pkid > self.upper_limit {
            (Err(Refusal::Unsolicited(p.pkid)), self)
        } else if self.outgoing_pub[p.pkid as int] is Some {
            (
                Ok(None),
                StateModel { collision: Some(p), ..self }.emit(Outgoing::AwaitAck(p.pkid)),
            )
        } else if p.topic.len() == 0 && alias_of(p) is None {
            (Err(Refusal::InvalidState), self)
        } else {
            let s = if expiry_of(p) is Some {
                StateModel { expiring: self.expiring.insert(p.pkid, moment), ..self }
            } else {
                self
            };
            (
                Ok(Some(PacketModel::Publish(p))),
                s.store(self.retained(p)).announce(p),
            )
        }
    }

    /// A request to publish. Its alias is held against the limits before anything is changed.
    /// Above the lowest quality of service the publication needs room in the window of the
    /// broker, and gets a free identifier or brings its own; one whose identifier still awaits an
    /// acknowledgement waits. `moment` is when the publication is accepted.
    pub open spec fn publish(self, p: PublishModel, moment: Instant) -> (Outcome, StateModel) {
        match self.alias_refusal(p) {
            Some(e) => (Err(e), self),
            None => if p.qos == QoS::AtMostOnce {
                (Ok(Some(PacketModel::Publish(p))), self.announce(p))
            } else if self.inflight >= self.max_outgoing_inflight {
                (Err(Refusal::OutgoingCapacity), self)
            } else if p.pkid != 0 {
                self.publish_as(p, moment)
            } else {
                match self.find_id() {
                    Some(id) => self.searched().publish_as(
                        PublishModel { pkid: id, ..p },
                        moment,
                    ),
                    None => (Err(Refusal::OutgoingCapacity), self.searched()),
                }
            },
        }
    }

    /// The identifier of a release that is asked for; 0 asks for the next one.
    pub open spec fn release_id(self, id: u16) -> int {
        if id == 0 {
            self.last_pkid + 1
        } else {
            id as int
        }
    }

    /// Whether a release can be asked for: its identifier is within the limit, and one more
    /// exchange can be counted.
    pub open spec fn can_release(self, id: u16) -> bool {
        self.release_id(id) <= self.upper_limit && self.inflight < u16::MAX
    }

    /// A request to release a publication.
    pub open spec fn pubrel(self, id: u16) -> (Outcome, StateModel) {
        let used = self.release_id(id) as u16;
        let s = if id == 0 {
            self.advance(used)
        } else {
            self
        };
        (
            Ok(Some(PacketModel::PubRel(pubrel_model(used)))),
            StateModel {
                outgoing_rel: s.outgoing_rel.update(used as int, true),
                inflight: (s.inflight + 1) as u16,
                ..s
            }.emit(Outgoing::PubRel(used)),
        )
    }

    /// A request to subscribe. What was asked for is kept until the answer comes.
    pub open spec fn subscribe(self, p: SubscribeModel) -> (Outcome, StateModel) {
        if p.filters.len() == 0 {
            (Err(Refusal::EmptySubscription), self)
        } else {
            match self.find_id() {
                Some(id) => (
                    Ok(Some(PacketModel::Subscribe(SubscribeModel { pkid: id, ..p }))),
                    StateModel {
                        outgoing_sub: self.outgoing_sub.insert(
                            id,
                            Seq::new(p.filters.len(), |i: int| p.filters[i].qos),
                        ),
                        ..self.searched()
                    }.emit(Outgoing::Subscribe(id)),
                ),
                None => (Err(Refusal::OutgoingCapacity), self.searched()),
            }
        }
    }

    /// A request to unsubscribe.
    pub open spec fn unsubscribe(self, p: UnsubscribeModel) -> (Outcome, StateModel) {
        if p.filters.len() == 0 {
            (Err(Refusal::EmptySubscription), self)
        } else {
            match self.find_id() {
                Some(id) => (
                    Ok(Some(PacketModel::Unsubscribe(UnsubscribeModel { pkid: id, ..p }))),
                    StateModel {
                        outgoing_unsub: self.outgoing_unsub.insert(id, p.filters.len() as usize),
                        ..self.searched()
                    }.emit(Outgoing::Unsubscribe(id)),
                ),
                None => (Err(Refusal::OutgoingCapacity), self.searched()),
            }
        }
    }

    /// A request to ping. One that was not answered is an error; so is the second one while a
    /// publication waits for an identifier.
    pub open spec fn ping(self) -> (Outcome, StateModel) {
        let s = if self.collision is Some {
            StateModel { collision_ping_count: (self.collision_ping_count + 1) as usize, ..self }
        } else {
            self
        };
        if self.collision is Some && s.collision_ping_count >= 2 {
            (Err(Refusal::CollisionTimeout), s)
        } else if self.await_pingresp {
            (Err(Refusal::AwaitPingResp), s)
        } else {
            (
                Ok(Some(PacketModel::PingReq)),
                StateModel { await_pingresp: true, ..s }.emit(Outgoing::PingReq),
            )
        }
    }

    pub open spec fn disconnect(self, reason_code: DisconnectReasonCode) -> (Outcome, StateModel) {
        (
            Ok(Some(PacketModel::Disconnect(DisconnectModel { reason_code, properties: None }))),
            self.emit(Outgoing::Disconnect),
        )
    }

    // Completion of incoming exchanges ---------------------------------------------------

    /// The token of an exchange whose last acknowledgement is handed out, and the state with it.
    /// An exchange keeps its token; a new one is above all others. `None` where tokens run out.
    pub open spec fn mark(self, id: usize) -> Option<(u64, StateModel)> {
        if self.incoming_done.contains_key(id) {
            Some((self.incoming_done[id], self))
        } else if self.next_completion + 65536 > u64::MAX {
            None
        } else {
            let token = (self.next_completion + 65536 + id) as u64;
            Some(
                (
                    token,
                    StateModel {
                        next_completion: (self.next_completion + 65536) as u64,
                        incoming_done: self.incoming_done.insert(id, token),
                        ..self
                    },
                ),
            )
        }
    }

    /// The state after the acknowledgement of a token was written: the exchange ends. A token
    /// that is not the one of its exchange has no effect.
    pub open spec fn written(self, token: u64) -> StateModel {
        let id = (token % 65536) as usize;
        if self.incoming_done.contains_key(id) && self.incoming_done[id] == token {
            StateModel {
                incoming_done: self.incoming_done.remove(id),
                incoming_ack: self.incoming_ack.update(id as int, false),
                incoming_pub: self.incoming_pub.update(id as int, false),
                incoming_rec: self.incoming_rec.update(id as int, false),
                ..self
            }
        } else {
            self
        }
    }

    /// Hands out the last acknowledgement of an exchange. The exchange ends at once, or when the
    /// caller reports that the acknowledgement was written.
    pub open spec fn complete(self, id: u16) -> Option<StateModel> {
        match self.mark(id as usize) {
            None => None,
            Some((token, s)) => Some(
                if self.defer_write_completion {
                    s
                } else {
                    s.written(token)
                },
            ),
        }
    }

    /// An acknowledgement of an incoming publication of the middle quality of service.
    pub open spec fn puback(self, p: PubAckModel) -> (Outcome, StateModel) {
        let id = p.pkid;
        if id == 0 || !self.incoming_ack[id as int] || self.incoming_done.contains_key(
            id as usize,
        ) {
            (Err(Refusal::Unsolicited(id)), self)
        } else {
            match self.complete(id) {
                None => (Err(Refusal::InvalidState), self),
                Some(s) => (Ok(Some(PacketModel::PubAck(p))), s.emit(Outgoing::PubAck(id))),
            }
        }
    }

    /// An acknowledgement of an incoming publication of the highest quality of service. A
    /// negative one ends the exchange.
    pub open spec fn pubrec(self, p: PubRecModel) -> (Outcome, StateModel) {
        let id = p.pkid;
        if id == 0 || !self.incoming_pub[id as int] || self.incoming_done.contains_key(
            id as usize,
        ) {
            (Err(Refusal::Unsolicited(id)), self)
        } else {
            let s = StateModel { incoming_rec: self.incoming_rec.update(id as int, false), ..self };
            if p.reason.number() >= 128 {
                match s.complete(id) {
                    None => (Err(Refusal::InvalidState), s),
                    Some(t) => (Ok(Some(PacketModel::PubRec(p))), t.emit(Outgoing::PubRec(id))),
                }
            } else {
                (Ok(Some(PacketModel::PubRec(p))), s.emit(Outgoing::PubRec(id)))
            }
        }
    }

    /// A request of the client. `moment` is when it is accepted; it counts only for a publication
    /// that can expire.
    pub open spec fn outgoing(self, request: RequestModel, moment: Instant) -> (
        Outcome,
        StateModel,
    ) {
        match request {
            RequestModel::Publish(p) => self.publish(p, moment),
            RequestModel::PubRel(p) => self.pubrel(p.pkid),
            RequestModel::Subscribe(p) => self.subscribe(p),
            RequestModel::Unsubscribe(p) => self.unsubscribe(p),
            RequestModel::PingReq => self.ping(),
            RequestModel::Disconnect => self.disconnect(DisconnectReasonCode::NormalDisconnection),
            RequestModel::PubAck(p) => self.puback(p),
            RequestModel::PubRec(p) => self.pubrec(p),
            _ => (Err(Refusal::WrongPacket), self),
        }
    }

    /// Whether a request is within the machine: a release has an identifier within the limit,
    /// and pings can be counted.
    pub open spec fn admits(self, request: RequestModel) -> bool {
        &&& request matches RequestModel::PubRel(p) ==> self.can_release(p.pkid)
        &&& request is PingReq && self.collision is Some ==> self.collision_ping_count < usize::MAX
    }

    /// The kind of acknowledgement that an application owes for an incoming publication.
    pub open spec fn acknowledgement_kind(self, id: u16) -> Result<u8, Refusal> {
        if !self.manual_acks || self.incoming_done.contains_key(id as usize) {
            Err(Refusal::InvalidState)
        } else if self.incoming_ack[id as int] {
            Ok(4)
        } else if self.incoming_rec[id as int] {
            Ok(5)
        } else {
            Err(Refusal::Unsolicited(id))
        }
    }

    // Incoming packets -------------------------------------------------------------------

    pub open spec fn on_pingresp(self) -> (Outcome, StateModel) {
        if !self.await_pingresp {
            (Err(Refusal::WrongPacket), self)
        } else {
            (Ok(None), StateModel { await_pingresp: false, ..self })
        }
    }

    /// The answer to a subscription is held against what was asked for before it is released.
    pub open spec fn on_suback(self, ack: SubAckModel) -> (Outcome, StateModel) {
        if !self.outgoing_sub.contains_key(ack.pkid) {
            (Err(Refusal::Unsolicited(ack.pkid)), self)
        } else if !grants(self.outgoing_sub[ack.pkid], ack.return_codes) {
            (Err(Refusal::WrongPacket), self)
        } else {
            (Ok(None), StateModel { outgoing_sub: self.outgoing_sub.remove(ack.pkid), ..self })
        }
    }

    /// The answer to an unsubscription has one reason for each filter.
    pub open spec fn on_unsuback(self, ack: UnsubAckModel) -> (Outcome, StateModel) {
        if !self.outgoing_unsub.contains_key(ack.pkid) || self.outgoing_unsub[ack.pkid]
            != ack.reasons.len() {
            (Err(Refusal::Unsolicited(ack.pkid)), self)
        } else {
            (Ok(None), StateModel { outgoing_unsub: self.outgoing_unsub.remove(ack.pkid), ..self })
        }
    }

    /// The broker accepts the connection and may lower the limits.
    pub open spec fn on_connack(self, ack: ConnAckModel) -> (Outcome, StateModel) {
        if ack.code != ConnectReturnCode::Success {
            (Err(Refusal::ConnFail { reason: ack.code }), self)
        } else {
            (
                Ok(None),
                StateModel {
                    broker_topic_alias_max: match short_in(ack.properties, 34) {
                        Some(n) => n,
                        None => self.broker_topic_alias_max,
                    },
                    max_outgoing_inflight: match short_in(ack.properties, 33) {
                        Some(n) => if n <= self.upper_limit {
                            n
                        } else {
                            self.upper_limit
                        },
                        None => self.max_outgoing_inflight,
                    },
                    ..self
                },
            )
        }
    }

    pub open spec fn on_disconnect(self, p: DisconnectModel) -> (Outcome, StateModel) {
        (
            Err(
                Refusal::ServerDisconnect {
                    reason_code: p.reason_code,
                    reason_string: text_in(p.properties, 31),
                },
            ),
            self,
        )
    }

    /// The number of incoming exchanges.
    pub open spec fn incoming_inflight(self) -> nat {
        count(self.incoming_ack) + count(self.incoming_pub)
    }

    /// The topic of an incoming publication that has an alias, and the state with the alias. A
    /// publication without a topic stands for the topic of its alias.
    pub open spec fn resolve_alias(self, p: PublishModel) -> Result<
        (PublishModel, StateModel),
        Refusal,
    > {
        match alias_of(p) {
            None => Ok((p, self)),
            Some(alias) => if alias == 0 || alias > self.receive_alias_maximum {
                Err(Refusal::InvalidAlias { alias, max: self.receive_alias_maximum })
            } else if p.topic.len() == 0 {
                if self.topic_aliases.contains_key(alias) {
                    Ok((PublishModel { topic: self.topic_aliases[alias], ..p }, self))
                } else {
                    Err(Refusal::InvalidState)
                }
            } else if !alias_fits(
                self.topic_aliases,
                alias,
                p.topic.len(),
                self.alias_bytes_maximum,
            ) {
                Err(Refusal::InvalidState)
            } else {
                Ok(
                    (
                        p,
                        StateModel {
                            topic_aliases: self.topic_aliases.insert(alias, p.topic),
                            ..self
                        },
                    ),
                )
            },
        }
    }

    /// An incoming publication above the lowest quality of service. Its identifier is kept until
    /// the exchange ends; no more are kept than the receive maximum. A repeated one must be
    /// marked as such, and is acknowledged again once the application allowed it.
    pub open spec fn receive(self, p: PublishModel) -> (Outcome, StateModel) {
        let id = p.pkid as int;
        let done = self.incoming_done.contains_key(p.pkid as usize);
        if id == 0 {
            (Err(Refusal::WrongPacket), self)
        } else if !self.incoming_pub[id] && !self.incoming_ack[id] && self.incoming_inflight()
            >= self.receive_maximum {
            (Err(Refusal::InvalidState), self)
        } else if p.qos == QoS::AtLeastOnce {
            if self.incoming_pub[id] || (self.incoming_ack[id] && !p.dup) {
                (Err(Refusal::WrongPacket), self)
            } else {
                let s = StateModel { incoming_ack: self.incoming_ack.update(id, true), ..self };
                if self.manual_acks || done {
                    (Ok(None), s)
                } else {
                    s.puback(puback_model(p.pkid))
                }
            }
        } else if self.incoming_ack[id] {
            (Err(Refusal::WrongPacket), self)
        } else if self.incoming_pub[id] {
            if !p.dup || done {
                (Err(Refusal::WrongPacket), self)
            } else if self.incoming_rec[id] {
                (Ok(None), self)
            } else {
                self.pubrec(pubrec_model(p.pkid))
            }
        } else {
            let s = StateModel {
                incoming_pub: self.incoming_pub.update(id, true),
                incoming_rec: self.incoming_rec.update(id, true),
                ..self
            };
            if self.manual_acks {
                (Ok(None), s)
            } else {
                s.pubrec(pubrec_model(p.pkid))
            }
        }
    }

    /// An incoming publication: the answer, the publication with its topic, and the state. The
    /// topic is UTF-8 text and not empty.
    pub open spec fn on_publish(self, p: PublishModel) -> (Outcome, PublishModel, StateModel) {
        match self.resolve_alias(p) {
            Err(e) => (Err(e), p, self),
            Ok((q, s)) => if q.topic.len() == 0 || !valid_utf8(q.topic) {
                (Err(Refusal::WrongPacket), q, s)
            } else if q.qos == QoS::AtMostOnce {
                (Ok(None), q, s)
            } else {
                let (outcome, t) = s.receive(q);
                (outcome, q, t)
            },
        }
    }

    /// Whether a publication waits for the identifier.
    pub open spec fn collides(self, id: u16) -> bool {
        self.collision matches Some(p) && p.pkid == id
    }

    /// Hands out the publication that waited for an identifier.
    pub open spec fn resolve(self) -> StateModel {
        StateModel { collision: None, collision_ping_count: 0, ..self }.emit(
            Outgoing::Publish(self.collision->0.pkid),
        )
    }

    /// Whether a publication of the given quality of service awaits an acknowledgement.
    pub open spec fn awaits(self, id: u16, qos: QoS) -> bool {
        id <= self.upper_limit && (self.outgoing_pub[id as int] matches Some(p) && p.qos == qos)
    }

    /// The state without a publication.
    pub open spec fn drop_publication(self, id: u16) -> StateModel {
        StateModel {
            outgoing_pub: self.outgoing_pub.update(id as int, None),
            inflight: (self.inflight - 1) as u16,
            ..self
        }
    }

    /// An acknowledgement ends an exchange; after a positive one the publication that waited for
    /// the identifier is handed out.
    pub open spec fn on_puback(self, ack: PubAckModel) -> (Outcome, StateModel) {
        let id = ack.pkid;
        if !self.awaits(id, QoS::AtLeastOnce) {
            (Err(Refusal::Unsolicited(id)), self)
        } else {
            let s = self.drop_publication(id);
            if (ack.reason == PubAckReason::Success || ack.reason
                == PubAckReason::NoMatchingSubscribers) && self.collides(id) {
                let p = self.collision->0;
                (Ok(Some(PacketModel::Publish(p))), s.store(p).resolve())
            } else {
                (Ok(None), s)
            }
        }
    }

    /// A positive receipt moves a publication to its release, and a repeated one repeats the
    /// release; a negative one ends the exchange.
    pub open spec fn on_pubrec(self, rec: PubRecModel) -> (Outcome, StateModel) {
        let id = rec.pkid;
        let rel = Ok(Some(PacketModel::PubRel(pubrel_model(id))));
        if is_set(self.outgoing_rel, id as int) {
            if rec.reason.number() >= 128 {
                (Err(Refusal::WrongPacket), self)
            } else {
                (rel, self)
            }
        } else if !self.awaits(id, QoS::ExactlyOnce) {
            (Err(Refusal::Unsolicited(id)), self)
        } else if rec.reason.number() >= 128 {
            (Ok(None), self.drop_publication(id))
        } else {
            (
                rel,
                StateModel {
                    outgoing_pub: self.outgoing_pub.update(id as int, None),
                    outgoing_rel: self.outgoing_rel.update(id as int, true),
                    ..self
                }.emit(Outgoing::PubRel(id)),
            )
        }
    }

    /// A release ends an exchange; one that is not known is reported. A release that comes
    /// before the receipt was allowed is refused.
    pub open spec fn on_pubrel(self, id: u16) -> (Outcome, StateModel) {
        if id == 0 || self.incoming_rec[id as int] || self.incoming_ack[id as int] {
            (Err(Refusal::WrongPacket), self)
        } else {
            let known = self.incoming_pub[id as int];
            let reply = Ok(Some(PacketModel::PubComp(pubcomp_model(id, known))));
            if known {
                match self.complete(id) {
                    None => (Err(Refusal::InvalidState), self),
                    Some(s) => (reply, s.emit(Outgoing::PubComp(id))),
                }
            } else {
                (reply, self.emit(Outgoing::PubComp(id)))
            }
        }
    }

    /// A confirmation ends an exchange. After a positive one a publication that waited for the
    /// identifier is handed out and kept until it is acknowledged; after a negative one it goes on
    /// waiting.
    pub open spec fn on_pubcomp(self, comp: PubCompModel) -> (Outcome, StateModel) {
        let id = comp.pkid;
        if !is_set(self.outgoing_rel, id as int) {
            (Err(Refusal::Unsolicited(id)), self)
        } else {
            let s = StateModel {
                outgoing_rel: self.outgoing_rel.update(id as int, false),
                inflight: (self.inflight - 1) as u16,
                ..self
            };
            if comp.reason == PubCompReason::Success && self.collides(id) {
                let p = self.collision->0;
                (Ok(Some(PacketModel::Publish(p))), s.store(p).resolve())
            } else {
                (Ok(None), s)
            }
        }
    }

    /// What a packet does to the exchanges: the answer, the packet as it is reported, and the
    /// state.
    pub open spec fn on_packet(self, packet: PacketModel) -> (Outcome, PacketModel, StateModel) {
        let (outcome, s) = match packet {
            PacketModel::PingResp => self.on_pingresp(),
            PacketModel::SubAck(p) => self.on_suback(p),
            PacketModel::UnsubAck(p) => self.on_unsuback(p),
            PacketModel::PubAck(p) => self.on_puback(p),
            PacketModel::PubRec(p) => self.on_pubrec(p),
            PacketModel::PubRel(p) => self.on_pubrel(p.pkid),
            PacketModel::PubComp(p) => self.on_pubcomp(p),
            PacketModel::ConnAck(p) => self.on_connack(p),
            PacketModel::Disconnect(p) => self.on_disconnect(p),
            _ => (Err(Refusal::WrongPacket), self),
        };
        match packet {
            PacketModel::Publish(p) => {
                let (outcome, q, s) = self.on_publish(p);
                (outcome, PacketModel::Publish(q), s)
            },
            _ => (outcome, packet, s),
        }
    }

    /// Whether a packet repeats a publication that was delivered before.
    pub open spec fn repeats(self, packet: PacketModel) -> bool {
        packet matches PacketModel::Publish(p) && p.qos == QoS::ExactlyOnce
            && self.incoming_pub[p.pkid as int]
    }

    /// The flags of publications that are still there.
    pub open spec fn keep_flags(self) -> StateModel {
        StateModel {
            transmission_flags: self.transmission_flags.restrict(occupied(self.outgoing_pub)),
            ..self
        }
    }

    /// The state after the exchange of an identifier has ended: its retransmission no longer
    /// takes room in the window, and its time of expiry stops.
    pub open spec fn settle(self, id: u16) -> StateModel {
        StateModel {
            resume_sent: self.resume_sent.update(id as int, false),
            expiring: self.expiring.remove(id),
            ..self
        }
    }

    /// The state after a packet that may have ended an exchange.
    pub open spec fn settled(self, packet: PacketModel) -> StateModel {
        match packet {
            PacketModel::PubAck(p) => self.settle(p.pkid),
            PacketModel::PubComp(p) => self.settle(p.pkid),
            PacketModel::PubRec(p) => if p.reason.number() >= 128 {
                self.settle(p.pkid)
            } else {
                self
            },
            _ => self,
        }
    }

    /// A packet from the network. It is reported in front of what it gives rise to, unless it
    /// repeats a publication.
    pub open spec fn incoming(self, packet: PacketModel) -> (Outcome, StateModel) {
        let (outcome, reported, s) = self.on_packet(packet);
        if outcome is Err {
            (outcome, s)
        } else {
            let t = s.settled(packet);
            let u = if self.repeats(packet) {
                t
            } else {
                StateModel {
                    events: t.events.insert(
                        self.events.len() as int,
                        EventModel::Incoming(reported),
                    ),
                    ..t
                }
            };
            (outcome, u.keep_flags())
        }
    }

    // Sessions ---------------------------------------------------------------------------

    /// The requests that were in flight.
    pub open spec fn pending_requests(self) -> Seq<RequestModel> {
        let p = somes(self.outgoing_pub);
        let r = numbers(positions(self.outgoing_rel));
        Seq::new(p.len(), |i: int| RequestModel::Publish(p[i])) + Seq::new(
            r.len(),
            |i: int| RequestModel::PubRel(pubrel_model(r[i])),
        )
    }

    /// The state without any exchange.
    pub open spec fn cleaned(self) -> StateModel {
        StateModel {
            transmission_flags: Map::empty(),
            outgoing_pub: no_publications(self.outgoing_pub.len()),
            outgoing_rel: all_clear(self.outgoing_rel.len()),
            incoming_pub: all_clear(self.incoming_pub.len()),
            incoming_ack: all_clear(self.incoming_ack.len()),
            incoming_rec: all_clear(self.incoming_rec.len()),
            incoming_done: Map::empty(),
            outgoing_sub: Map::empty(),
            outgoing_unsub: Map::empty(),
            topic_aliases: Map::empty(),
            outgoing_aliases: Map::empty(),
            resume_queue: Seq::empty(),
            resume_sent: all_clear(self.resume_sent.len()),
            expiring: Map::empty(),
            await_pingresp: false,
            collision_ping_count: 0,
            inflight: 0,
            ..self
        }
    }

    /// The state with a flag that tells whether a controlled writer may have transmitted the
    /// publication of an identifier.
    pub open spec fn flagged(self, id: u16, flag: Arc<AtomicBool>) -> StateModel {
        StateModel { transmission_flags: self.transmission_flags.insert(id, flag), ..self }
    }

    /// Whether readings of the flags tell that, of the tracked publications, those of `unsent`
    /// have not entered the writer and all others may have.
    pub open spec fn tells_unsent(self, unsent: Set<u16>) -> bool {
        &&& unsent.subset_of(self.transmission_flags.dom())
        &&& forall|id: u16| #[trigger]
            self.transmission_flags.contains_key(id) ==> read_as(
                self.transmission_flags[id],
                !unsent.contains(id),
            )
    }

    /// The state without the publications `unsent`, which never reached the writer.
    pub open spec fn without(self, unsent: Set<u16>) -> StateModel {
        let left = slots_without(self.outgoing_pub, unsent);
        StateModel {
            outgoing_pub: left,
            inflight: (self.inflight - (count(taken(self.outgoing_pub)) - count(
                taken(left),
            ))) as u16,
            transmission_flags: self.transmission_flags.remove_keys(unsent),
            ..self
        }
    }

    /// The state at the start of a new connection of the same session. Aliases and limits are
    /// those of a connection and start over; exchanges stay. Releases are queued to be sent again
    /// in front of publications.
    pub open spec fn resumed(self, unsent: Set<u16>) -> StateModel {
        let s = self.without(unsent).keep_flags();
        StateModel {
            expiring: s.expiring.restrict(occupied(s.outgoing_pub)),
            await_pingresp: false,
            collision_ping_count: 0,
            events: Seq::empty(),
            topic_aliases: Map::empty(),
            outgoing_aliases: Map::empty(),
            broker_topic_alias_max: 0,
            max_outgoing_inflight: s.upper_limit,
            resume_sent: all_clear(s.resume_sent.len()),
            resume_queue: numbers(positions(s.outgoing_rel)) + numbers(
                positions(taken(s.outgoing_pub)),
            ),
            outgoing_sub: Map::empty(),
            outgoing_unsub: Map::empty(),
            ..s
        }
    }

    /// Whether a packet can be sent again: a release, or a publication within the window.
    pub open spec fn has_resumed(self) -> bool {
        self.resume_queue.len() > 0 && (is_set(
            self.outgoing_rel,
            self.resume_queue[0] as int,
        ) || count(self.resume_sent) < self.max_outgoing_inflight)
    }

    /// The state without the first packet of the queue.
    pub open spec fn unqueued(self) -> StateModel {
        StateModel { resume_queue: self.resume_queue.skip(1), ..self }
    }

    /// The publication as it is sent again `elapsed` seconds after it was accepted: marked as
    /// repeated, under its topic, with the rest of its time.
    pub open spec fn repeated(p: PublishModel, elapsed: u64) -> PublishModel {
        PublishModel {
            dup: true,
            properties: match p.properties {
                Some(v) => Some(
                    PublishPropertiesModel {
                        topic_alias: None,
                        message_expiry_interval: match v.message_expiry_interval {
                            Some(n) => Some((n - elapsed) as u32),
                            None => None,
                        },
                        ..v
                    },
                ),
                None => None,
            },
            ..p
        }
    }

    /// Sends one packet again, `elapsed` seconds after it was accepted. A publication that is
    /// gone or has expired gives nothing.
    pub open spec fn resend(self, id: u16, elapsed: u64) -> (Option<PacketModel>, StateModel) {
        if is_set(self.outgoing_rel, id as int) {
            (Some(PacketModel::PubRel(pubrel_model(id))), self)
        } else {
            match self.outgoing_pub[id as int] {
                None => (None, self),
                Some(p) => if expiry_of(p) matches Some(n) && elapsed >= n {
                    (
                        None,
                        StateModel {
                            expiring: self.expiring.remove(id),
                            ..self.drop_publication(id)
                        },
                    )
                } else {
                    (
                        Some(PacketModel::Publish(StateModel::repeated(p, elapsed))),
                        StateModel {
                            resume_sent: self.resume_sent.update(id as int, true),
                            ..self
                        },
                    )
                },
            }
        }
    }

    /// Whether the time since a publication was accepted counts: it is not released and can
    /// expire.
    pub open spec fn ages(self, id: u16) -> bool {
        &&& !is_set(self.outgoing_rel, id as int)
        &&& (self.outgoing_pub[id as int] matches Some(p) && expiry_of(p) is Some)
        &&& self.expiring.contains_key(id)
    }

    /// Whether the seconds are those that the clock told to have passed since the publications
    /// were accepted.
    pub open spec fn tells_elapsed(self, told: Map<u16, u64>) -> bool {
        forall|id: u16| #[trigger]
            told.contains_key(id) ==> self.expiring.contains_key(id) && passed(
                self.expiring[id],
                told[id],
            )
    }

    /// The next packet that is sent again, where `told` gives the seconds since a publication was
    /// accepted. `None` where it lacks a publication whose time counts.
    pub open spec fn next_resumed(self, told: Map<u16, u64>) -> Option<
        (Option<PacketModel>, StateModel),
    >
        decreases self.resume_queue.len(),
    {
        if !self.has_resumed() {
            Some((None, self))
        } else {
            let id = self.resume_queue[0];
            if self.ages(id) && !told.contains_key(id) {
                None
            } else {
                let elapsed = if self.ages(id) {
                    told[id]
                } else {
                    0
                };
                let (packet, s) = self.unqueued().resend(id, elapsed);
                if packet is Some {
                    Some((packet, s))
                } else {
                    s.next_resumed(told)
                }
            }
        }
    }

    /// Whether acknowledgements for outgoing requests remain outstanding.
    pub open spec fn pending(self) -> bool {
        self.inflight != 0 || !self.outgoing_sub.is_empty() || !self.outgoing_unsub.is_empty()
    }
}

// Laws ---------------------------------------------------------------------------------------

/// A search finds a free identifier, and finds one where there is any.
pub proof fn found_id_is_free(s: StateModel)
    requires
        s.wf(),
    ensures
        s.find_id() matches Some(id) ==> s.free(id as int),
        s.find_id() is None ==> forall|id: int| !(#[trigger] s.free(id)),
{
    found_from_is_free(s, 0);
    if s.find_id() is None {
        assert forall|id: int| !(#[trigger] s.free(id)) by {
            if 0 < id <= s.upper_limit {
                let k = if id > s.last_pkid {
                    id - s.last_pkid - 1
                } else {
                    id + s.upper_limit - s.last_pkid - 1
                };
                assert(s.nth_id(k) == id);
            }
        }
    }
}

pub proof fn found_from_is_free(s: StateModel, k: int)
    requires
        s.wf(),
        0 <= k <= s.upper_limit,
    ensures
        s.find_from(k) matches Some(id) ==> s.free(id as int) && 0 < id <= s.upper_limit,
        s.find_from(k) is None ==> forall|j: int|
            k <= j < s.upper_limit ==> !s.free(#[trigger] s.nth_id(j)),
    decreases s.upper_limit - k,
{
    if k < s.upper_limit && !s.free(s.nth_id(k)) {
        found_from_is_free(s, k + 1);
        if s.find_from(k) is None {
            assert forall|j: int| k <= j < s.upper_limit implies !s.free(
                #[trigger] s.nth_id(j),
            ) by {
                if j > k {
                    assert(k + 1 <= j);
                }
            }
        }
    }
}

/// A new state is well formed.
pub proof fn initial_is_wf(max_inflight: u16, manual_acks: bool)
    ensures
        StateModel::initial(max_inflight, manual_acks).wf(),
{
    let s = StateModel::initial(max_inflight, manual_acks);
    crate::bitset::count_clear(taken(s.outgoing_pub));
    crate::bitset::count_clear(s.outgoing_rel);
}

/// A search for an identifier keeps the state well formed.
pub proof fn searched_is_wf(s: StateModel)
    requires
        s.wf(),
    ensures
        s.searched().wf(),
{
    found_from_is_free(s, 0);
}

/// The number of publications after a slot has changed.
pub proof fn taken_update(slots: Seq<Option<PublishModel>>, i: int, p: Option<PublishModel>)
    requires
        0 <= i < slots.len(),
    ensures
        count(taken(slots.update(i, p))) == count(taken(slots)) - (if slots[i] is Some {
            1int
        } else {
            0
        }) + (if p is Some {
            1int
        } else {
            0
        }),
        slots[i] is Some ==> count(taken(slots)) > 0,
{
    count_update(taken(slots), i, p is Some);
    assert(taken(slots.update(i, p)) =~= taken(slots).update(i, p is Some));
}

proof fn store_keeps_wf(s: StateModel, p: PublishModel)
    requires
        s.wf(),
        0 < p.pkid <= s.upper_limit,
        p.qos != QoS::AtMostOnce,
        s.inflight < u16::MAX,
    ensures
        s.store(p).wf(),
{
    let t = s.store(p);
    taken_update(s.outgoing_pub, p.pkid as int, Some(p));
    assert forall|i: int| 0 <= i <= t.upper_limit implies ((#[trigger] t.outgoing_pub[i]) matches Some(
        q,
    ) ==> q.pkid == i && q.qos != QoS::AtMostOnce) by {
        assert(i != p.pkid ==> t.outgoing_pub[i] == s.outgoing_pub[i]);
    }
}

/// The state without a publication is well formed.
pub proof fn drop_keeps_wf(s: StateModel, id: u16)
    requires
        s.wf(),
        id <= s.upper_limit,
        s.outgoing_pub[id as int] is Some,
    ensures
        s.inflight > 0,
        s.drop_publication(id).wf(),
{
    let t = s.drop_publication(id);
    taken_update(s.outgoing_pub, id as int, None);
    assert forall|i: int| 0 <= i <= t.upper_limit implies ((#[trigger] t.outgoing_pub[i]) matches Some(
        q,
    ) ==> q.pkid == i && q.qos != QoS::AtMostOnce) by {
        assert(i != id ==> t.outgoing_pub[i] == s.outgoing_pub[i]);
    }
}

/// A release that is marked is counted.
pub proof fn release_is_counted(s: StateModel, id: u16)
    requires
        s.wf(),
        is_set(s.outgoing_rel, id as int),
    ensures
        s.inflight > 0,
{
    count_update(s.outgoing_rel, id as int, false);
}

proof fn publish_as_keeps_wf(s: StateModel, p: PublishModel, moment: Instant)
    requires
        s.wf(),
        p.pkid != 0,
        p.qos != QoS::AtMostOnce,
        s.inflight < s.max_outgoing_inflight,
    ensures
        s.publish_as(p, moment).1.wf(),
{
    if s.publish_as(p, moment).0 matches Ok(Some(_)) {
        let e = if expiry_of(p) is Some {
            StateModel { expiring: s.expiring.insert(p.pkid, moment), ..s }
        } else {
            s
        };
        assert(e.wf());
        store_keeps_wf(e, s.retained(p));
    }
}

/// The state after a token was given out is well formed, and the token is above all that were
/// given out before.
pub proof fn mark_keeps_wf(s: StateModel, id: u16)
    requires
        s.wf(),
        id != 0,
        s.incoming_ack[id as int] || s.incoming_pub[id as int],
        !s.incoming_rec[id as int],
    ensures
        s.mark(id as usize) matches Some((token, t)) ==> t.wf() && token % 65536 == id
            && t.incoming_done.contains_key(id as usize) && t.incoming_done[id as usize] == token,
{
    if let Some((token, t)) = s.mark(id as usize) {
        assert forall|k: usize| #[trigger] t.incoming_done.contains_key(k) implies {
            &&& 0 < k < 65536
            &&& t.incoming_done[k] % 65536 == k
            &&& t.incoming_done[k] <= t.next_completion + 65535
            &&& t.incoming_ack[k as int] || t.incoming_pub[k as int]
            &&& !t.incoming_rec[k as int]
        } by {
            if k != id as usize {
                assert(s.incoming_done.contains_key(k));
            }
        }
    }
}

/// The end of an exchange keeps the state well formed.
pub proof fn written_keeps_wf(s: StateModel, token: u64)
    requires
        s.wf(),
    ensures
        s.written(token).wf(),
{
    let t = s.written(token);
    assert forall|k: usize| #[trigger] t.incoming_done.contains_key(k) implies {
        &&& 0 < k < 65536
        &&& t.incoming_done[k] % 65536 == k
        &&& t.incoming_done[k] <= t.next_completion + 65535
        &&& t.incoming_ack[k as int] || t.incoming_pub[k as int]
        &&& !t.incoming_rec[k as int]
    } by {
        assert(s.incoming_done.contains_key(k));
    }
}

proof fn complete_keeps_wf(s: StateModel, id: u16)
    requires
        s.wf(),
        id != 0,
        s.incoming_ack[id as int] || s.incoming_pub[id as int],
        !s.incoming_rec[id as int],
    ensures
        s.complete(id) matches Some(t) ==> t.wf(),
{
    mark_keeps_wf(s, id);
    if let Some((token, t)) = s.mark(id as usize) {
        written_keeps_wf(t, token);
    }
}

proof fn puback_keeps_wf(s: StateModel, p: PubAckModel)
    requires
        s.wf(),
    ensures
        s.puback(p).1.wf(),
{
    if p.pkid != 0 && s.incoming_ack[p.pkid as int] {
        assert(!s.incoming_rec[p.pkid as int]) by {
            assert(!s.incoming_pub[p.pkid as int]);
        }
        complete_keeps_wf(s, p.pkid);
    }
}

/// The state after the application allowed a receipt is well formed.
pub proof fn allowed_is_wf(s: StateModel, id: u16)
    requires
        s.wf(),
    ensures
        (StateModel { incoming_rec: s.incoming_rec.update(id as int, false), ..s }).wf(),
{
    let t = StateModel { incoming_rec: s.incoming_rec.update(id as int, false), ..s };
    assert forall|i: int| 0 <= i < 65536 && #[trigger] t.incoming_rec[i] implies t.incoming_pub[i] by {
        assert(s.incoming_rec[i]);
    }
}

proof fn pubrec_keeps_wf(s: StateModel, p: PubRecModel)
    requires
        s.wf(),
    ensures
        s.pubrec(p).1.wf(),
{
    let id = p.pkid;
    if id != 0 && s.incoming_pub[id as int] && !s.incoming_done.contains_key(id as usize) {
        let t = StateModel { incoming_rec: s.incoming_rec.update(id as int, false), ..s };
        allowed_is_wf(s, id);
        complete_keeps_wf(t, id);
    }
}

/// A request of the client keeps the state well formed.
pub proof fn outgoing_keeps_wf(s: StateModel, request: RequestModel, moment: Instant)
    requires
        s.wf(),
        s.admits(request),
    ensures
        s.outgoing(request, moment).1.wf(),
{
    found_from_is_free(s, 0);
    searched_is_wf(s);
    match request {
        RequestModel::Publish(p) => {
            if s.alias_refusal(p) is None && p.qos != QoS::AtMostOnce && s.inflight
                < s.max_outgoing_inflight {
                if p.pkid != 0 {
                    publish_as_keeps_wf(s, p, moment);
                } else if let Some(id) = s.find_id() {
                    publish_as_keeps_wf(s.searched(), PublishModel { pkid: id, ..p }, moment);
                }
            }
        },
        RequestModel::PubRel(p) => {
            let used = s.release_id(p.pkid) as u16;
            count_update(s.outgoing_rel, used as int, true);
        },
        RequestModel::Subscribe(p) => {},
        RequestModel::Unsubscribe(p) => {},
        RequestModel::PubAck(p) => puback_keeps_wf(s, p),
        RequestModel::PubRec(p) => pubrec_keeps_wf(s, p),
        _ => {},
    }
}

/// The state after an incoming publication was taken in is well formed.
pub proof fn taken_in_is_wf(s: StateModel, id: u16)
    requires
        s.wf(),
        id != 0,
    ensures
        !s.incoming_pub[id as int] ==> (StateModel {
            incoming_ack: s.incoming_ack.update(id as int, true),
            ..s
        }).wf(),
        !s.incoming_pub[id as int] && !s.incoming_ack[id as int] ==> (StateModel {
            incoming_pub: s.incoming_pub.update(id as int, true),
            incoming_rec: s.incoming_rec.update(id as int, true),
            ..s
        }).wf(),
{
    if !s.incoming_pub[id as int] && !s.incoming_ack[id as int] {
        assert(!s.incoming_done.contains_key(id as usize));
    }
}

proof fn receive_keeps_wf(s: StateModel, p: PublishModel)
    requires
        s.wf(),
    ensures
        s.receive(p).1.wf(),
{
    let id = p.pkid as int;
    if id != 0 {
        taken_in_is_wf(s, p.pkid);
        let a = StateModel { incoming_ack: s.incoming_ack.update(id, true), ..s };
        let b = StateModel {
            incoming_pub: s.incoming_pub.update(id, true),
            incoming_rec: s.incoming_rec.update(id, true),
            ..s
        };
        if !s.incoming_pub[id] {
            puback_keeps_wf(a, puback_model(p.pkid));
            if !s.incoming_ack[id] {
                pubrec_keeps_wf(b, pubrec_model(p.pkid));
            }
        }
        pubrec_keeps_wf(s, pubrec_model(p.pkid));
    }
}

/// A publication from the network keeps the state well formed.
pub proof fn on_publish_keeps_wf(s: StateModel, p: PublishModel)
    requires
        s.wf(),
    ensures
        s.on_publish(p).2.wf(),
        s.resolve_alias(p) matches Ok((_, t)) ==> t.wf(),
{
    if let Ok((q, t)) = s.resolve_alias(p) {
        assert(t.wf());
        receive_keeps_wf(t, q);
    }
}

proof fn on_puback_keeps_wf(s: StateModel, ack: PubAckModel)
    requires
        s.wf(),
    ensures
        s.on_puback(ack).1.wf(),
{
    let id = ack.pkid;
    if s.awaits(id, QoS::AtLeastOnce) {
        drop_keeps_wf(s, id);
        if s.collides(id) {
            store_keeps_wf(s.drop_publication(id), s.collision->0);
        }
    }
}

proof fn on_pubrec_keeps_wf(s: StateModel, rec: PubRecModel)
    requires
        s.wf(),
    ensures
        s.on_pubrec(rec).1.wf(),
{
    let id = rec.pkid;
    if !is_set(s.outgoing_rel, id as int) && s.awaits(id, QoS::ExactlyOnce) {
        let t = s.on_pubrec(rec).1;
        drop_keeps_wf(s, id);
        taken_update(s.outgoing_pub, id as int, None);
        count_update(s.outgoing_rel, id as int, true);
        assert forall|i: int| 0 <= i <= t.upper_limit implies ((
        #[trigger] t.outgoing_pub[i]) matches Some(q) ==> q.pkid == i && q.qos
            != QoS::AtMostOnce) by {
            assert(i != id ==> t.outgoing_pub[i] == s.outgoing_pub[i]);
        }
    }
}

proof fn on_pubcomp_keeps_wf(s: StateModel, comp: PubCompModel)
    requires
        s.wf(),
    ensures
        s.on_pubcomp(comp).1.wf(),
{
    let id = comp.pkid;
    if is_set(s.outgoing_rel, id as int) {
        count_update(s.outgoing_rel, id as int, false);
        let t = StateModel {
            outgoing_rel: s.outgoing_rel.update(id as int, false),
            inflight: (s.inflight - 1) as u16,
            ..s
        };
        assert(t.wf());
        if s.collides(id) {
            store_keeps_wf(t, s.collision->0);
        }
    }
}

/// A packet from the network keeps the state well formed.
pub proof fn incoming_keeps_wf(s: StateModel, packet: PacketModel)
    requires
        s.wf(),
    ensures
        s.on_packet(packet).2.wf(),
        s.incoming(packet).1.wf(),
{
    match packet {
        PacketModel::Publish(p) => on_publish_keeps_wf(s, p),
        PacketModel::PubAck(p) => on_puback_keeps_wf(s, p),
        PacketModel::PubRec(p) => on_pubrec_keeps_wf(s, p),
        PacketModel::PubRel(p) => {
            if p.pkid != 0 && !s.incoming_rec[p.pkid as int] && s.incoming_pub[p.pkid as int] {
                complete_keeps_wf(s, p.pkid);
            }
        },
        PacketModel::PubComp(p) => on_pubcomp_keeps_wf(s, p),
        _ => {},
    }
    let t = s.on_packet(packet).2;
    assert(t.wf());
    if s.on_packet(packet).0 is Ok {
        assert(t.settled(packet).wf());
    }
}

/// The end of a session keeps the state well formed.
pub proof fn cleaned_is_wf(s: StateModel)
    requires
        s.wf(),
    ensures
        s.cleaned().wf(),
{
    crate::bitset::count_clear(taken(s.cleaned().outgoing_pub));
    crate::bitset::count_clear(s.cleaned().outgoing_rel);
}

/// The slots without some publications hold no more than before.
pub proof fn slots_without_shrink(slots: Seq<Option<PublishModel>>, unsent: Set<u16>)
    ensures
        count(taken(slots_without(slots, unsent))) <= count(taken(slots)),
    decreases slots.len(),
{
    if slots.len() > 0 {
        slots_without_shrink(slots.drop_last(), unsent);
        assert(taken(slots).drop_last() =~= taken(slots.drop_last()));
        assert(taken(slots_without(slots, unsent)).drop_last() =~= taken(
            slots_without(slots.drop_last(), unsent),
        ));
    }
}

/// The start of a new connection keeps the state well formed.
pub proof fn resumed_is_wf(s: StateModel, unsent: Set<u16>)
    requires
        s.wf(),
    ensures
        s.resumed(unsent).wf(),
        s.without(unsent).wf(),
{
    let t = s.resumed(unsent);
    let left = slots_without(s.outgoing_pub, unsent);
    slots_without_shrink(s.outgoing_pub, unsent);
    assert forall|i: int| 0 <= i <= t.upper_limit implies ((#[trigger] t.outgoing_pub[i]) matches Some(
        q,
    ) ==> q.pkid == i && q.qos != QoS::AtMostOnce) by {
        assert(left[i] is Some ==> left[i] == s.outgoing_pub[i]);
    }
    crate::bitset::positions_are_set(t.outgoing_rel);
    crate::bitset::positions_are_set(taken(t.outgoing_pub));
    assert forall|i: int| 0 <= i < t.resume_queue.len() implies (#[trigger] t.resume_queue[i])
        <= t.upper_limit by {
        let rel = positions(t.outgoing_rel);
        if i < rel.len() {
            assert(rel[i] < t.outgoing_rel.len());
        } else {
            assert(positions(taken(t.outgoing_pub))[i - rel.len()] < t.outgoing_pub.len());
        }
    }
}

/// Sending a packet again keeps the state well formed.
pub proof fn resend_keeps_wf(s: StateModel, id: u16, elapsed: u64)
    requires
        s.wf(),
        id <= s.upper_limit,
    ensures
        s.resend(id, elapsed).1.wf(),
{
    if !is_set(s.outgoing_rel, id as int) && s.outgoing_pub[id as int] is Some {
        drop_keeps_wf(s, id);
    }
}

/// The queue without its first packet keeps the state well formed.
pub proof fn unqueued_is_wf(s: StateModel)
    requires
        s.wf(),
        s.resume_queue.len() > 0,
    ensures
        s.unqueued().wf(),
{
    let t = s.unqueued();
    assert forall|i: int| 0 <= i < t.resume_queue.len() implies (#[trigger] t.resume_queue[i])
        <= t.upper_limit by {
        assert(t.resume_queue[i] == s.resume_queue[i + 1]);
    }
}

/// An answer to an exchange that does not fit is refused and leaves the state as it was: an
/// acknowledgement of the wrong quality of service, a receipt or confirmation that was not
/// awaited, an answer to a subscription that does not fit what was asked for, a ping answer
/// without a ping.
pub proof fn refused_answer_changes_nothing(s: StateModel, packet: PacketModel)
    requires
        s.wf(),
        packet !is Publish,
        s.incoming(packet).0 is Err,
    ensures
        s.incoming(packet).1 == s,
{
}

/// An answer to a ping that was not sent is refused; so are packets that a client does not get,
/// and requests that a client does not make.
pub proof fn unsolicited_is_refused(
    s: StateModel,
    packet: PacketModel,
    request: RequestModel,
    moment: Instant,
)
    requires
        s.wf(),
    ensures
        packet is PingResp && !s.await_pingresp ==> s.incoming(packet).0 is Err,
        packet is Connect || packet is Auth || packet is Subscribe || packet is Unsubscribe
            || packet is PingReq ==> s.incoming(packet) == (
            Err::<Option<PacketModel>, Refusal>(Refusal::WrongPacket),
            s,
        ),
        packet is Disconnect ==> s.incoming(packet).0 is Err && s.incoming(packet).1 == s,
        request is PubComp || request is PingResp || request is SubAck || request is UnsubAck
            ==> s.outgoing(request, moment) == (
            Err::<Option<PacketModel>, Refusal>(Refusal::WrongPacket),
            s,
        ),
{
}

/// A receipt that is repeated is answered with the same release, and the exchange stays.
pub proof fn repeated_receipt_repeats_release(s: StateModel, rec: PubRecModel)
    requires
        s.wf(),
        s.on_pubrec(rec).0 is Ok,
        rec.reason.number() < 128,
    ensures
        ({
            let t = s.on_pubrec(rec).1;
            &&& t.on_pubrec(rec).0 == s.on_pubrec(rec).0
            &&& t.on_pubrec(rec).1 == t
            &&& t.inflight == s.inflight
        }),
{
}

/// A negative receipt ends an exchange: it is neither released nor sent again.
pub proof fn negative_receipt_ends_exchange(s: StateModel, rec: PubRecModel, unsent: Set<u16>)
    requires
        s.wf(),
        s.awaits(rec.pkid, QoS::ExactlyOnce),
        !is_set(s.outgoing_rel, rec.pkid as int),
        rec.reason.number() >= 128,
    ensures
        ({
            let (outcome, t) = s.incoming(PacketModel::PubRec(rec));
            &&& outcome == Ok::<Option<PacketModel>, Refusal>(None)
            &&& t.outgoing_pub[rec.pkid as int] is None
            &&& !is_set(t.outgoing_rel, rec.pkid as int)
            &&& t.inflight == s.inflight - 1
            &&& t.resumed(unsent).outgoing_pub[rec.pkid as int] is None
        }),
{
    drop_keeps_wf(s, rec.pkid);
}

/// An acknowledgement that does not fit the quality of service of a publication is refused, and
/// the publication stays.
pub proof fn wrong_acknowledgement_keeps_publication(
    s: StateModel,
    ack: PubAckModel,
    rec: PubRecModel,
    id: u16,
)
    requires
        s.wf(),
        id <= s.upper_limit,
        s.outgoing_pub[id as int] is Some,
        ack.pkid == id,
        rec.pkid == id,
    ensures
        s.outgoing_pub[id as int]->0.qos == QoS::ExactlyOnce ==> s.incoming(
            PacketModel::PubAck(ack),
        ) == (Err::<Option<PacketModel>, Refusal>(Refusal::Unsolicited(id)), s),
        s.outgoing_pub[id as int]->0.qos == QoS::AtLeastOnce && !s.outgoing_rel[id as int]
            ==> s.incoming(PacketModel::PubRec(rec)) == (
            Err::<Option<PacketModel>, Refusal>(Refusal::Unsolicited(id)),
            s,
        ),
{
}

/// A publication that is refused is not kept: of the state only the place where the search for
/// identifiers goes on can change.
pub proof fn refused_publication_is_not_kept(s: StateModel, p: PublishModel, moment: Instant)
    requires
        s.wf(),
        s.publish(p, moment).0 is Err,
    ensures
        s.publish(p, moment).1 == (StateModel { last_pkid: s.publish(p, moment).1.last_pkid, ..s }),
{
}

/// A publication of the highest quality of service is delivered once: its repetition is not
/// reported, whatever answer it gets.
pub proof fn repetition_is_not_delivered(s: StateModel, p: PublishModel)
    requires
        s.wf(),
        p.qos == QoS::ExactlyOnce,
        s.incoming_pub[p.pkid as int],
    ensures
        ({
            let t = s.incoming(PacketModel::Publish(p)).1;
            &&& s.events.len() <= t.events.len()
            &&& t.events.take(s.events.len() as int) == s.events
            &&& forall|i: int|
                s.events.len() <= i < t.events.len() ==> (#[trigger] t.events[i]) is Outgoing
        }),
{
    let t = s.incoming(PacketModel::Publish(p)).1;
    assert(t.events.take(s.events.len() as int) =~= s.events);
}

/// A release that comes before the application allowed the receipt is refused.
pub proof fn early_release_is_refused(s: StateModel, rel: PubRelModel)
    requires
        s.wf(),
        s.incoming_rec[rel.pkid as int],
    ensures
        s.incoming(PacketModel::PubRel(rel)) == (
            Err::<Option<PacketModel>, Refusal>(Refusal::WrongPacket),
            s,
        ),
{
}

/// A publication beyond the receive maximum is refused and takes no room.
pub proof fn receive_maximum_is_kept(s: StateModel, p: PublishModel)
    requires
        s.wf(),
        p.qos != QoS::AtMostOnce,
        s.incoming_inflight() <= s.receive_maximum,
    ensures
        s.on_publish(p).2.incoming_inflight() <= s.receive_maximum,
        alias_of(p) is None && p.pkid != 0 && p.topic.len() > 0 && valid_utf8(p.topic)
            && !s.incoming_pub[p.pkid as int] && !s.incoming_ack[p.pkid as int]
            && s.incoming_inflight() == s.receive_maximum ==> s.on_publish(p).0 == Err::<
            Option<PacketModel>,
            Refusal,
        >(Refusal::InvalidState),
{
    if let Ok((q, t)) = s.resolve_alias(p) {
        let id = q.pkid as int;
        if id != 0 {
            count_update(t.incoming_ack, id, true);
            count_update(t.incoming_ack, id, false);
            count_update(t.incoming_pub, id, true);
            count_update(t.incoming_pub, id, false);
            count_update(t.incoming_ack.update(id, true), id, false);
            count_update(t.incoming_pub.update(id, true), id, false);
        }
    }
}

/// Where completions are deferred, an exchange takes room in the receive window until its last
/// acknowledgement was written.
pub proof fn credit_returns_when_written(s: StateModel, id: u16)
    requires
        s.wf(),
        s.defer_write_completion,
        id != 0,
        s.incoming_ack[id as int] || s.incoming_pub[id as int],
        !s.incoming_rec[id as int],
        s.complete(id) is Some,
    ensures
        ({
            let t = s.complete(id)->0;
            let token = t.incoming_done[id as usize];
            &&& t.incoming_inflight() == s.incoming_inflight()
            &&& t.incoming_done.contains_key(id as usize)
            &&& t.written(token).incoming_inflight() == s.incoming_inflight() - 1
        }),
{
    mark_keeps_wf(s, id);
    let t = s.complete(id)->0;
    count_update(t.incoming_ack, id as int, false);
    count_update(t.incoming_pub, id as int, false);
}

/// Tokens are never given out twice: a new one is above all tokens of exchanges, and above all
/// that were given out before.
pub proof fn token_is_new(s: StateModel, id: u16)
    requires
        s.wf(),
        !s.incoming_done.contains_key(id as usize),
    ensures
        s.mark(id as usize) matches Some((token, t)) ==> {
            &&& token > s.next_completion + 65535
            &&& token <= t.next_completion + 65535
            &&& forall|k: usize| #[trigger]
                s.incoming_done.contains_key(k) ==> s.incoming_done[k] < token
        },
{
}

/// A token that is not the one of its exchange has no effect. So a token that was reported once
/// has no effect on a later exchange of the same identifier.
pub proof fn stale_token_has_no_effect(s: StateModel, token: u64)
    requires
        s.wf(),
        forall|k: usize| #[trigger] s.incoming_done.contains_key(k) ==> s.incoming_done[k] != token,
    ensures
        s.written(token) == s,
        s.written(token).written(token) == s.written(token),
{
}

/// A repeated release is confirmed with the same token.
pub proof fn repeated_release_keeps_token(s: StateModel, id: u16)
    requires
        s.wf(),
        s.defer_write_completion,
        s.on_pubrel(id).0 is Ok,
        s.incoming_pub[id as int],
    ensures
        ({
            let t = s.on_pubrel(id).1;
            &&& t.on_pubrel(id).0 == s.on_pubrel(id).0
            &&& t.on_pubrel(id).1.incoming_done == t.incoming_done
        }),
{
}

/// An alias stands for the topic that was sent with it last.
pub proof fn alias_stands_for_topic(s: StateModel, p: PublishModel, q: PublishModel)
    requires
        s.wf(),
        p.topic.len() > 0,
        q.topic.len() == 0,
        alias_of(p) is Some,
        alias_of(q) == alias_of(p),
        s.resolve_alias(p) is Ok,
    ensures
        ({
            let t = s.resolve_alias(p)->Ok_0.1;
            &&& t.resolve_alias(q) matches Ok((r, u)) && r.topic == p.topic && u == t
        }),
{
}

/// A request never takes the identifier of a pending request: a publication or subscription that
/// gets an identifier gets one that was free.
pub proof fn identifiers_are_exclusive(s: StateModel, request: RequestModel, moment: Instant)
    requires
        s.wf(),
        s.outgoing(request, moment).0 is Ok,
    ensures
        s.outgoing(request, moment).0 matches Ok(Some(PacketModel::Publish(p))) ==> p.qos
            == QoS::AtMostOnce || s.free(p.pkid as int),
        s.outgoing(request, moment).0 matches Ok(Some(PacketModel::Subscribe(p))) ==> s.free(p.pkid as int),
        s.outgoing(request, moment).0 matches Ok(Some(PacketModel::Unsubscribe(p))) ==> s.free(
            p.pkid as int,
        ),
{
    found_from_is_free(s, 0);
}

/// A new connection of the same session loses no exchange: the publications that reached the
/// writer, the releases and the incoming exchanges stay, and the publications and releases are
/// queued to be sent again. Publications that never reached the writer are gone.
pub proof fn resumption_keeps_exchanges(s: StateModel, unsent: Set<u16>, id: u16)
    requires
        s.wf(),
        id <= s.upper_limit,
    ensures
        ({
            let t = s.resumed(unsent);
            &&& !unsent.contains(id) ==> t.outgoing_pub[id as int] == s.outgoing_pub[id as int]
            &&& unsent.contains(id) ==> t.outgoing_pub[id as int] is None
            &&& t.outgoing_rel == s.outgoing_rel
            &&& t.incoming_pub == s.incoming_pub
            &&& t.incoming_ack == s.incoming_ack
            &&& t.incoming_rec == s.incoming_rec
            &&& t.incoming_done == s.incoming_done
            &&& t.outgoing_pub[id as int] is Some || t.outgoing_rel[id as int]
                ==> t.resume_queue.contains(id)
        }),
{
    let t = s.resumed(unsent);
    let rel = positions(t.outgoing_rel);
    let publications = positions(taken(t.outgoing_pub));
    if t.outgoing_rel[id as int] {
        position_of(t.outgoing_rel, id as int);
        let k = rel.index_of(id as usize);
        assert(t.resume_queue[k] == id);
    } else if t.outgoing_pub[id as int] is Some {
        position_of(taken(t.outgoing_pub), id as int);
        let k = publications.index_of(id as usize);
        assert(t.resume_queue[rel.len() + k] == id);
    }
}

proof fn position_of(s: Seq<bool>, i: int)
    requires
        0 <= i < s.len() <= 65536,
        s[i],
    ensures
        positions(s).contains(i as usize),
    decreases s.len(),
{
    let front = s.drop_last();
    if i == s.len() - 1 {
        assert(positions(s)[positions(s).len() - 1] == i as usize);
    } else {
        position_of(front, i);
        let k = positions(front).index_of(i as usize);
        assert(positions(s)[k] == i as usize);
    }
}

/// A publication is sent again within the window of the new connection: under its identifier,
/// marked as repeated, without an alias, with the rest of its time. One that has expired is not
/// sent again.
pub proof fn resent_publication(s: StateModel, told: Map<u16, u64>)
    requires
        s.wf(),
    ensures
        s.next_resumed(told) matches Some((Some(packet), _)) ==> {
            ||| packet is PubRel
            ||| packet matches PacketModel::Publish(p) && p.dup && alias_of(p) is None
                && p.pkid <= s.upper_limit && (s.outgoing_pub[p.pkid as int] matches Some(q)
                && p.topic == q.topic && p.payload == q.payload && p.qos == q.qos && (expiry_of(
                q,
            ) matches Some(n) ==> expiry_of(p) == Some(
                (n - if s.ages(p.pkid) {
                    told[p.pkid]
                } else {
                    0
                }) as u32,
            ) && (s.ages(p.pkid) ==> told[p.pkid] < n)))
        },
        s.next_resumed(told) matches Some((Some(PacketModel::Publish(_)), _)) ==> count(
            s.resume_sent,
        ) < s.max_outgoing_inflight,
        s.next_resumed(told) matches Some((_, t)) ==> t.wf(),
    decreases s.resume_queue.len(),
{
    if s.has_resumed() {
        let id = s.resume_queue[0];
        let t = s.unqueued();
        unqueued_is_wf(s);
        let e = if s.ages(id) {
            told[id]
        } else {
            0
        };
        resend_keeps_wf(t, id, e);
        let (packet, u) = t.resend(id, e);
        if packet is None && !(s.ages(id) && !told.contains_key(id)) {
            resent_publication(u, told);
            if let Some((Some(PacketModel::Publish(p)), _)) = u.next_resumed(told) {
                assert(u.outgoing_pub[p.pkid as int] is Some ==> u.outgoing_pub[p.pkid as int]
                    == s.outgoing_pub[p.pkid as int]);
                assert(u.ages(p.pkid) == s.ages(p.pkid));
            }
        }
    }
}

/// A publication whose flag never went up is not sent again: it is tracked, no load of its flag
/// gives that it entered the writer, and so a new connection forgets it. One whose flag went up
/// stays.
pub proof fn unsent_is_not_replayed(
    s: StateModel,
    id: u16,
    flag: Arc<AtomicBool>,
    unsent: Set<u16>,
)
    requires
        s.wf(),
        id <= s.upper_limit,
        s.flagged(id, flag).tells_unsent(unsent),
    ensures
        !read_as(flag, true) ==> s.flagged(id, flag).resumed(unsent).outgoing_pub[id as int]
            is None,
        !read_as(flag, false) ==> s.flagged(id, flag).resumed(unsent).outgoing_pub[id as int]
            == s.outgoing_pub[id as int],
{
    assert(s.flagged(id, flag).transmission_flags.contains_key(id));
}

/// A request leaves the flags as they are, and keeps the start of the time of expiry of the
/// publication that it brings, under an identifier that was free, and no other.
#[verifier::spinoff_prover]
#[verifier::rlimit(40)]
pub proof fn request_keeps_flags(s: StateModel, request: RequestModel, moment: Instant)
    requires
        s.wf(),
    ensures
        s.outgoing(request, moment).1.transmission_flags == s.transmission_flags,
        s.outgoing(request, moment).1.expiring == s.expiring || exists|id: u16|
            s.free(id as int) && s.outgoing(request, moment).1.expiring
                == #[trigger] s.expiring.insert(id, moment),
{
    found_from_is_free(s, 0);
    if let RequestModel::Publish(p) = request {
        let used = if p.pkid == 0 && s.find_id() is Some {
            s.find_id()->0
        } else {
            p.pkid
        };
        assert(s.publish(p, moment).1.expiring == s.expiring || s.free(used as int)
            && s.publish(p, moment).1.expiring == s.expiring.insert(used, moment));
    }
}

/// What a publication does to the exchanges leaves flags and times of expiry as they are.
proof fn receipt_keeps_flags(s: StateModel, p: PublishModel)
    ensures
        s.on_publish(p).2.transmission_flags == s.transmission_flags,
        s.on_publish(p).2.expiring == s.expiring,
{
}

/// What a packet does to the exchanges leaves flags and times of expiry as they are.
#[verifier::spinoff_prover]
proof fn packet_keeps_flags(s: StateModel, packet: PacketModel)
    ensures
        s.on_packet(packet).2.transmission_flags == s.transmission_flags,
        s.on_packet(packet).2.expiring == s.expiring,
{
    if let PacketModel::Publish(p) = packet {
        receipt_keeps_flags(s, p);
    }
}

/// A packet leaves the limit and the aliases of the client as they are, and sets one alias of the
/// broker at most.
#[verifier::spinoff_prover]
#[verifier::rlimit(40)]
pub proof fn packet_keeps_aliases(s: StateModel, packet: PacketModel)
    ensures
        ({
            let t = s.incoming(packet).1;
            &&& t.upper_limit == s.upper_limit
            &&& t.outgoing_aliases == s.outgoing_aliases
            &&& t.topic_aliases == s.topic_aliases || (packet matches PacketModel::Publish(p)
                && p.topic.len() > 0 && alias_of(p) is Some && t.topic_aliases
                == s.topic_aliases.insert(alias_of(p)->0, p.topic))
            &&& t.transmission_flags.dom().subset_of(s.transmission_flags.dom())
        }),
{
    packet_keeps_flags(s, packet);
}

/// A flag stays with its publication: a packet drops only those of publications that are gone.
#[verifier::spinoff_prover]
#[verifier::rlimit(40)]
pub proof fn flags_follow_publications(s: StateModel, packet: PacketModel, id: u16)
    requires
        s.wf(),
        id <= s.upper_limit,
        s.transmission_flags.contains_key(id),
    ensures
        ({
            let (outcome, t) = s.incoming(packet);
            &&& outcome is Err ==> t.transmission_flags == s.transmission_flags
            &&& t.outgoing_pub[id as int] is Some ==> t.transmission_flags.contains_key(id)
                && t.transmission_flags[id] == s.transmission_flags[id]
        }),
{
    packet_keeps_flags(s, packet);
}

/// The start of a time of expiry stays until an acknowledgement of its publication comes.
#[verifier::spinoff_prover]
#[verifier::rlimit(40)]
pub proof fn expiry_starts_once(s: StateModel, packet: PacketModel, id: u16)
    requires
        s.wf(),
        s.expiring.contains_key(id),
        packet matches PacketModel::PubAck(p) ==> p.pkid != id,
        packet matches PacketModel::PubRec(p) ==> p.pkid != id,
        packet matches PacketModel::PubComp(p) ==> p.pkid != id,
    ensures
        s.incoming(packet).1.expiring.contains_key(id),
        s.incoming(packet).1.expiring[id] == s.expiring[id],
{
    packet_keeps_flags(s, packet);
}

/// A publication that waited for an identifier and is handed out is kept until it is acknowledged.
pub proof fn handed_out_is_kept(s: StateModel, packet: PacketModel)
    requires
        s.wf(),
    ensures
        s.incoming(packet).0 matches Ok(Some(PacketModel::Publish(p))) ==> {
            let t = s.incoming(packet).1;
            &&& s.collision == Some(p)
            &&& t.collision is None
            &&& t.outgoing_pub[p.pkid as int] == Some(p)
            &&& t.awaits(p.pkid, p.qos)
            &&& t.inflight == s.inflight
        },
{
    if let PacketModel::PubAck(p) = packet {
        if s.awaits(p.pkid, QoS::AtLeastOnce) {
            drop_keeps_wf(s, p.pkid);
        }
    }
    if let PacketModel::PubComp(p) = packet {
        if is_set(s.outgoing_rel, p.pkid as int) {
            release_is_counted(s, p.pkid);
        }
    }
}

/// Events that are taken out or put in leave the state well formed.
pub proof fn events_are_apart(s: StateModel, events: Seq<EventModel>)
    requires
        s.wf(),
    ensures
        (StateModel { events, ..s }).wf(),
{
}

/// A packet only appends events.
pub(crate) proof fn events_grow(s: StateModel, packet: PacketModel)
    ensures
        s.events.len() <= s.on_packet(packet).2.settled(packet).events.len(),
{
}

} // verus!
