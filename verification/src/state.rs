//! The state machine of MQTT 3.1.1.
use fixedbitset::FixedBitSet;
use std::collections::{BTreeMap, VecDeque};
use std::sync::Arc;
use std::sync::atomic::AtomicBool;
use vstd::prelude::*;

use crate::bitset::{bits, count_bound, count_ones};
use crate::event::{Event, EventModel, Incoming, Outgoing, Request, RequestModel};
use crate::mqttbytes::{qos_code, qos_number, self, QoS};
use crate::mqttbytes::v4::{
    Packet, PacketModel, PubAck, PubComp, PubRec, PubRel, Publish, PublishModel, SubAck, Subscribe,
    SubscribeFilter, SubscribeReasonCode, UnsubAck, Unsubscribe,
};
use crate::tables::{listed_before, listed_grows, lists, ordered_keys};
use self::model::{
    acknowledged_is_wf, confirmed_is_wf, events_grow, found_from_is_free, grants,
    incoming_keeps_wf, initial_is_wf, last_after_keeps_wf, occupied, outgoing_keeps_wf,
    received_is_wf, room_for_one, taken_is_counted, uncollided_is_wf, Outcome, StateModel,
};

pub mod conduct;
pub mod memory;
pub mod model;
pub mod session;
pub mod weights;

verus! {

#[verifier::external_type_specification]
#[verifier::external_body]
pub struct ExIoError(std::io::Error);

/// Errors during state handling
#[derive(Debug)]
pub enum StateError {
    /// Io Error while state is passed to network
    Io(std::io::Error),
    /// Invalid state for a given operation
    InvalidState,
    /// Received a packet (ack) which isn't asked for
    Unsolicited(u16),
    /// Last pingreq isn't acked
    AwaitPingResp,
    /// Received a wrong packet while waiting for another packet
    WrongPacket,
    /// Timeout while waiting to resolve collision
    CollisionTimeout,
    /// A Subscribe packet must contain atleast one filter
    EmptySubscription,
    /// Mqtt serialization/deserialization error
    Deserialization(mqttbytes::Error),
    /// Connection closed by peer abruptly
    ConnectionAborted,
}

impl From<mqttbytes::Error> for StateError {
    fn from(value: mqttbytes::Error) -> (r: StateError) {
        StateError::Deserialization(value)
    }
}

impl vstd::std_specs::convert::FromSpecImpl<mqttbytes::Error> for StateError {
    open spec fn obeys_from_spec() -> bool {
        true
    }

    open spec fn from_spec(value: mqttbytes::Error) -> StateError {
        StateError::Deserialization(value)
    }
}

impl From<std::io::Error> for StateError {
    fn from(value: std::io::Error) -> (r: StateError) {
        StateError::Io(value)
    }
}

impl vstd::std_specs::convert::FromSpecImpl<std::io::Error> for StateError {
    open spec fn obeys_from_spec() -> bool {
        true
    }

    open spec fn from_spec(value: std::io::Error) -> StateError {
        StateError::Io(value)
    }
}

/// What the state machine keeps to itself.
#[derive(Debug, Clone)]
pub struct Ledger {
    transmission_flags: BTreeMap<u16, Arc<AtomicBool>>,
    /// QoS 1 publications awaiting an application acknowledgement.
    incoming_ack: FixedBitSet,
    /// QoS 2 publications awaiting an application PUBREC.
    incoming_rec: FixedBitSet,
    /// Subscription acknowledgement correlation, sharing the packet-id namespace.
    outgoing_sub: BTreeMap<u16, Vec<QoS>>,
    outgoing_unsub: FixedBitSet,
}

/// What a ledger holds.
#[verifier::ext_equal]
pub struct LedgerModel {
    pub transmission_flags: Map<u16, Arc<AtomicBool>>,
    pub incoming_ack: Seq<bool>,
    pub incoming_rec: Seq<bool>,
    pub outgoing_sub: Map<u16, Seq<QoS>>,
    pub outgoing_unsub: Seq<bool>,
}

impl View for Ledger {
    type V = LedgerModel;

    closed spec fn view(&self) -> LedgerModel {
        LedgerModel {
            transmission_flags: self.transmission_flags@,
            incoming_ack: bits(self.incoming_ack),
            incoming_rec: bits(self.incoming_rec),
            outgoing_sub: self.outgoing_sub@.map_values(|v: Vec<QoS>| v@),
            outgoing_unsub: bits(self.outgoing_unsub),
        }
    }
}

/// State of the mqtt connection.
// Design: Methods will just modify the state of the object without doing any network operations
// Design: All inflight queues are maintained in a pre initialized vec with index as packet id.
// This is done for 2 reasons
// Bad acks or out of order acks aren't O(n) causing cpu spikes
// Any missing acks from the broker are detected during the next recycled use of packet ids
#[derive(Debug, Clone)]
pub struct MqttState {
    /// Status of last ping
    pub await_pingresp: bool,
    /// Collision ping count. Collisions stop user requests
    /// which inturn trigger pings. Multiple pings without
    /// resolving collisions will result in error
    pub collision_ping_count: usize,
    /// Packet id of the last outgoing packet
    pub last_pkid: u16,
    /// Packet id of the last acked publish
    pub last_puback: u16,
    /// Number of outgoing inflight publishes
    pub inflight: u16,
    /// Maximum number of allowed inflight
    pub max_inflight: u16,
    /// Outgoing QoS 1, 2 publishes which aren't acked yet
    pub outgoing_pub: Vec<Option<Publish>>,
    /// Packet ids of released QoS 2 publishes
    pub outgoing_rel: FixedBitSet,
    /// Packet ids on incoming QoS 2 publishes
    pub incoming_pub: FixedBitSet,
    /// Last collision due to broker not acking in order
    pub collision: Option<Publish>,
    /// Buffered incoming packets
    pub events: VecDeque<Event>,
    /// Indicates if acknowledgements should be send immediately
    pub manual_acks: bool,
    /// What is not for the application
    pub ledger: Ledger,
}

/// What an optional publication holds.
pub open spec fn slot_view(p: Option<Publish>) -> Option<PublishModel> {
    match p {
        Some(p) => Some(p@),
        None => None,
    }
}

/// What a transition answers.
pub open spec fn outcome(r: Result<Option<Packet>, StateError>) -> Outcome {
    match r {
        Ok(Some(p)) => Ok(Some(p@)),
        Ok(None) => Ok(None),
        Err(e) => Err(e),
    }
}

impl View for MqttState {
    type V = StateModel;

    open spec fn view(&self) -> StateModel {
        StateModel {
            transmission_flags: self.ledger@.transmission_flags,
            await_pingresp: self.await_pingresp,
            collision_ping_count: self.collision_ping_count,
            last_pkid: self.last_pkid,
            last_puback: self.last_puback,
            inflight: self.inflight,
            max_inflight: self.max_inflight,
            outgoing_pub: Seq::new(self.outgoing_pub@.len(), |i: int| slot_view(self.outgoing_pub@[i])),
            outgoing_rel: bits(self.outgoing_rel),
            incoming_pub: bits(self.incoming_pub),
            incoming_ack: self.ledger@.incoming_ack,
            incoming_rec: self.ledger@.incoming_rec,
            outgoing_sub: self.ledger@.outgoing_sub,
            outgoing_unsub: self.ledger@.outgoing_unsub,
            collision: slot_view(self.collision),
            events: Seq::new(self.events@.len(), |i: int| self.events@[i]@),
            manual_acks: self.manual_acks,
        }
    }
}

impl MqttState {
    /// Creates new mqtt state. Same state should be used during a
    /// connection for persistent sessions while new state should
    /// instantiated for clean sessions
    pub fn new(max_inflight: u16, manual_acks: bool) -> (r: Self)
        ensures
            r@ == StateModel::initial(max_inflight, manual_acks),
            r@.wf(),
    {
        let slots: usize = max_inflight as usize + 1;
        let r = MqttState {
            await_pingresp: false,
            collision_ping_count: 0,
            last_pkid: 0,
            last_puback: 0,
            inflight: 0,
            max_inflight,
            // index 0 is wasted as 0 is not a valid packet id
            outgoing_pub: empty_slots(slots),
            outgoing_rel: FixedBitSet::with_capacity(slots),
            incoming_pub: FixedBitSet::with_capacity(65536),
            collision: None,
            events: VecDeque::with_capacity(100),
            manual_acks,
            ledger: Ledger {
                transmission_flags: BTreeMap::new(),
                incoming_ack: FixedBitSet::with_capacity(65536),
                incoming_rec: FixedBitSet::with_capacity(65536),
                outgoing_sub: BTreeMap::new(),
                outgoing_unsub: FixedBitSet::with_capacity(slots),
            },
        };
        proof {
            initial_is_wf(max_inflight, manual_acks);
            assert(r@ =~= StateModel::initial(max_inflight, manual_acks));
        }
        r
    }

    /// http://stackoverflow.com/questions/11115364/mqtt-messageid-practical-implementation
    /// Packet ids are incremented till maximum set inflight messages and reset to 1 after that.
    pub fn next_pkid(&mut self) -> (r: u16)
        requires
            old(self)@.last_pkid < u16::MAX,
        ensures
            r == old(self)@.last_pkid + 1,
            final(self)@ == old(self)@.advance(r),
    {
        let next_pkid: u16 = self.last_pkid + 1;
        // When next packet id is at the edge of inflight queue,
        // set await flag. This instructs eventloop to stop
        // processing requests until all the inflight publishes
        // are acked
        if next_pkid == self.max_inflight {
            self.last_pkid = 0;
        } else {
            self.last_pkid = next_pkid;
        }
        assert(self@ =~= old(self)@.advance(next_pkid));
        next_pkid
    }

    fn is_free(&self, id: u16) -> (r: bool)
        requires
            self@.wf(),
            0 < id <= self@.max_inflight,
        ensures
            r == self@.free(id as int),
    {
        broadcast use vstd::std_specs::btree::group_btree_axioms;

        self.outgoing_pub[id as usize].is_none() && !self.outgoing_rel.contains(id as usize)
            && !self.ledger.outgoing_sub.contains_key(&id) && !self.ledger.outgoing_unsub.contains(id as usize)
    }

    /// Find a free identifier without creating a collision/replay request. The
    /// identifier is claimed by the immediately following outgoing transition.
    pub fn next_available_packet_id(&mut self) -> (r: Result<u16, StateError>)
        requires
            old(self)@.wf(),
        ensures
            r == old(self)@.next_available().0,
            final(self)@ == old(self)@.next_available().1,
            final(self)@.wf(),
            r matches Ok(id) ==> old(self)@.free(id as int),
    {
        let ghost s = self@;
        let mut k: u16 = 0;
        proof {
            found_from_is_free(s, 0);
            assert(s =~= StateModel { last_pkid: s.last_pkid, ..s });
        }
        while k < self.max_inflight
            invariant
                s.wf(),
                s == old(self)@,
                k <= s.max_inflight,
                self@ == (StateModel { last_pkid: self@.last_pkid, ..s }),
                self@.last_pkid == s.last_after(k as int),
                s.find_id() == s.find_from(k as int),
            decreases s.max_inflight - k,
        {
            proof {
                last_after_keeps_wf(s, k as int);
            }
            let id: u16 = self.next_pkid();
            proof {
                last_after_keeps_wf(s, k + 1);
                assert(self@ == StateModel { last_pkid: s.last_after(k + 1), ..s });
                assert(self@.free(id as int) == s.free(id as int));
                found_from_is_free(s, k as int);
            }
            if self.is_free(id) {
                assert(self@ =~= s.advance(id));
                return Ok(id);
            }
            k = k + 1;
        }
        assert(self@ =~= s);
        Err(StateError::InvalidState)
    }

    pub fn inflight(&self) -> (r: u16)
        ensures
            r == self@.inflight,
    {
        self.inflight
    }

    /// Whether protocol acknowledgements for outgoing requests remain outstanding.
    pub fn pending(&self) -> (r: bool)
        ensures
            r == self@.pending(),
    {
        proof {
            assert(self@.outgoing_sub.dom() =~= self.ledger.outgoing_sub@.dom());
        }
        self.inflight != 0 || !self.ledger.outgoing_sub.is_empty() || !self.ledger.outgoing_unsub.is_clear()
    }

    /// Incoming QoS exchanges retained by this state machine.
    pub fn incoming_inflight(&self) -> (r: usize)
        requires
            self@.wf(),
        ensures
            r == self@.incoming_inflight(),
    {
        proof {
            count_bound(self@.incoming_ack);
            count_bound(self@.incoming_pub);
        }
        count_ones(&self.ledger.incoming_ack) + count_ones(&self.incoming_pub)
    }

    /// Build the correct manual acknowledgement from the library-owned state.
    /// Passing the returned request through `handle_outgoing_packet` commits it.
    pub fn acknowledgement(&self, id: u16) -> (r: Result<Request, StateError>)
        requires
            self@.wf(),
        ensures
            match self@.acknowledgement(id) {
                Ok(request) => r matches Ok(v) && v@ == request,
                Err(e) => r == Err::<Request, StateError>(e),
            },
    {
        if !self.manual_acks {
            return Err(StateError::InvalidState);
        }
        if self.ledger.incoming_ack.contains(id as usize) {
            Ok(Request::PubAck(PubAck::new(id)))
        } else if self.ledger.incoming_rec.contains(id as usize) {
            Ok(Request::PubRec(PubRec::new(id)))
        } else {
            Err(StateError::Unsolicited(id))
        }
    }

    // Outgoing requests ------------------------------------------------------------------

    /// Consolidates handling of all outgoing mqtt packet logic. Returns a packet which should
    /// be put on to the network by the eventloop
    pub fn handle_outgoing_packet(&mut self, request: Request) -> (r: Result<
        Option<Packet>,
        StateError,
    >)
        requires
            old(self)@.wf(),
            request@ is PingReq && old(self)@.collision is Some ==> old(self)@.collision_ping_count
                < usize::MAX,
        ensures
            outcome(r) == old(self)@.outgoing(request@).0,
            final(self)@ == old(self)@.outgoing(request@).1,
            final(self)@.wf(),
    {
        proof {
            outgoing_keeps_wf(self@, request@);
        }
        match request {
            Request::Publish(publish) => self.outgoing_publish(publish),
            Request::PubRel(pubrel) => self.outgoing_pubrel(pubrel),
            Request::Subscribe(subscribe) => self.outgoing_subscribe(subscribe),
            Request::Unsubscribe(unsubscribe) => self.outgoing_unsubscribe(unsubscribe),
            Request::PingReq(_) => self.outgoing_ping(),
            Request::Disconnect(_) => self.outgoing_disconnect(),
            Request::PubAck(puback) => self.outgoing_puback(puback),
            Request::PubRec(pubrec) => self.outgoing_pubrec(pubrec),
            _ => Err(StateError::WrongPacket),
        }
    }

    fn emit(&mut self, o: Outgoing)
        ensures
            final(self)@ == old(self)@.emit(o),
            final(self).outgoing_pub@ == old(self).outgoing_pub@,
    {
        self.events.push_back(Event::Outgoing(o));
        assert(self@ =~= old(self)@.emit(o));
    }

    fn store(&mut self, publish: Publish)
        requires
            old(self)@.wf(),
            0 < publish.pkid <= old(self)@.max_inflight,
            old(self)@.outgoing_pub[publish.pkid as int] is None,
            !old(self)@.outgoing_rel[publish.pkid as int],
        ensures
            final(self)@ == old(self)@.store(publish@),
    {
        proof {
            room_for_one(self@, publish.pkid as int);
        }
        let id: usize = publish.pkid as usize;
        self.outgoing_pub.set(id, Some(publish));
        self.inflight = self.inflight + 1;
        assert(self@ =~= old(self)@.store(publish@));
    }

    /// Adds next packet identifier to QoS 1 and 2 publish packets and returns
    /// it buy wrapping publish in packet
    pub fn outgoing_publish(&mut self, publish: Publish) -> (r: Result<Option<Packet>, StateError>)
        requires
            old(self)@.wf(),
        ensures
            outcome(r) == old(self)@.publish(publish@).0,
            final(self)@ == old(self)@.publish(publish@).1,
            final(self)@.wf(),
    {
        broadcast use vstd::std_specs::btree::group_btree_axioms;

        let ghost s = self@;
        proof {
            outgoing_keeps_wf(s, RequestModel::Publish(publish@));
        }
        let mut publish = publish;
        if publish.qos != QoS::AtMostOnce {
            if publish.pkid == 0 {
                match self.next_available_packet_id() {
                    Ok(id) => {
                        publish.pkid = id;
                    },
                    Err(e) => return Err(e),
                }
            }
            let pkid: u16 = publish.pkid;
            if self.outgoing_rel.contains(pkid as usize) || self.ledger.outgoing_sub.contains_key(&pkid)
                || self.ledger.outgoing_unsub.contains(pkid as usize) {
                return Err(StateError::InvalidState);
            }
            if pkid as usize >= self.outgoing_pub.len() {
                return Err(StateError::Unsolicited(pkid));
            }
            if self.outgoing_pub[pkid as usize].is_some() {
                let ghost before = self@;
                self.collision = Some(publish);
                assert(self@ =~= StateModel { collision: Some(publish@), ..before });
                self.emit(Outgoing::AwaitAck(pkid));
                return Ok(None);
            }
            // if there is an existing publish at this pkid, this implies that broker hasn't acked this
            // packet yet. This error is possible only when broker isn't acking sequentially
            self.store(publish.clone());
        }
        self.emit(Outgoing::Publish(publish.pkid));
        Ok(Some(Packet::Publish(publish)))
    }

    pub fn outgoing_pubrel(&mut self, pubrel: PubRel) -> (r: Result<Option<Packet>, StateError>)
        requires
            old(self)@.wf(),
        ensures
            outcome(r) == old(self)@.pubrel(pubrel.pkid).0,
            final(self)@ == old(self)@.pubrel(pubrel.pkid).1,
            final(self)@.wf(),
    {
        proof {
            outgoing_keeps_wf(self@, RequestModel::PubRel(pubrel));
        }
        let pubrel = match self.save_pubrel(pubrel) {
            Ok(pubrel) => pubrel,
            Err(e) => return Err(e),
        };
        self.emit(Outgoing::PubRel(pubrel.pkid));
        Ok(Some(Packet::PubRel(pubrel)))
    }

    fn save_pubrel(&mut self, pubrel: PubRel) -> (r: Result<PubRel, StateError>)
        requires
            old(self)@.wf(),
        ensures
            match old(self)@.pubrel(pubrel.pkid) {
                (Ok(Some(PacketModel::PubRel(p))), t) => r == Ok::<PubRel, StateError>(p)
                    && final(self)@.emit(Outgoing::PubRel(p.pkid)) == t,
                (Ok(_), _) => false,
                (Err(e), t) => r == Err::<PubRel, StateError>(e) && final(self)@ == t,
            },
    {
        broadcast use vstd::std_specs::btree::group_btree_axioms;

        let mut pubrel = pubrel;
        if pubrel.pkid == 0 {
            match self.next_available_packet_id() {
                Ok(id) => {
                    pubrel.pkid = id;
                },
                Err(e) => return Err(e),
            }
        }
        let id: usize = pubrel.pkid as usize;
        if id >= self.outgoing_pub.len() || self.outgoing_pub[id].is_some()
            || self.ledger.outgoing_sub.contains_key(&pubrel.pkid) || self.ledger.outgoing_unsub.contains(id) {
            return Err(StateError::InvalidState);
        }
        if !self.outgoing_rel.contains(id) {
            let ghost before = self@;
            proof {
                room_for_one(before, id as int);
            }
            self.outgoing_rel.insert(id);
            self.inflight = self.inflight + 1;
            assert(self@ =~= before.release(pubrel.pkid));
        }
        Ok(pubrel)
    }

    pub fn outgoing_puback(&mut self, puback: PubAck) -> (r: Result<Option<Packet>, StateError>)
        requires
            old(self)@.wf(),
        ensures
            outcome(r) == old(self)@.puback(puback.pkid).0,
            final(self)@ == old(self)@.puback(puback.pkid).1,
            final(self)@.wf(),
    {
        let ghost s = self@;
        proof {
            outgoing_keeps_wf(s, RequestModel::PubAck(puback));
        }
        if !self.ledger.incoming_ack.contains(puback.pkid as usize) {
            return Err(StateError::Unsolicited(puback.pkid));
        }
        self.ledger.incoming_ack.set(puback.pkid as usize, false);
        assert(self@ =~= StateModel {
            incoming_ack: s.incoming_ack.update(puback.pkid as int, false),
            ..s
        });
        self.emit(Outgoing::PubAck(puback.pkid));
        Ok(Some(Packet::PubAck(puback)))
    }

    pub fn outgoing_pubrec(&mut self, pubrec: PubRec) -> (r: Result<Option<Packet>, StateError>)
        requires
            old(self)@.wf(),
        ensures
            outcome(r) == old(self)@.pubrec(pubrec.pkid).0,
            final(self)@ == old(self)@.pubrec(pubrec.pkid).1,
            final(self)@.wf(),
    {
        let ghost s = self@;
        proof {
            outgoing_keeps_wf(s, RequestModel::PubRec(pubrec));
        }
        if !self.incoming_pub.contains(pubrec.pkid as usize) {
            return Err(StateError::Unsolicited(pubrec.pkid));
        }
        self.ledger.incoming_rec.set(pubrec.pkid as usize, false);
        assert(self@ =~= StateModel {
            incoming_rec: s.incoming_rec.update(pubrec.pkid as int, false),
            ..s
        });
        self.emit(Outgoing::PubRec(pubrec.pkid));
        Ok(Some(Packet::PubRec(pubrec)))
    }

    /// check when the last control packet/pingreq packet is received and return
    /// the status which tells if keep alive time has exceeded
    /// NOTE: status will be checked for zero keepalive times also
    pub fn outgoing_ping(&mut self) -> (r: Result<Option<Packet>, StateError>)
        requires
            old(self)@.wf(),
            old(self)@.collision is Some ==> old(self)@.collision_ping_count < usize::MAX,
        ensures
            outcome(r) == old(self)@.ping().0,
            final(self)@ == old(self)@.ping().1,
            final(self)@.wf(),
    {
        let ghost s = self@;
        proof {
            outgoing_keeps_wf(s, RequestModel::PingReq);
        }
        if self.collision.is_some() {
            self.collision_ping_count = self.collision_ping_count + 1;
            if self.collision_ping_count >= 2 {
                assert(self@ =~= s.ping().1);
                return Err(StateError::CollisionTimeout);
            }
        }
        // raise error if last ping didn't receive ack
        if self.await_pingresp {
            assert(self@ =~= s.ping().1);
            return Err(StateError::AwaitPingResp);
        }
        self.await_pingresp = true;
        self.emit(Outgoing::PingReq);
        assert(self@ =~= s.ping().1);
        Ok(Some(Packet::PingReq))
    }

    pub fn outgoing_subscribe(&mut self, subscription: Subscribe) -> (r: Result<
        Option<Packet>,
        StateError,
    >)
        requires
            old(self)@.wf(),
        ensures
            outcome(r) == old(self)@.subscribe(subscription).0,
            final(self)@ == old(self)@.subscribe(subscription).1,
            final(self)@.wf(),
    {
        broadcast use vstd::std_specs::btree::group_btree_axioms;

        let ghost s = self@;
        proof {
            outgoing_keeps_wf(s, RequestModel::Subscribe(subscription));
        }
        let mut subscription = subscription;
        let ghost asked = Seq::new(
            subscription.filters@.len(),
            |i: int| subscription.filters@[i].qos,
        );
        if subscription.filters.len() == 0 {
            return Err(StateError::EmptySubscription);
        }
        let pkid: u16 = match self.next_available_packet_id() {
            Ok(id) => id,
            Err(e) => return Err(e),
        };
        let ghost a = self@;
        subscription.pkid = pkid;
        let levels = requested_qos(&subscription.filters);
        self.ledger.outgoing_sub.insert(pkid, levels);
        assert(self@.outgoing_sub =~= a.outgoing_sub.insert(pkid, asked));
        assert(self@ =~= StateModel { outgoing_sub: a.outgoing_sub.insert(pkid, asked), ..a });
        self.emit(Outgoing::Subscribe(pkid));
        Ok(Some(Packet::Subscribe(subscription)))
    }

    pub fn outgoing_unsubscribe(&mut self, unsub: Unsubscribe) -> (r: Result<
        Option<Packet>,
        StateError,
    >)
        requires
            old(self)@.wf(),
        ensures
            outcome(r) == old(self)@.unsubscribe(unsub).0,
            final(self)@ == old(self)@.unsubscribe(unsub).1,
            final(self)@.wf(),
    {
        let ghost s = self@;
        proof {
            outgoing_keeps_wf(s, RequestModel::Unsubscribe(unsub));
        }
        let mut unsub = unsub;
        if unsub.topics.len() == 0 {
            return Err(StateError::EmptySubscription);
        }
        let pkid: u16 = match self.next_available_packet_id() {
            Ok(id) => id,
            Err(e) => return Err(e),
        };
        let ghost a = self@;
        unsub.pkid = pkid;
        self.ledger.outgoing_unsub.insert(pkid as usize);
        assert(self@ =~= StateModel {
            outgoing_unsub: a.outgoing_unsub.update(pkid as int, true),
            ..a
        });
        self.emit(Outgoing::Unsubscribe(pkid));
        Ok(Some(Packet::Unsubscribe(unsub)))
    }

    pub fn outgoing_disconnect(&mut self) -> (r: Result<Option<Packet>, StateError>)
        requires
            old(self)@.wf(),
        ensures
            outcome(r) == old(self)@.disconnect().0,
            final(self)@ == old(self)@.disconnect().1,
            final(self)@.wf(),
    {
        proof {
            outgoing_keeps_wf(self@, RequestModel::Disconnect);
        }
        self.emit(Outgoing::Disconnect);
        Ok(Some(Packet::Disconnect))
    }

    // Incoming packets -------------------------------------------------------------------

    /// Consolidates handling of all incoming mqtt packets. Returns a `Notification` which for the
    /// user to consume and `Packet` which for the eventloop to put on the network
    /// E.g For incoming QoS1 publish packet, this method returns (Publish, Puback). Publish packet will
    /// be forwarded to user and Pubck packet will be written to network
    pub fn handle_incoming_packet(&mut self, packet: Incoming) -> (r: Result<
        Option<Packet>,
        StateError,
    >)
        requires
            old(self)@.wf(),
        ensures
            outcome(r) == old(self)@.incoming(packet@).0,
            final(self)@ == old(self)@.incoming(packet@).1,
            final(self)@.wf(),
    {
        let ghost s = self@;
        proof {
            incoming_keeps_wf(s, packet@);
        }
        let duplicate = match &packet {
            Packet::Publish(p) => p.qos == QoS::ExactlyOnce && self.incoming_pub.contains(
                p.pkid as usize,
            ),
            _ => false,
        };
        // Only successful first delivery enters the user event stream. Controls
        // for duplicates still progress and are returned to the transport.
        let event_index: usize = self.events.len();
        let handled = match &packet {
            Packet::PingResp => self.handle_incoming_pingresp(),
            Packet::Publish(publish) => self.handle_incoming_publish(publish),
            Packet::SubAck(suback) => self.handle_incoming_suback(suback),
            Packet::UnsubAck(unsuback) => self.handle_incoming_unsuback(unsuback),
            Packet::PubAck(puback) => self.handle_incoming_puback(puback),
            Packet::PubRec(pubrec) => self.handle_incoming_pubrec(pubrec),
            Packet::PubRel(pubrel) => self.handle_incoming_pubrel(pubrel),
            Packet::PubComp(pubcomp) => self.handle_incoming_pubcomp(pubcomp),
            _ => Err(StateError::WrongPacket),
        };
        let outgoing = match handled {
            Ok(outgoing) => outgoing,
            Err(e) => return Err(e),
        };
        let ghost t = self@;
        proof {
            events_grow(s, packet@);
        }
        if !duplicate {
            self.events.insert(event_index, Event::Incoming(packet));
            assert(self@ =~= StateModel {
                events: t.events.insert(event_index as int, EventModel::Incoming(packet@)),
                ..t
            });
        }
        self.keep_flags();
        Ok(outgoing)
    }

    /// Forgets the flags of publications that are gone.
    pub(crate) fn keep_flags(&mut self)
        ensures
            final(self)@ == old(self)@.keep_flags(),
    {
        broadcast use vstd::std_specs::btree::group_btree_axioms;

        let ghost s = self@;
        let ghost present = occupied(s.outgoing_pub);
        let keys = ordered_keys(&self.ledger.transmission_flags);
        let mut i: usize = 0;
        proof {
            assert(listed_before(keys@, 0).difference(present) =~= Set::<u16>::empty());
            assert(s.transmission_flags.remove_keys(Set::empty()) =~= s.transmission_flags);
        }
        while i < keys.len()
            invariant
                i <= keys@.len(),
                s == old(self)@,
                present == occupied(s.outgoing_pub),
                lists(keys@, s.transmission_flags.dom()),
                self@ == (StateModel {
                    transmission_flags: s.transmission_flags.remove_keys(
                        listed_before(keys@, i as int).difference(present),
                    ),
                    ..s
                }),
            decreases keys@.len() - i,
        {
            let id: u16 = keys[i];
            proof {
                listed_grows(keys@, i as int);
            }
            let kept = (id as usize) < self.outgoing_pub.len()
                && self.outgoing_pub[id as usize].is_some();
            if !kept {
                self.ledger.transmission_flags.remove(&id);
            }
            proof {
                let gone = listed_before(keys@, i + 1).difference(present);
                assert(kept == present.contains(id));
                assert(self@.transmission_flags =~= s.transmission_flags.remove_keys(gone));
                assert(self@ =~= StateModel { transmission_flags: self@.transmission_flags, ..s });
            }
            i = i + 1;
        }
        proof {
            assert(keys@.take(i as int) =~= keys@);
            assert(self@.transmission_flags =~= s.keep_flags().transmission_flags);
        }
    }

    pub fn handle_incoming_suback(&mut self, ack: &SubAck) -> (r: Result<
        Option<Packet>,
        StateError,
    >)
        requires
            old(self)@.wf(),
        ensures
            outcome(r) == old(self)@.on_suback(*ack).0,
            final(self)@ == old(self)@.on_suback(*ack).1,
            final(self)@.wf(),
    {
        broadcast use vstd::std_specs::btree::group_btree_axioms;

        let ghost s = self@;
        proof {
            incoming_keeps_wf(s, PacketModel::SubAck(*ack));
        }
        match self.ledger.outgoing_sub.get(&ack.pkid) {
            Some(requested) => {
                if !is_granted(requested, &ack.return_codes) {
                    return Err(StateError::WrongPacket);
                }
            },
            None => return Err(StateError::Unsolicited(ack.pkid)),
        }
        self.ledger.outgoing_sub.remove(&ack.pkid);
        assert(self@.outgoing_sub =~= s.outgoing_sub.remove(ack.pkid));
        assert(self@ =~= StateModel { outgoing_sub: s.outgoing_sub.remove(ack.pkid), ..s });
        Ok(None)
    }

    pub fn handle_incoming_unsuback(&mut self, ack: &UnsubAck) -> (r: Result<
        Option<Packet>,
        StateError,
    >)
        requires
            old(self)@.wf(),
        ensures
            outcome(r) == old(self)@.on_unsuback(ack.pkid).0,
            final(self)@ == old(self)@.on_unsuback(ack.pkid).1,
            final(self)@.wf(),
    {
        proof {
            incoming_keeps_wf(self@, PacketModel::UnsubAck(*ack));
        }
        if !self.ledger.outgoing_unsub.contains(ack.pkid as usize) {
            return Err(StateError::Unsolicited(ack.pkid));
        }
        self.ledger.outgoing_unsub.set(ack.pkid as usize, false);
        assert(self@ =~= old(self)@.on_unsuback(ack.pkid).1);
        Ok(None)
    }

    pub fn handle_incoming_publish(&mut self, publish: &Publish) -> (r: Result<
        Option<Packet>,
        StateError,
    >)
        requires
            old(self)@.wf(),
        ensures
            outcome(r) == old(self)@.on_publish(publish@).0,
            final(self)@ == old(self)@.on_publish(publish@).1,
            final(self)@.wf(),
    {
        let ghost s = self@;
        proof {
            incoming_keeps_wf(s, PacketModel::Publish(publish@));
        }
        let id: usize = publish.pkid as usize;
        if publish.qos != QoS::AtMostOnce && id == 0 {
            return Err(StateError::WrongPacket);
        }
        match publish.qos {
            QoS::AtMostOnce => Ok(None),
            QoS::AtLeastOnce => {
                if self.incoming_pub.contains(id) || (self.ledger.incoming_ack.contains(id)
                    && !publish.dup) {
                    return Err(StateError::WrongPacket);
                }
                self.ledger.incoming_ack.insert(id);
                proof {
                    let t = StateModel {
                        incoming_ack: s.incoming_ack.update(id as int, true),
                        ..s
                    };
                    assert(self@ =~= t);
                    received_is_wf(s, t);
                }
                if !self.manual_acks {
                    return self.outgoing_puback(PubAck::new(publish.pkid));
                }
                Ok(None)
            },
            QoS::ExactlyOnce => {
                if self.ledger.incoming_ack.contains(id) {
                    return Err(StateError::WrongPacket);
                }
                if self.incoming_pub.contains(id) {
                    if !publish.dup {
                        return Err(StateError::WrongPacket);
                    }
                    if self.ledger.incoming_rec.contains(id) {
                        return Ok(None);
                    }
                    return self.outgoing_pubrec(PubRec::new(publish.pkid));
                }
                self.incoming_pub.insert(id);
                self.ledger.incoming_rec.insert(id);
                proof {
                    let t = StateModel {
                        incoming_pub: s.incoming_pub.update(id as int, true),
                        incoming_rec: s.incoming_rec.update(id as int, true),
                        ..s
                    };
                    assert(self@ =~= t);
                    received_is_wf(s, t);
                }
                if !self.manual_acks {
                    return self.outgoing_pubrec(PubRec::new(publish.pkid));
                }
                Ok(None)
            },
        }
    }

    fn awaits(&self, id: u16, qos: QoS) -> (r: bool)
        requires
            self@.wf(),
        ensures
            r == self@.awaits(id, qos),
    {
        if id as usize >= self.outgoing_pub.len() {
            return false;
        }
        match &self.outgoing_pub[id as usize] {
            Some(p) => p.qos == qos,
            None => false,
        }
    }

    pub fn handle_incoming_puback(&mut self, puback: &PubAck) -> (r: Result<
        Option<Packet>,
        StateError,
    >)
        requires
            old(self)@.wf(),
        ensures
            outcome(r) == old(self)@.on_puback(puback.pkid).0,
            final(self)@ == old(self)@.on_puback(puback.pkid).1,
            final(self)@.wf(),
    {
        let ghost s = self@;
        let id: u16 = puback.pkid;
        proof {
            incoming_keeps_wf(s, PacketModel::PubAck(*puback));
        }
        if !self.awaits(id, QoS::AtLeastOnce) {
            return Err(StateError::Unsolicited(id));
        }
        proof {
            taken_is_counted(s, id as int);
        }
        self.last_puback = id;
        self.outgoing_pub.set(id as usize, None);
        self.inflight = self.inflight - 1;
        let ghost t = StateModel {
            last_puback: id,
            outgoing_pub: s.outgoing_pub.update(id as int, None),
            inflight: (s.inflight - 1) as u16,
            ..s
        };
        assert(self@ =~= t);
        proof {
            acknowledged_is_wf(s, id);
        }
        match self.check_collision(id) {
            Some(publish) => {
                proof {
                    uncollided_is_wf(t);
                }
                self.store(publish.clone());
                self.emit(Outgoing::Publish(publish.pkid));
                self.collision_ping_count = 0;
                assert(self@ =~= s.on_puback(id).1);
                Ok(Some(Packet::Publish(publish)))
            },
            None => Ok(None),
        }
    }

    pub fn handle_incoming_pubrec(&mut self, pubrec: &PubRec) -> (r: Result<
        Option<Packet>,
        StateError,
    >)
        requires
            old(self)@.wf(),
        ensures
            outcome(r) == old(self)@.on_pubrec(pubrec.pkid).0,
            final(self)@ == old(self)@.on_pubrec(pubrec.pkid).1,
            final(self)@.wf(),
    {
        let ghost s = self@;
        let id: u16 = pubrec.pkid;
        proof {
            incoming_keeps_wf(s, PacketModel::PubRec(*pubrec));
        }
        if self.outgoing_rel.contains(id as usize) {
            self.emit(Outgoing::PubRel(id));
            return Ok(Some(Packet::PubRel(PubRel::new(id))));
        }
        if !self.awaits(id, QoS::ExactlyOnce) {
            return Err(StateError::Unsolicited(id));
        }
        // NOTE: Inflight - 1 for qos2 in comp
        self.outgoing_pub.set(id as usize, None);
        self.outgoing_rel.insert(id as usize);
        assert(self@ =~= StateModel {
            outgoing_pub: s.outgoing_pub.update(id as int, None),
            outgoing_rel: s.outgoing_rel.update(id as int, true),
            ..s
        });
        self.emit(Outgoing::PubRel(id));
        Ok(Some(Packet::PubRel(PubRel { pkid: id })))
    }

    pub fn handle_incoming_pubrel(&mut self, pubrel: &PubRel) -> (r: Result<
        Option<Packet>,
        StateError,
    >)
        requires
            old(self)@.wf(),
        ensures
            outcome(r) == old(self)@.on_pubrel(pubrel.pkid).0,
            final(self)@ == old(self)@.on_pubrel(pubrel.pkid).1,
            final(self)@.wf(),
    {
        let ghost s = self@;
        let id: u16 = pubrel.pkid;
        proof {
            incoming_keeps_wf(s, PacketModel::PubRel(*pubrel));
        }
        if id == 0 || self.ledger.incoming_ack.contains(id as usize) || self.ledger.incoming_rec.contains(
            id as usize,
        ) {
            return Err(StateError::Unsolicited(id));
        }
        // MQTT 3.1.1 requires PUBCOMP even for an already completed exchange.
        self.incoming_pub.set(id as usize, false);
        assert(self@ =~= StateModel {
            incoming_pub: s.incoming_pub.update(id as int, false),
            ..s
        });
        self.emit(Outgoing::PubComp(id));
        Ok(Some(Packet::PubComp(PubComp { pkid: id })))
    }

    pub fn handle_incoming_pubcomp(&mut self, pubcomp: &PubComp) -> (r: Result<
        Option<Packet>,
        StateError,
    >)
        requires
            old(self)@.wf(),
        ensures
            outcome(r) == old(self)@.on_pubcomp(pubcomp.pkid).0,
            final(self)@ == old(self)@.on_pubcomp(pubcomp.pkid).1,
            final(self)@.wf(),
    {
        let ghost s = self@;
        let id: u16 = pubcomp.pkid;
        proof {
            incoming_keeps_wf(s, PacketModel::PubComp(*pubcomp));
        }
        if !self.outgoing_rel.contains(id as usize) {
            return Err(StateError::Unsolicited(id));
        }
        proof {
            taken_is_counted(s, id as int);
        }
        self.outgoing_rel.set(id as usize, false);
        self.inflight = self.inflight - 1;
        let ghost t = StateModel {
            outgoing_rel: s.outgoing_rel.update(id as int, false),
            inflight: (s.inflight - 1) as u16,
            ..s
        };
        assert(self@ =~= t);
        proof {
            confirmed_is_wf(s, id);
        }
        match self.check_collision(id) {
            Some(publish) => {
                proof {
                    uncollided_is_wf(t);
                }
                self.store(publish.clone());
                self.emit(Outgoing::Publish(publish.pkid));
                self.collision_ping_count = 0;
                assert(self@ =~= s.on_pubcomp(id).1);
                Ok(Some(Packet::Publish(publish)))
            },
            None => {
                assert(self@ =~= s.on_pubcomp(id).1);
                Ok(None)
            },
        }
    }

    pub fn handle_incoming_pingresp(&mut self) -> (r: Result<Option<Packet>, StateError>)
        requires
            old(self)@.wf(),
        ensures
            outcome(r) == old(self)@.on_pingresp().0,
            final(self)@ == old(self)@.on_pingresp().1,
            final(self)@.wf(),
    {
        proof {
            incoming_keeps_wf(self@, PacketModel::PingResp);
        }
        if !self.await_pingresp {
            return Err(StateError::WrongPacket);
        }
        self.await_pingresp = false;
        assert(self@ =~= old(self)@.on_pingresp().1);
        Ok(None)
    }

    fn check_collision(&mut self, pkid: u16) -> (r: Option<Publish>)
        ensures
            if old(self)@.collides(pkid) {
                slot_view(r) == old(self)@.collision && final(self)@ == (StateModel {
                    collision: None,
                    ..old(self)@
                })
            } else {
                r is None && final(self)@ == old(self)@
            },
    {
        let ghost s = self@;
        if let Some(publish) = &self.collision {
            if publish.pkid == pkid {
                let publish = self.collision.take();
                assert(self@ =~= StateModel { collision: None, ..s });
                return publish;
            }
        }
        None
    }
}

/// Slots without a publication.
fn empty_slots(n: usize) -> (r: Vec<Option<Publish>>)
    ensures
        r@.len() == n,
        forall|i: int| 0 <= i < n ==> r@[i] is None,
{
    let mut slots: Vec<Option<Publish>> = Vec::with_capacity(n);
    let mut i: usize = 0;
    while i < n
        invariant
            i <= n,
            slots@.len() == i,
            forall|j: int| 0 <= j < i ==> slots@[j] is None,
        decreases n - i,
    {
        slots.push(None);
        i = i + 1;
    }
    slots
}

/// The quality of service that each filter asks for.
fn requested_qos(filters: &Vec<SubscribeFilter>) -> (r: Vec<QoS>)
    ensures
        r@ == Seq::new(filters@.len(), |i: int| filters@[i].qos),
{
    let mut levels: Vec<QoS> = Vec::with_capacity(filters.len());
    let mut i: usize = 0;
    while i < filters.len()
        invariant
            i <= filters@.len(),
            levels@.len() == i,
            forall|j: int| 0 <= j < i ==> levels@[j] == filters@[j].qos,
        decreases filters@.len() - i,
    {
        levels.push(filters[i].qos);
        i = i + 1;
    }
    assert(levels@ =~= Seq::new(filters@.len(), |i: int| filters@[i].qos));
    levels
}

/// Whether an acknowledgement fits what was asked for.
fn is_granted(requested: &Vec<QoS>, codes: &Vec<SubscribeReasonCode>) -> (r: bool)
    ensures
        r == grants(requested@, codes@),
{
    if requested.len() != codes.len() {
        return false;
    }
    let mut i: usize = 0;
    while i < codes.len()
        invariant
            i <= codes@.len(),
            requested@.len() == codes@.len(),
            forall|j: int|
                0 <= j < i ==> (#[trigger] codes@[j] matches SubscribeReasonCode::Success(qos)
                    ==> qos_number(qos) <= qos_number(requested@[j])),
        decreases codes@.len() - i,
    {
        if let SubscribeReasonCode::Success(qos) = codes[i] {
            if qos_code(qos) > qos_code(requested[i]) {
                assert(!(codes@[i as int] matches SubscribeReasonCode::Success(qos) ==> qos_number(
                    qos,
                ) <= qos_number(requested@[i as int])));
                return false;
            }
        }
        i = i + 1;
    }
    true
}

} // verus!
