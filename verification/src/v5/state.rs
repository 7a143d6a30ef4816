//! The state machine of MQTT 5.
use std::collections::{BTreeMap, HashMap, VecDeque};
use std::sync::atomic::AtomicBool;
use std::sync::Arc;
use std::time::Instant;

use bytes::Bytes;
use fixedbitset::FixedBitSet;
use vstd::prelude::*;

use self::model::{
    alias_fits, alias_of, allowed_is_wf, drop_keeps_wf, expiry_of, found_from_is_free, grants,
    incoming_keeps_wf, initial_is_wf, mark_keeps_wf, occupied, on_publish_keeps_wf,
    outgoing_keeps_wf, release_is_counted, searched_is_wf, taken_in_is_wf, written_keeps_wf,
    Outcome, Refusal, StateModel,
};
use super::event::{Event, EventModel, Incoming, Request, RequestModel};
use super::mqttbytes::v5::connack::{
    connack_properties_have_fields, ConnAck, ConnectReturnCode,
};
use super::mqttbytes::v5::disconnect::{
    disconnect_properties_have_fields, Disconnect, DisconnectReasonCode,
};
use super::mqttbytes::v5::packet::{Packet, PacketModel};
use super::mqttbytes::v5::ping::PingReq;
use super::mqttbytes::v5::property::{pick_field, table, Owner};
use super::mqttbytes::v5::puback::{PubAck, PubAckReason};
use super::mqttbytes::v5::pubcomp::{PubComp, PubCompReason};
use super::mqttbytes::v5::publish::{Publish, PublishModel};
use super::mqttbytes::v5::pubrec::PubRec;
use super::mqttbytes::v5::pubrel::PubRel;
use super::mqttbytes::v5::suback::{SubAck, SubscribeReasonCode};
use super::mqttbytes::v5::subscribe::{Filter, Subscribe, SubscribeModel};
use super::mqttbytes::v5::unsuback::UnsubAck;
use super::mqttbytes::v5::unsubscribe::{Unsubscribe, UnsubscribeModel};
use super::mqttbytes::{self, qos_code, qos_number, QoS};
use crate::bitset::{bits, count_bound, count_ones};
use crate::clock::{is_now, present};
use crate::event::Outgoing;
use crate::memory::{plus, saturated};
use crate::octets::octets;
use crate::tables::{
    hashed_keys, listed_before, listed_grows, lists, ordered_keys, total_len, total_len_empty,
    total_len_insert,
};

pub mod conduct;
pub mod memory;
pub mod model;
pub mod session;
pub mod weights;

verus! {

/// Errors during state handling
#[derive(Debug)]
pub enum StateError {
    /// Io Error while state is passed to network
    Io(std::io::Error),
    Coversion(core::num::TryFromIntError),
    /// Invalid state for a given operation
    InvalidState,
    /// No send quota or unused packet identifier remains.
    OutgoingCapacity,
    /// Received a packet (ack) which isn't asked for
    Unsolicited(u16),
    /// Last pingreq isn't acked
    AwaitPingResp,
    /// Received a wrong packet while waiting for another packet
    WrongPacket,
    /// Timeout while waiting to resolve collision
    CollisionTimeout,
    /// A Subscribe packet must contain atleast one filter
    EmptySubscription,
    /// Mqtt serialization/deserialization error
    Deserialization(mqttbytes::Error),
    /// Cannot use topic alias. It's greater than the broker's maximum
    InvalidAlias { alias: u16, max: u16 },
    /// Cannot send packet. It's greater than the broker's maximum packet size
    OutgoingPacketTooLarge { pkt_size: u32, max: u32 },
    /// Cannot receive packet. It's greater than the client's maximum packet size
    IncomingPacketTooLarge { pkt_size: usize, max: usize },
    /// Server sent disconnect
    ServerDisconnect { reason_code: DisconnectReasonCode, reason_string: Option<String> },
    /// Connection failed
    ConnFail { reason: ConnectReturnCode },
    /// Connection closed by peer abruptly
    ConnectionAborted,
}

impl From<mqttbytes::Error> for StateError {
    fn from(value: mqttbytes::Error) -> (r: StateError) {
        match value {
            mqttbytes::Error::OutgoingPacketTooLarge { pkt_size, max } => {
                StateError::OutgoingPacketTooLarge { pkt_size, max }
            },
            e => StateError::Deserialization(e),
        }
    }
}

impl vstd::std_specs::convert::FromSpecImpl<mqttbytes::Error> for StateError {
    open spec fn obeys_from_spec() -> bool {
        true
    }

    open spec fn from_spec(value: mqttbytes::Error) -> StateError {
        match value {
            mqttbytes::Error::OutgoingPacketTooLarge {
                pkt_size,
                max,
            } => StateError::OutgoingPacketTooLarge { pkt_size, max },
            e => StateError::Deserialization(e),
        }
    }
}

impl From<std::io::Error> for StateError {
    fn from(value: std::io::Error) -> (r: StateError) {
        StateError::Io(value)
    }
}

impl vstd::std_specs::convert::FromSpecImpl<std::io::Error> for StateError {
    open spec fn obeys_from_spec() -> bool {
        true
    }

    open spec fn from_spec(value: std::io::Error) -> StateError {
        StateError::Io(value)
    }
}

impl From<core::num::TryFromIntError> for StateError {
    fn from(value: core::num::TryFromIntError) -> (r: StateError) {
        StateError::Coversion(value)
    }
}

impl vstd::std_specs::convert::FromSpecImpl<core::num::TryFromIntError> for StateError {
    open spec fn obeys_from_spec() -> bool {
        true
    }

    open spec fn from_spec(value: core::num::TryFromIntError) -> StateError {
        StateError::Coversion(value)
    }
}

/// Why a transition was refused.
pub open spec fn refusal(e: StateError) -> Refusal {
    match e {
        StateError::InvalidState => Refusal::InvalidState,
        StateError::OutgoingCapacity => Refusal::OutgoingCapacity,
        StateError::Unsolicited(id) => Refusal::Unsolicited(id),
        StateError::AwaitPingResp => Refusal::AwaitPingResp,
        StateError::WrongPacket => Refusal::WrongPacket,
        StateError::CollisionTimeout => Refusal::CollisionTimeout,
        StateError::EmptySubscription => Refusal::EmptySubscription,
        StateError::InvalidAlias { alias, max } => Refusal::InvalidAlias { alias, max },
        StateError::ServerDisconnect {
            reason_code,
            reason_string,
        } => Refusal::ServerDisconnect {
            reason_code,
            reason_string: match reason_string {
                Some(t) => Some(t@),
                None => None,
            },
        },
        StateError::ConnFail { reason } => Refusal::ConnFail { reason },
        _ => Refusal::Network,
    }
}

/// What a transition answers.
pub open spec fn outcome(r: Result<Option<Packet>, StateError>) -> Outcome {
    match r {
        Ok(Some(p)) => Ok(Some(p@)),
        Ok(None) => Ok(None),
        Err(e) => Err(refusal(e)),
    }
}

/// What an optional publication holds.
pub open spec fn slot_view(p: Option<Publish>) -> Option<PublishModel> {
    match p {
        Some(p) => Some(p@),
        None => None,
    }
}

/// The topics of aliases.
pub open spec fn alias_views(m: Map<u16, Bytes>) -> Map<u16, Seq<u8>> {
    m.map_values(|b: Bytes| octets(b))
}

/// What the state machine keeps to itself.
#[derive(Debug, Clone)]
pub struct Ledger {
    transmission_flags: BTreeMap<u16, Arc<AtomicBool>>,
    /// Map of alias_id->topic
    topic_alises: HashMap<u16, Bytes>,
    /// Upper limit on the maximum number of allowed inflight QoS1 & QoS2 requests
    max_outgoing_inflight_upper_limit: u16,
    incoming_ack: FixedBitSet,
    incoming_rec: FixedBitSet,
    incoming_done: HashMap<usize, u64>,
    next_completion: u64,
    outgoing_sub: HashMap<u16, Vec<QoS>>,
    outgoing_unsub: HashMap<u16, usize>,
    outgoing_aliases: HashMap<u16, Bytes>,
    receive_maximum: usize,
    receive_alias_maximum: u16,
    alias_bytes_maximum: usize,
    defer_write_completion: bool,
    resume_queue: VecDeque<u16>,
    resume_sent: FixedBitSet,
    outgoing_expiry_started: HashMap<u16, Instant>,
}

/// What a ledger holds.
#[verifier::ext_equal]
pub struct LedgerModel {
    pub transmission_flags: Map<u16, Arc<AtomicBool>>,
    pub topic_aliases: Map<u16, Seq<u8>>,
    pub upper_limit: u16,
    pub incoming_ack: Seq<bool>,
    pub incoming_rec: Seq<bool>,
    pub incoming_done: Map<usize, u64>,
    pub next_completion: u64,
    pub outgoing_sub: Map<u16, Seq<QoS>>,
    pub outgoing_unsub: Map<u16, usize>,
    pub outgoing_aliases: Map<u16, Seq<u8>>,
    pub receive_maximum: usize,
    pub receive_alias_maximum: u16,
    pub alias_bytes_maximum: usize,
    pub defer_write_completion: bool,
    pub resume_queue: Seq<u16>,
    pub resume_sent: Seq<bool>,
    pub expiring: Map<u16, Instant>,
}

impl View for Ledger {
    type V = LedgerModel;

    closed spec fn view(&self) -> LedgerModel {
        LedgerModel {
            transmission_flags: self.transmission_flags@,
            topic_aliases: alias_views(self.topic_alises@),
            upper_limit: self.max_outgoing_inflight_upper_limit,
            incoming_ack: bits(self.incoming_ack),
            incoming_rec: bits(self.incoming_rec),
            incoming_done: self.incoming_done@,
            next_completion: self.next_completion,
            outgoing_sub: self.outgoing_sub@.map_values(|v: Vec<QoS>| v@),
            outgoing_unsub: self.outgoing_unsub@,
            outgoing_aliases: alias_views(self.outgoing_aliases@),
            receive_maximum: self.receive_maximum,
            receive_alias_maximum: self.receive_alias_maximum,
            alias_bytes_maximum: self.alias_bytes_maximum,
            defer_write_completion: self.defer_write_completion,
            resume_queue: self.resume_queue@,
            resume_sent: bits(self.resume_sent),
            expiring: self.outgoing_expiry_started@,
        }
    }
}

/// State of the mqtt connection.
// Design: Methods will just modify the state of the object without doing any network operations
// Design: All inflight queues are maintained in a pre initialized vec with index as packet id.
// This is done for 2 reasons
// Bad acks or out of order acks aren't O(n) causing cpu spikes
// Any missing acks from the broker are detected during the next recycled use of packet ids
#[derive(Debug, Clone)]
pub struct MqttState {
    /// Status of last ping
    pub await_pingresp: bool,
    /// Collision ping count. Collisions stop user requests
    /// which inturn trigger pings. Multiple pings without
    /// resolving collisions will result in error
    pub collision_ping_count: usize,
    /// Packet id of the last outgoing packet
    pub last_pkid: u16,
    /// Number of outgoing inflight publishes
    pub inflight: u16,
    /// Outgoing QoS 1, 2 publishes which aren't acked yet
    pub outgoing_pub: Vec<Option<Publish>>,
    /// Packet ids of released QoS 2 publishes
    pub outgoing_rel: FixedBitSet,
    /// Packet ids on incoming QoS 2 publishes
    pub incoming_pub: FixedBitSet,
    /// Last collision due to broker not acking in order
    pub collision: Option<Publish>,
    /// Buffered incoming packets
    pub events: VecDeque<Event>,
    /// Indicates if acknowledgements should be send immediately
    pub manual_acks: bool,
    /// `topic_alias_maximum` RECEIVED via connack packet
    pub broker_topic_alias_max: u16,
    /// Maximum number of allowed inflight QoS1 & QoS2 requests
    pub max_outgoing_inflight: u16,
    /// What is not for the application
    pub ledger: Ledger,
}

impl View for MqttState {
    type V = StateModel;

    open spec fn view(&self) -> StateModel {
        StateModel {
            transmission_flags: self.ledger@.transmission_flags,
            await_pingresp: self.await_pingresp,
            collision_ping_count: self.collision_ping_count,
            last_pkid: self.last_pkid,
            inflight: self.inflight,
            outgoing_pub: Seq::new(
                self.outgoing_pub@.len(),
                |i: int| slot_view(self.outgoing_pub@[i]),
            ),
            outgoing_rel: bits(self.outgoing_rel),
            incoming_pub: bits(self.incoming_pub),
            collision: slot_view(self.collision),
            events: Seq::new(self.events@.len(), |i: int| self.events@[i]@),
            manual_acks: self.manual_acks,
            topic_aliases: self.ledger@.topic_aliases,
            broker_topic_alias_max: self.broker_topic_alias_max,
            max_outgoing_inflight: self.max_outgoing_inflight,
            upper_limit: self.ledger@.upper_limit,
            incoming_ack: self.ledger@.incoming_ack,
            incoming_rec: self.ledger@.incoming_rec,
            incoming_done: self.ledger@.incoming_done,
            next_completion: self.ledger@.next_completion,
            outgoing_sub: self.ledger@.outgoing_sub,
            outgoing_unsub: self.ledger@.outgoing_unsub,
            outgoing_aliases: self.ledger@.outgoing_aliases,
            receive_maximum: self.ledger@.receive_maximum,
            receive_alias_maximum: self.ledger@.receive_alias_maximum,
            alias_bytes_maximum: self.ledger@.alias_bytes_maximum,
            defer_write_completion: self.ledger@.defer_write_completion,
            resume_queue: self.ledger@.resume_queue,
            resume_sent: self.ledger@.resume_sent,
            expiring: self.ledger@.expiring,
        }
    }
}

impl MqttState {
    /// Creates new mqtt state. Same state should be used during a
    /// connection for persistent sessions while new state should
    /// instantiated for clean sessions
    pub fn new(max_inflight: u16, manual_acks: bool) -> (r: Self)
        ensures
            r@ == StateModel::initial(max_inflight, manual_acks),
            r@.wf(),
    {
        let slots: usize = max_inflight as usize + 1;
        let r = MqttState {
            await_pingresp: false,
            collision_ping_count: 0,
            last_pkid: 0,
            inflight: 0,
            // index 0 is wasted as 0 is not a valid packet id
            outgoing_pub: empty_slots(slots),
            outgoing_rel: FixedBitSet::with_capacity(slots),
            incoming_pub: FixedBitSet::with_capacity(65536),
            collision: None,
            events: VecDeque::with_capacity(100),
            manual_acks,
            // Set via CONNACK
            broker_topic_alias_max: 0,
            max_outgoing_inflight: max_inflight,
            ledger: Ledger {
                transmission_flags: BTreeMap::new(),
                topic_alises: HashMap::new(),
                max_outgoing_inflight_upper_limit: max_inflight,
                incoming_ack: FixedBitSet::with_capacity(65536),
                incoming_rec: FixedBitSet::with_capacity(65536),
                incoming_done: HashMap::new(),
                next_completion: 0,
                outgoing_sub: HashMap::new(),
                outgoing_unsub: HashMap::new(),
                outgoing_aliases: HashMap::new(),
                receive_maximum: 65535,
                receive_alias_maximum: 0,
                alias_bytes_maximum: 16 * 1024 * 1024,
                defer_write_completion: false,
                resume_queue: VecDeque::new(),
                resume_sent: FixedBitSet::with_capacity(slots),
                outgoing_expiry_started: HashMap::new(),
            },
        };
        proof {
            initial_is_wf(max_inflight, manual_acks);
            assert(r@ =~= StateModel::initial(max_inflight, manual_acks));
        }
        r
    }

    // Identifiers ------------------------------------------------------------------------

    /// http://stackoverflow.com/questions/11115364/mqtt-messageid-practical-implementation
    /// Packet ids are incremented till maximum set inflight messages and reset to 1 after that.
    pub fn next_pkid(&mut self) -> (r: u16)
        requires
            old(self)@.last_pkid < u16::MAX,
        ensures
            r == old(self)@.last_pkid + 1,
            final(self)@ == old(self)@.advance(r),
    {
        let next_pkid: u16 = self.last_pkid + 1;
        // When next packet id is at the edge of inflight queue,
        // set await flag. This instructs eventloop to stop
        // processing requests until all the inflight publishes
        // are acked
        if next_pkid == self.max_outgoing_inflight {
            self.last_pkid = 0;
        } else {
            self.last_pkid = next_pkid;
        }
        assert(self@ =~= old(self)@.advance(next_pkid));
        next_pkid
    }

    fn is_free(&self, id: u16) -> (r: bool)
        requires
            self@.sized(),
            0 < id <= self@.upper_limit,
        ensures
            r == self@.free(id as int),
    {
        broadcast use vstd::std_specs::hash::group_hash_axioms;

        self.outgoing_pub[id as usize].is_none() && !self.outgoing_rel.contains(id as usize)
            && !self.ledger.outgoing_sub.contains_key(&id) && !self.ledger.outgoing_unsub.contains_key(&id)
    }

    pub fn next_available_packet_id(&mut self) -> (r: Result<u16, StateError>)
        requires
            old(self)@.wf(),
        ensures
            match old(self)@.next_available().0 {
                Ok(id) => r == Ok::<u16, StateError>(id) && old(self)@.free(id as int),
                Err(e) => r matches Err(v) && refusal(v) == e,
            },
            final(self)@ == old(self)@.next_available().1,
            final(self)@.wf(),
    {
        let ghost s = self@;
        proof {
            found_from_is_free(s, 0);
            searched_is_wf(s);
        }
        let mut k: u16 = 0;
        while k < self.ledger.max_outgoing_inflight_upper_limit
            invariant
                s.wf(),
                s == old(self)@,
                k <= s.upper_limit,
                self@ == (StateModel { last_pkid: self@.last_pkid, ..s }),
                k == 0 ==> self@.last_pkid == s.last_pkid,
                k > 0 ==> self@.last_pkid == s.nth_id(k - 1),
                s.find_id() == s.find_from(k as int),
            decreases s.upper_limit - k,
        {
            self.last_pkid =
            if self.last_pkid >= self.ledger.max_outgoing_inflight_upper_limit {
                1
            } else {
                self.last_pkid + 1
            };
            let id: u16 = self.last_pkid;
            proof {
                assert(id == s.nth_id(k as int));
                assert(self@ =~= StateModel { last_pkid: id, ..s });
                assert(self@.free(id as int) == s.free(id as int));
                found_from_is_free(s, k as int);
            }
            if self.is_free(id) {
                if id == self.ledger.max_outgoing_inflight_upper_limit {
                    self.last_pkid = 0;
                }
                assert(self@ =~= s.searched());
                return Ok(id);
            }
            k = k + 1;
        }
        assert(self@ =~= s.searched());
        Err(StateError::OutgoingCapacity)
    }

    pub fn inflight(&self) -> (r: u16)
        ensures
            r == self@.inflight,
    {
        self.inflight
    }

    pub fn pending(&self) -> (r: bool)
        ensures
            r == self@.pending(),
    {
        broadcast use vstd::std_specs::hash::group_hash_axioms;

        proof {
            assert(self@.outgoing_sub.dom() =~= self.ledger.outgoing_sub@.dom());
        }
        self.inflight != 0 || !self.ledger.outgoing_sub.is_empty() || !self.ledger.outgoing_unsub.is_empty()
    }

    pub fn incoming_inflight(&self) -> (r: usize)
        requires
            self@.sized(),
        ensures
            r == self@.incoming_inflight(),
    {
        proof {
            count_bound(self@.incoming_ack);
            count_bound(self@.incoming_pub);
        }
        count_ones(&self.ledger.incoming_ack) + count_ones(&self.incoming_pub)
    }

    /// Sets the limits for what is received. They cannot change while exchanges are open.
    pub fn configure_receive(
        &mut self,
        maximum: u16,
        aliases: u16,
        alias_bytes: usize,
        defer_write_completion: bool,
    ) -> (r: Result<(), StateError>)
        requires
            old(self)@.wf(),
        ensures
            if maximum == 0 || alias_bytes == 0 || old(self)@.incoming_inflight() != 0 {
                r == Err::<(), StateError>(StateError::InvalidState) && final(self)@ == old(self)@
            } else {
                r is Ok && final(self)@ == (StateModel {
                    receive_maximum: maximum as usize,
                    receive_alias_maximum: aliases,
                    alias_bytes_maximum: alias_bytes,
                    defer_write_completion,
                    ..old(self)@
                })
            },
            final(self)@.wf(),
    {
        if maximum == 0 || alias_bytes == 0 || self.incoming_inflight() != 0 {
            return Err(StateError::InvalidState);
        }
        self.ledger.receive_maximum = maximum as usize;
        self.ledger.receive_alias_maximum = aliases;
        self.ledger.alias_bytes_maximum = alias_bytes;
        self.ledger.defer_write_completion = defer_write_completion;
        assert(self@ =~= StateModel {
            receive_maximum: maximum as usize,
            receive_alias_maximum: aliases,
            alias_bytes_maximum: alias_bytes,
            defer_write_completion,
            ..old(self)@
        });
        Ok(())
    }

    /// The kind of acknowledgement that the application owes: 4 for a PUBACK, 5 for a PUBREC.
    pub fn acknowledgement_kind(&self, id: u16) -> (r: Result<u8, StateError>)
        requires
            self@.sized(),
        ensures
            match self@.acknowledgement_kind(id) {
                Ok(kind) => r == Ok::<u8, StateError>(kind),
                Err(e) => r matches Err(v) && refusal(v) == e,
            },
    {
        broadcast use vstd::std_specs::hash::group_hash_axioms;

        let index: usize = id as usize;
        if !self.manual_acks || self.ledger.incoming_done.contains_key(&index) {
            return Err(StateError::InvalidState);
        }
        if self.ledger.incoming_ack.contains(index) {
            Ok(4)
        } else if self.ledger.incoming_rec.contains(index) {
            Ok(5)
        } else {
            Err(StateError::Unsolicited(id))
        }
    }

    // Completion of incoming exchanges ---------------------------------------------------

    fn mark_completing(&mut self, id: usize) -> (r: Result<u64, StateError>)
        requires
            old(self)@.wf(),
            id < 65536,
        ensures
            match old(self)@.mark(id) {
                Some((token, s)) => r == Ok::<u64, StateError>(token) && final(self)@ == s,
                None => r == Err::<u64, StateError>(StateError::InvalidState) && final(self)@
                    == old(self)@,
            },
    {
        broadcast use vstd::std_specs::hash::group_hash_axioms;

        let ghost s = self@;
        if let Some(token) = self.ledger.incoming_done.get(&id) {
            return Ok(*token);
        }
        let next: u64 = match self.ledger.next_completion.checked_add(65536) {
            Some(next) => next,
            None => return Err(StateError::InvalidState),
        };
        self.ledger.next_completion = next;
        let low: u64 = id as u64;
        assert(next | low == next + low) by (bit_vector)
            requires
                next % 65536 == 0,
                low < 65536,
        ;
        let token: u64 = next | low;
        self.ledger.incoming_done.insert(id, token);
        assert(self@ =~= (s.mark(id)->0).1);
        Ok(token)
    }

    /// Physical write tokens remain distinct from reusable MQTT packet identifiers.
    pub fn completion_token(&self, packet: &Packet) -> (r: Option<u64>)
        ensures
            r == match packet@ {
                PacketModel::PubAck(p) => token_of(self@, p.pkid),
                PacketModel::PubRec(p) => token_of(self@, p.pkid),
                PacketModel::PubComp(p) => token_of(self@, p.pkid),
                _ => None,
            },
    {
        broadcast use vstd::std_specs::hash::group_hash_axioms;

        let id: u16 = match packet {
            Packet::PubAck(p) => p.pkid,
            Packet::PubRec(p) => p.pkid,
            Packet::PubComp(p) => p.pkid,
            _ => return None,
        };
        match self.ledger.incoming_done.get(&(id as usize)) {
            Some(token) => Some(*token),
            None => None,
        }
    }

    /// Ends the exchange of a token whose acknowledgement was written.
    pub fn acknowledgement_written(&mut self, token: u64)
        requires
            old(self)@.wf(),
        ensures
            final(self)@ == old(self)@.written(token),
            final(self)@.wf(),
    {
        broadcast use vstd::std_specs::hash::group_hash_axioms;

        let ghost s = self@;
        proof {
            written_keeps_wf(s, token);
            assert(token & 65535 == token % 65536) by (bit_vector);
        }
        let id: usize = (token & 65535) as usize;
        let current = match self.ledger.incoming_done.get(&id) {
            Some(t) => *t == token,
            None => false,
        };
        if current {
            self.ledger.incoming_done.remove(&id);
            self.ledger.incoming_ack.set(id, false);
            self.incoming_pub.set(id, false);
            self.ledger.incoming_rec.set(id, false);
        }
        assert(self@ =~= s.written(token));
    }

    /// Hands out the last acknowledgement of an exchange.
    fn complete(&mut self, id: u16) -> (r: Result<(), StateError>)
        requires
            old(self)@.wf(),
            id != 0,
            old(self)@.incoming_ack[id as int] || old(self)@.incoming_pub[id as int],
            !old(self)@.incoming_rec[id as int],
        ensures
            match old(self)@.complete(id) {
                Some(s) => r is Ok && final(self)@ == s,
                None => r == Err::<(), StateError>(StateError::InvalidState) && final(self)@
                    == old(self)@,
            },
    {
        proof {
            mark_keeps_wf(self@, id);
        }
        let token: u64 = match self.mark_completing(id as usize) {
            Ok(token) => token,
            Err(e) => return Err(e),
        };
        if !self.ledger.defer_write_completion {
            self.acknowledgement_written(token);
        }
        Ok(())
    }

    // Outgoing requests ------------------------------------------------------------------

    /// Consolidates handling of all outgoing mqtt packet logic. Returns a packet which should
    /// be put on to the network by the eventloop
    pub fn handle_outgoing_packet(&mut self, request: Request) -> (r: Result<
        Option<Packet>,
        StateError,
    >)
        requires
            old(self)@.wf(),
            old(self)@.admits(request@),
        ensures
            exists|moment: Instant|
                {
                    &&& (outcome(r), final(self)@) == #[trigger] old(self)@.outgoing(
                        request@,
                        moment,
                    )
                    &&& final(self)@.expiring == old(self)@.expiring || is_now(moment)
                },
            final(self)@.wf(),
    {
        let ghost s = self@;
        let ghost asked = request@;
        proof {
            if asked !is Publish {
                outgoing_keeps_wf(s, asked, arbitrary());
            }
        }
        let r = match request {
            Request::Publish(publish) => self.outgoing_publish(publish),
            Request::PubRel(pubrel) => self.outgoing_pubrel(pubrel),
            Request::Subscribe(subscribe) => self.outgoing_subscribe(subscribe),
            Request::Unsubscribe(unsubscribe) => self.outgoing_unsubscribe(unsubscribe),
            Request::PingReq => self.outgoing_ping(),
            Request::Disconnect => self.outgoing_disconnect(
                DisconnectReasonCode::NormalDisconnection,
            ),
            Request::PubAck(puback) => self.outgoing_puback(puback),
            Request::PubRec(pubrec) => self.outgoing_pubrec(pubrec),
            _ => Err(StateError::WrongPacket),
        };
        proof {
            if let RequestModel::Publish(p) = asked {
                let moment = choose|moment: Instant|
                    (outcome(r), self@) == #[trigger] s.publish(p, moment) && (self@.expiring
                        == s.expiring || is_now(moment));
                assert((outcome(r), self@) == s.outgoing(asked, moment));
            } else {
                assert((outcome(r), self@) == s.outgoing(asked, arbitrary()));
            }
        }
        r
    }

    /// Closes the connection because of a violation of the protocol.
    pub fn handle_protocol_error(&mut self) -> (r: Result<Option<Packet>, StateError>)
        ensures
            outcome(r) == old(self)@.disconnect(DisconnectReasonCode::ProtocolError).0,
            final(self)@ == old(self)@.disconnect(DisconnectReasonCode::ProtocolError).1,
    {
        // send DISCONNECT packet with REASON_CODE 0x82
        self.outgoing_disconnect(DisconnectReasonCode::ProtocolError)
    }

    fn emit(&mut self, o: Outgoing)
        ensures
            final(self)@ == old(self)@.emit(o),
    {
        self.events.push_back(Event::Outgoing(o));
        assert(self@ =~= old(self)@.emit(o));
    }

    fn store(&mut self, publish: Publish)
        requires
            old(self)@.sized(),
            publish.pkid <= old(self)@.upper_limit,
            old(self)@.inflight < u16::MAX,
        ensures
            final(self)@ == old(self)@.store(publish@),
    {
        let id: usize = publish.pkid as usize;
        self.outgoing_pub.set(id, Some(publish));
        self.inflight = self.inflight + 1;
        assert(self@ =~= old(self)@.store(publish@));
    }

    /// Sets the alias of a publication that was handed out, and reports it.
    fn announce(&mut self, publish: &Publish)
        ensures
            final(self)@ == old(self)@.announce(publish@),
    {
        broadcast use vstd::std_specs::hash::group_hash_axioms;

        let ghost s = self@;
        if let Some(alias) = topic_alias(publish) {
            if !publish.topic.is_empty() {
                let topic: &[u8] = &publish.topic;
                self.ledger.outgoing_aliases.insert(alias, Bytes::copy_from_slice(topic));
                assert(self@.outgoing_aliases =~= s.outgoing_aliases.insert(alias, publish@.topic));
                assert(self@ =~= StateModel {
                    outgoing_aliases: s.outgoing_aliases.insert(alias, publish@.topic),
                    ..s
                });
            }
        }
        self.emit(Outgoing::Publish(publish.pkid));
    }

    /// Holds the alias of a publication against the limits.
    fn check_outgoing_alias(&self, publish: &Publish) -> (r: Result<(), StateError>)
        ensures
            match self@.alias_refusal(publish@) {
                None => r is Ok,
                Some(e) => r matches Err(v) && refusal(v) == e,
            },
    {
        broadcast use vstd::std_specs::hash::group_hash_axioms;

        if let Some(alias) = topic_alias(publish) {
            if alias == 0 || alias > self.broker_topic_alias_max {
                return Err(
                    StateError::InvalidAlias { alias, max: self.broker_topic_alias_max },
                );
            }
            if publish.topic.is_empty() {
                if !self.ledger.outgoing_aliases.contains_key(&alias) {
                    return Err(StateError::InvalidState);
                }
            } else {
                return check_alias(
                    &self.ledger.outgoing_aliases,
                    alias,
                    &publish.topic,
                    self.ledger.alias_bytes_maximum,
                );
            }
        }
        Ok(())
    }

    /// Adds next packet identifier to QoS 1 and 2 publish packets and returns
    /// it buy wrapping publish in packet
    pub fn outgoing_publish(&mut self, publish: Publish) -> (r: Result<Option<Packet>, StateError>)
        requires
            old(self)@.wf(),
        ensures
            exists|moment: Instant|
                {
                    &&& (outcome(r), final(self)@) == #[trigger] old(self)@.publish(
                        publish@,
                        moment,
                    )
                    &&& final(self)@.expiring == old(self)@.expiring || is_now(moment)
                },
            final(self)@.wf(),
    {
        let ghost s = self@;
        let ghost asked = publish@;
        let ghost any: Instant = arbitrary();
        proof {
            outgoing_keeps_wf(s, RequestModel::Publish(asked), any);
        }
        let mut publish = publish;
        if let Err(e) = self.check_outgoing_alias(&publish) {
            assert(s.publish(asked, any).1 == self@);
            return Err(e);
        }
        if publish.qos != QoS::AtMostOnce {
            if self.inflight >= self.max_outgoing_inflight {
                assert(s.publish(asked, any).1 == self@);
                return Err(StateError::OutgoingCapacity);
            }
            if publish.pkid == 0 {
                match self.next_available_packet_id() {
                    Ok(id) => {
                        publish.pkid = id;
                    },
                    Err(e) => {
                        assert(s.publish(asked, any).1 == self@);
                        return Err(e);
                    },
                }
            }
            let ghost found = self@;
            let ghost p = publish@;
            let r = self.publish_as(publish);
            proof {
                let moment = choose|moment: Instant|
                    (outcome(r), self@) == #[trigger] found.publish_as(p, moment)
                        && (self@.expiring == found.expiring || is_now(moment));
                outgoing_keeps_wf(s, RequestModel::Publish(asked), moment);
                assert((outcome(r), self@) == s.publish(asked, moment));
            }
            return r;
        }
        self.announce(&publish);
        assert(s.publish(asked, any).1 == self@);
        Ok(Some(Packet::Publish(publish)))
    }

    /// Keeps and hands out a publication that has an identifier.
    fn publish_as(&mut self, publish: Publish) -> (r: Result<Option<Packet>, StateError>)
        requires
            old(self)@.wf(),
            publish.pkid != 0,
            old(self)@.inflight < old(self)@.max_outgoing_inflight,
            alias_of(publish@) is Some && publish@.topic.len() == 0 ==> old(
                self,
            )@.outgoing_aliases.contains_key(alias_of(publish@)->0),
        ensures
            exists|moment: Instant|
                {
                    &&& (outcome(r), final(self)@) == #[trigger] old(self)@.publish_as(
                        publish@,
                        moment,
                    )
                    &&& final(self)@.expiring == old(self)@.expiring || is_now(moment)
                },
    {
        broadcast use vstd::std_specs::hash::group_hash_axioms;

        let ghost s = self@;
        let ghost p = publish@;
        let ghost mut moment: Instant = arbitrary();
        let pkid: u16 = publish.pkid;
        if self.outgoing_rel.contains(pkid as usize) || self.ledger.outgoing_sub.contains_key(&pkid)
            || self.ledger.outgoing_unsub.contains_key(&pkid) {
            assert(self@ == s.publish_as(p, moment).1);
            return Err(StateError::InvalidState);
        }
        if pkid as usize >= self.outgoing_pub.len() {
            assert(self@ == s.publish_as(p, moment).1);
            return Err(StateError::Unsolicited(pkid));
        }
        if self.outgoing_pub[pkid as usize].is_some() {
            self.collision = Some(publish);
            assert(self@ =~= StateModel { collision: Some(publish@), ..s });
            self.emit(Outgoing::AwaitAck(pkid));
            assert(self@ == s.publish_as(p, moment).1);
            return Ok(None);
        }
        // if there is an existing publish at this pkid, this implies that broker hasn't acked this
        // packet yet. This error is possible only when broker isn't acking sequentially
        let mut retained = publish.clone();
        if retained.topic.is_empty() {
            let alias: u16 = match topic_alias(&retained) {
                Some(alias) => alias,
                None => {
                    assert(self@ == s.publish_as(p, moment).1);
                    return Err(StateError::InvalidState);
                },
            };
            retained.topic =
            match self.ledger.outgoing_aliases.get(&alias) {
                Some(topic) => topic.clone(),
                None => return Err(StateError::InvalidState),
            };
        }
        assert(retained@ =~= s.retained(publish@));
        if expiry_interval(&retained).is_some() {
            let start = present();
            self.ledger.outgoing_expiry_started.insert(pkid, start);
            proof {
                moment = start;
            }
            assert(self@.expiring =~= s.expiring.insert(pkid, start));
            assert(self@ =~= StateModel { expiring: s.expiring.insert(pkid, start), ..s });
        }
        self.store(retained);
        self.announce(&publish);
        assert(self@ == s.publish_as(p, moment).1);
        Ok(Some(Packet::Publish(publish)))
    }

    /// Marks a publication as released and hands out the release.
    pub fn outgoing_pubrel(&mut self, pubrel: PubRel) -> (r: Result<Option<Packet>, StateError>)
        requires
            old(self)@.wf(),
            old(self)@.can_release(pubrel.pkid),
        ensures
            outcome(r) == old(self)@.pubrel(pubrel.pkid).0,
            final(self)@ == old(self)@.pubrel(pubrel.pkid).1,
            final(self)@.wf(),
    {
        proof {
            outgoing_keeps_wf(self@, RequestModel::PubRel(pubrel@), arbitrary());
        }
        let pkid: u16 = self.save_pubrel(pubrel.pkid);
        self.emit(Outgoing::PubRel(pkid));
        Ok(Some(Packet::PubRel(PubRel::new(pkid, None))))
    }

    fn save_pubrel(&mut self, pkid: u16) -> (r: u16)
        requires
            old(self)@.wf(),
            old(self)@.can_release(pkid),
        ensures
            r == old(self)@.release_id(pkid),
            final(self)@.emit(Outgoing::PubRel(r)) == old(self)@.pubrel(pkid).1,
    {
        // consider PacketIdentifier(0) as uninitialized packets
        let id: u16 = if pkid == 0 {
            self.next_pkid()
        } else {
            pkid
        };
        let ghost s = self@;
        self.outgoing_rel.insert(id as usize);
        self.inflight = self.inflight + 1;
        assert(self@ =~= StateModel {
            outgoing_rel: s.outgoing_rel.update(id as int, true),
            inflight: (s.inflight + 1) as u16,
            ..s
        });
        id
    }

    pub fn outgoing_puback(&mut self, puback: PubAck) -> (r: Result<Option<Packet>, StateError>)
        requires
            old(self)@.wf(),
        ensures
            outcome(r) == old(self)@.puback(puback@).0,
            final(self)@ == old(self)@.puback(puback@).1,
            final(self)@.wf(),
    {
        broadcast use vstd::std_specs::hash::group_hash_axioms;

        proof {
            outgoing_keeps_wf(self@, RequestModel::PubAck(puback@), arbitrary());
        }
        let pkid: u16 = puback.pkid;
        let id: usize = pkid as usize;
        if id == 0 || !self.ledger.incoming_ack.contains(id) || self.ledger.incoming_done.contains_key(&id) {
            return Err(StateError::Unsolicited(pkid));
        }
        proof {
            assert(self@.incoming_ack[id as int]);
            assert(!self@.incoming_rec[id as int]);
        }
        if let Err(e) = self.complete(pkid) {
            return Err(e);
        }
        self.emit(Outgoing::PubAck(pkid));
        Ok(Some(Packet::PubAck(puback)))
    }

    pub fn outgoing_pubrec(&mut self, pubrec: PubRec) -> (r: Result<Option<Packet>, StateError>)
        requires
            old(self)@.wf(),
        ensures
            outcome(r) == old(self)@.pubrec(pubrec@).0,
            final(self)@ == old(self)@.pubrec(pubrec@).1,
            final(self)@.wf(),
    {
        broadcast use vstd::std_specs::hash::group_hash_axioms;

        let ghost s = self@;
        proof {
            outgoing_keeps_wf(s, RequestModel::PubRec(pubrec@), arbitrary());
            allowed_is_wf(s, pubrec.pkid);
        }
        let pkid: u16 = pubrec.pkid;
        let id: usize = pkid as usize;
        if id == 0 || !self.incoming_pub.contains(id) || self.ledger.incoming_done.contains_key(&id) {
            return Err(StateError::Unsolicited(pkid));
        }
        self.ledger.incoming_rec.set(id, false);
        assert(self@ =~= StateModel { incoming_rec: s.incoming_rec.update(id as int, false), ..s });
        let reason: u8 = u8::from(pubrec.reason);
        if reason >= 128 {
            if let Err(e) = self.complete(pkid) {
                return Err(e);
            }
        }
        self.emit(Outgoing::PubRec(pkid));
        Ok(Some(Packet::PubRec(pubrec)))
    }

    /// check when the last control packet/pingreq packet is received and return
    /// the status which tells if keep alive time has exceeded
    /// NOTE: status will be checked for zero keepalive times also
    pub fn outgoing_ping(&mut self) -> (r: Result<Option<Packet>, StateError>)
        requires
            old(self)@.wf(),
            old(self)@.collision is Some ==> old(self)@.collision_ping_count < usize::MAX,
        ensures
            outcome(r) == old(self)@.ping().0,
            final(self)@ == old(self)@.ping().1,
            final(self)@.wf(),
    {
        let ghost s = self@;
        proof {
            outgoing_keeps_wf(s, RequestModel::PingReq, arbitrary());
        }
        if self.collision.is_some() {
            self.collision_ping_count = self.collision_ping_count + 1;
            if self.collision_ping_count >= 2 {
                assert(self@ =~= s.ping().1);
                return Err(StateError::CollisionTimeout);
            }
        }
        // raise error if last ping didn't receive ack
        if self.await_pingresp {
            assert(self@ =~= s.ping().1);
            return Err(StateError::AwaitPingResp);
        }
        self.await_pingresp = true;
        self.emit(Outgoing::PingReq);
        assert(self@ =~= s.ping().1);
        Ok(Some(Packet::PingReq(PingReq)))
    }

    pub fn outgoing_subscribe(&mut self, subscription: Subscribe) -> (r: Result<
        Option<Packet>,
        StateError,
    >)
        requires
            old(self)@.wf(),
        ensures
            outcome(r) == old(self)@.subscribe(subscription@).0,
            final(self)@ == old(self)@.subscribe(subscription@).1,
            final(self)@.wf(),
    {
        broadcast use vstd::std_specs::hash::group_hash_axioms;

        let ghost s = self@;
        proof {
            outgoing_keeps_wf(s, RequestModel::Subscribe(subscription@), arbitrary());
        }
        let mut subscription = subscription;
        let ghost p = subscription@;
        let ghost asked = Seq::new(p.filters.len(), |i: int| p.filters[i].qos);
        if subscription.filters.len() == 0 {
            return Err(StateError::EmptySubscription);
        }
        let id: u16 = match self.next_available_packet_id() {
            Ok(id) => id,
            Err(e) => return Err(e),
        };
        let ghost a = self@;
        subscription.pkid = id;
        assert(subscription@ =~= SubscribeModel { pkid: id, ..p });
        let levels = requested_qos(&subscription.filters);
        assert(levels@ =~= asked);
        self.ledger.outgoing_sub.insert(id, levels);
        assert(self@.outgoing_sub =~= a.outgoing_sub.insert(id, asked));
        assert(self@ =~= StateModel { outgoing_sub: a.outgoing_sub.insert(id, asked), ..a });
        self.emit(Outgoing::Subscribe(id));
        Ok(Some(Packet::Subscribe(subscription)))
    }

    pub fn outgoing_unsubscribe(&mut self, unsub: Unsubscribe) -> (r: Result<
        Option<Packet>,
        StateError,
    >)
        requires
            old(self)@.wf(),
        ensures
            outcome(r) == old(self)@.unsubscribe(unsub@).0,
            final(self)@ == old(self)@.unsubscribe(unsub@).1,
            final(self)@.wf(),
    {
        broadcast use vstd::std_specs::hash::group_hash_axioms;

        let ghost s = self@;
        proof {
            outgoing_keeps_wf(s, RequestModel::Unsubscribe(unsub@), arbitrary());
        }
        let mut unsub = unsub;
        let ghost p = unsub@;
        if unsub.filters.len() == 0 {
            return Err(StateError::EmptySubscription);
        }
        let id: u16 = match self.next_available_packet_id() {
            Ok(id) => id,
            Err(e) => return Err(e),
        };
        let ghost a = self@;
        unsub.pkid = id;
        assert(unsub@ =~= UnsubscribeModel { pkid: id, ..p });
        let asked: usize = unsub.filters.len();
        self.ledger.outgoing_unsub.insert(id, asked);
        assert(self@ =~= StateModel { outgoing_unsub: a.outgoing_unsub.insert(id, asked), ..a });
        self.emit(Outgoing::Unsubscribe(id));
        Ok(Some(Packet::Unsubscribe(unsub)))
    }

    pub fn outgoing_disconnect(&mut self, reason: DisconnectReasonCode) -> (r: Result<
        Option<Packet>,
        StateError,
    >)
        ensures
            outcome(r) == old(self)@.disconnect(reason).0,
            final(self)@ == old(self)@.disconnect(reason).1,
            old(self)@.wf() ==> final(self)@.wf(),
    {
        self.emit(Outgoing::Disconnect);
        Ok(Some(Packet::Disconnect(Disconnect::new(reason))))
    }

    // Incoming packets -------------------------------------------------------------------

    /// Consolidates handling of all incoming mqtt packets. Returns a `Notification` which for the
    /// user to consume and `Packet` which for the eventloop to put on the network
    /// E.g For incoming QoS1 publish packet, this method returns (Publish, Puback). Publish packet will
    /// be forwarded to user and Pubck packet will be written to network
    pub fn handle_incoming_packet(&mut self, packet: Incoming) -> (r: Result<
        Option<Packet>,
        StateError,
    >)
        requires
            old(self)@.wf(),
        ensures
            outcome(r) == old(self)@.incoming(packet@).0,
            final(self)@ == old(self)@.incoming(packet@).1,
            final(self)@.wf(),
    {
        let ghost s = self@;
        let ghost given = packet@;
        proof {
            incoming_keeps_wf(s, given);
        }
        let mut packet = packet;
        let duplicate = match &packet {
            Packet::Publish(p) => p.qos == QoS::ExactlyOnce && self.incoming_pub.contains(
                p.pkid as usize,
            ),
            _ => false,
        };
        assert(duplicate == s.repeats(given));
        let event_index: usize = self.events.len();
        let outgoing = match self.handle_packet(&mut packet) {
            Ok(outgoing) => outgoing,
            Err(e) => return Err(e),
        };
        self.settle_exchange(&packet);
        let ghost u = self@;
        proof {
            model::events_grow(s, given);
        }
        if !duplicate {
            self.events.insert(event_index, Event::Incoming(packet));
            assert(self@ =~= StateModel {
                events: u.events.insert(event_index as int, EventModel::Incoming(packet@)),
                ..u
            });
        }
        self.keep_flags();
        Ok(outgoing)
    }

    /// What a packet does to the exchanges. A publication gets the topic of its alias.
    fn handle_packet(&mut self, packet: &mut Packet) -> (r: Result<Option<Packet>, StateError>)
        requires
            old(self)@.wf(),
        ensures
            outcome(r) == old(self)@.on_packet(old(packet)@).0,
            final(packet)@ == old(self)@.on_packet(old(packet)@).1,
            final(self)@ == old(self)@.on_packet(old(packet)@).2,
    {
        match packet {
            Packet::PingResp(_) => self.handle_incoming_pingresp(),
            Packet::Publish(publish) => self.handle_incoming_publish(publish),
            Packet::SubAck(suback) => self.handle_incoming_suback(suback),
            Packet::UnsubAck(unsuback) => self.handle_incoming_unsuback(unsuback),
            Packet::PubAck(puback) => self.handle_incoming_puback(puback),
            Packet::PubRec(pubrec) => self.handle_incoming_pubrec(pubrec),
            Packet::PubRel(pubrel) => self.handle_incoming_pubrel(pubrel),
            Packet::PubComp(pubcomp) => self.handle_incoming_pubcomp(pubcomp),
            Packet::ConnAck(connack) => self.handle_incoming_connack(connack),
            Packet::Disconnect(disconn) => self.handle_incoming_disconn(disconn),
            _ => Err(StateError::WrongPacket),
        }
    }

    /// Frees what an exchange that has ended took in the window, and stops its time of expiry.
    fn settle_exchange(&mut self, packet: &Packet)
        requires
            old(self)@.sized(),
            packet@ matches PacketModel::PubAck(p) ==> p.pkid <= old(self)@.upper_limit,
            packet@ matches PacketModel::PubComp(p) ==> p.pkid <= old(self)@.upper_limit,
            packet@ matches PacketModel::PubRec(p) ==> p.pkid <= old(self)@.upper_limit,
        ensures
            final(self)@ == old(self)@.settled(packet@),
    {
        match packet {
            Packet::PubAck(p) => self.settle(p.pkid),
            Packet::PubComp(p) => self.settle(p.pkid),
            Packet::PubRec(p) => {
                let reason: u8 = u8::from(p.reason);
                if reason >= 128 {
                    self.settle(p.pkid);
                }
            },
            _ => {},
        }
    }

    fn settle(&mut self, id: u16)
        requires
            old(self)@.sized(),
            id <= old(self)@.upper_limit,
        ensures
            final(self)@ == old(self)@.settle(id),
    {
        broadcast use vstd::std_specs::hash::group_hash_axioms;

        self.ledger.resume_sent.set(id as usize, false);
        self.ledger.outgoing_expiry_started.remove(&id);
        assert(self@.expiring =~= old(self)@.expiring.remove(id));
        assert(self@ =~= old(self)@.settle(id));
    }

    /// Forgets the flags of publications that are gone.
    pub(crate) fn keep_flags(&mut self)
        ensures
            final(self)@ == old(self)@.keep_flags(),
    {
        broadcast use vstd::std_specs::btree::group_btree_axioms;

        let ghost s = self@;
        let ghost present = occupied(s.outgoing_pub);
        let keys = ordered_keys(&self.ledger.transmission_flags);
        let mut i: usize = 0;
        proof {
            assert(listed_before(keys@, 0).difference(present) =~= Set::<u16>::empty());
            assert(s.transmission_flags.remove_keys(Set::empty()) =~= s.transmission_flags);
        }
        while i < keys.len()
            invariant
                i <= keys@.len(),
                s == old(self)@,
                present == occupied(s.outgoing_pub),
                lists(keys@, s.transmission_flags.dom()),
                self@ == (StateModel {
                    transmission_flags: s.transmission_flags.remove_keys(
                        listed_before(keys@, i as int).difference(present),
                    ),
                    ..s
                }),
            decreases keys@.len() - i,
        {
            let id: u16 = keys[i];
            proof {
                listed_grows(keys@, i as int);
            }
            let kept = (id as usize) < self.outgoing_pub.len()
                && self.outgoing_pub[id as usize].is_some();
            if !kept {
                self.ledger.transmission_flags.remove(&id);
            }
            proof {
                let gone = listed_before(keys@, i + 1).difference(present);
                assert(kept == present.contains(id));
                assert(self@.transmission_flags =~= s.transmission_flags.remove_keys(gone));
                assert(self@ =~= StateModel { transmission_flags: self@.transmission_flags, ..s });
            }
            i = i + 1;
        }
        proof {
            assert(keys@.take(i as int) =~= keys@);
            assert(self@.transmission_flags =~= s.keep_flags().transmission_flags);
        }
    }

    pub fn handle_incoming_suback(&mut self, suback: &SubAck) -> (r: Result<
        Option<Packet>,
        StateError,
    >)
        requires
            old(self)@.wf(),
        ensures
            outcome(r) == old(self)@.on_suback(suback@).0,
            final(self)@ == old(self)@.on_suback(suback@).1,
            final(self)@.wf(),
    {
        broadcast use vstd::std_specs::hash::group_hash_axioms;

        let ghost s = self@;
        proof {
            incoming_keeps_wf(s, PacketModel::SubAck(suback@));
        }
        match self.ledger.outgoing_sub.get(&suback.pkid) {
            Some(requested) => {
                if !is_granted(requested, &suback.return_codes) {
                    return Err(StateError::WrongPacket);
                }
            },
            None => return Err(StateError::Unsolicited(suback.pkid)),
        }
        self.ledger.outgoing_sub.remove(&suback.pkid);
        assert(self@.outgoing_sub =~= s.outgoing_sub.remove(suback.pkid));
        assert(self@ =~= StateModel { outgoing_sub: s.outgoing_sub.remove(suback.pkid), ..s });
        Ok(None)
    }

    pub fn handle_incoming_unsuback(&mut self, unsuback: &UnsubAck) -> (r: Result<
        Option<Packet>,
        StateError,
    >)
        requires
            old(self)@.wf(),
        ensures
            outcome(r) == old(self)@.on_unsuback(unsuback@).0,
            final(self)@ == old(self)@.on_unsuback(unsuback@).1,
            final(self)@.wf(),
    {
        broadcast use vstd::std_specs::hash::group_hash_axioms;

        let ghost s = self@;
        proof {
            incoming_keeps_wf(s, PacketModel::UnsubAck(unsuback@));
        }
        let asked = match self.ledger.outgoing_unsub.get(&unsuback.pkid) {
            Some(n) => *n == unsuback.reasons.len(),
            None => false,
        };
        if !asked {
            return Err(StateError::Unsolicited(unsuback.pkid));
        }
        self.ledger.outgoing_unsub.remove(&unsuback.pkid);
        assert(self@ =~= s.on_unsuback(unsuback@).1);
        Ok(None)
    }

    pub fn handle_incoming_connack(&mut self, connack: &ConnAck) -> (r: Result<
        Option<Packet>,
        StateError,
    >)
        requires
            old(self)@.wf(),
        ensures
            outcome(r) == old(self)@.on_connack(connack@).0,
            final(self)@ == old(self)@.on_connack(connack@).1,
            final(self)@.wf(),
    {
        proof {
            incoming_keeps_wf(self@, PacketModel::ConnAck(connack@));
        }
        if connack.code != ConnectReturnCode::Success {
            return Err(StateError::ConnFail { reason: connack.code });
        }
        if let Some(props) = &connack.properties {
            proof {
                connack_properties_have_fields(*props);
                pick_field(Owner::ConnAck, props.fields(), 1);
                pick_field(Owner::ConnAck, props.fields(), 6);
                assert(table(Owner::ConnAck)[1] == 33 && table(Owner::ConnAck)[6] == 34);
            }
            if let Some(topic_alias_max) = props.topic_alias_max {
                self.broker_topic_alias_max = topic_alias_max;
            }
            if let Some(max_inflight) = props.receive_max {
                self.max_outgoing_inflight =
                if max_inflight <= self.ledger.max_outgoing_inflight_upper_limit {
                    max_inflight
                } else {
                    self.ledger.max_outgoing_inflight_upper_limit
                };
            }
        }
        assert(self@ =~= old(self)@.on_connack(connack@).1);
        Ok(None)
    }

    pub fn handle_incoming_disconn(&mut self, disconn: &Disconnect) -> (r: Result<
        Option<Packet>,
        StateError,
    >)
        ensures
            outcome(r) == old(self)@.on_disconnect(disconn@).0,
            final(self)@ == old(self)@,
    {
        let reason_code = disconn.reason_code;
        let reason_string = if let Some(props) = &disconn.properties {
            proof {
                disconnect_properties_have_fields(*props);
                pick_field(Owner::Disconnect, props.fields(), 1);
                assert(table(Owner::Disconnect)[1] == 31);
            }
            match &props.reason_string {
                Some(t) => Some(t.clone()),
                None => None,
            }
        } else {
            None
        };
        Err(StateError::ServerDisconnect { reason_code, reason_string })
    }

    /// Gives an incoming publication the topic of its alias, or sets the alias.
    fn resolve_alias(&mut self, publish: &mut Publish) -> (r: Result<(), StateError>)
        ensures
            match old(self)@.resolve_alias(old(publish)@) {
                Ok((p, s)) => r is Ok && final(publish)@ == p && final(self)@ == s,
                Err(e) => (r matches Err(v) && refusal(v) == e) && final(publish)@ == old(publish)@
                    && final(self)@ == old(self)@,
            },
    {
        broadcast use vstd::std_specs::hash::group_hash_axioms;

        let ghost s = self@;
        let ghost p = publish@;
        if let Some(alias) = topic_alias(publish) {
            if alias == 0 || alias > self.ledger.receive_alias_maximum {
                return Err(StateError::InvalidAlias { alias, max: self.ledger.receive_alias_maximum });
            }
            if publish.topic.is_empty() {
                publish.topic =
                match self.ledger.topic_alises.get(&alias) {
                    Some(topic) => topic.clone(),
                    None => return Err(StateError::InvalidState),
                };
                assert(publish@ =~= PublishModel { topic: s.topic_aliases[alias], ..p });
            } else {
                if let Err(e) = check_alias(
                    &self.ledger.topic_alises,
                    alias,
                    &publish.topic,
                    self.ledger.alias_bytes_maximum,
                ) {
                    return Err(e);
                }
                let topic: &[u8] = &publish.topic;
                self.ledger.topic_alises.insert(alias, Bytes::copy_from_slice(topic));
                assert(self@.topic_aliases =~= s.topic_aliases.insert(alias, p.topic));
                assert(self@ =~= StateModel {
                    topic_aliases: s.topic_aliases.insert(alias, p.topic),
                    ..s
                });
            }
        }
        Ok(())
    }

    /// Results in a publish notification in all the QoS cases. Replys with an ack
    /// in case of QoS1 and Replys rec in case of QoS while also storing the message
    pub fn handle_incoming_publish(&mut self, publish: &mut Publish) -> (r: Result<
        Option<Packet>,
        StateError,
    >)
        requires
            old(self)@.wf(),
        ensures
            outcome(r) == old(self)@.on_publish(old(publish)@).0,
            final(publish)@ == old(self)@.on_publish(old(publish)@).1,
            final(self)@ == old(self)@.on_publish(old(publish)@).2,
            final(self)@.wf(),
    {
        proof {
            on_publish_keeps_wf(self@, publish@);
        }
        if let Err(e) = self.resolve_alias(publish) {
            return Err(e);
        }
        let topic: &[u8] = &publish.topic;
        if publish.topic.is_empty() || core::str::from_utf8(topic).is_err() {
            return Err(StateError::WrongPacket);
        }
        if publish.qos == QoS::AtMostOnce {
            return Ok(None);
        }
        self.receive(publish)
    }

    /// Takes in a publication above the lowest quality of service.
    fn receive(&mut self, publish: &Publish) -> (r: Result<Option<Packet>, StateError>)
        requires
            old(self)@.wf(),
            publish.qos != QoS::AtMostOnce,
        ensures
            outcome(r) == old(self)@.receive(publish@).0,
            final(self)@ == old(self)@.receive(publish@).1,
    {
        broadcast use vstd::std_specs::hash::group_hash_axioms;

        let ghost s = self@;
        let id: usize = publish.pkid as usize;
        if id == 0 {
            return Err(StateError::WrongPacket);
        }
        proof {
            taken_in_is_wf(s, publish.pkid);
        }
        let known = self.incoming_pub.contains(id) || self.ledger.incoming_ack.contains(id);
        if !known && self.incoming_inflight() >= self.ledger.receive_maximum {
            return Err(StateError::InvalidState);
        }
        match publish.qos {
            QoS::AtMostOnce => Ok(None),
            QoS::AtLeastOnce => {
                if self.incoming_pub.contains(id) || (self.ledger.incoming_ack.contains(id)
                    && !publish.dup) {
                    return Err(StateError::WrongPacket);
                }
                self.ledger.incoming_ack.insert(id);
                assert(self@ =~= StateModel {
                    incoming_ack: s.incoming_ack.update(id as int, true),
                    ..s
                });
                if !self.manual_acks && !self.ledger.incoming_done.contains_key(&id) {
                    return self.outgoing_puback(PubAck::new(publish.pkid, None));
                }
                Ok(None)
            },
            QoS::ExactlyOnce => {
                if self.ledger.incoming_ack.contains(id) {
                    return Err(StateError::WrongPacket);
                }
                if self.incoming_pub.contains(id) {
                    if !publish.dup || self.ledger.incoming_done.contains_key(&id) {
                        return Err(StateError::WrongPacket);
                    }
                    if self.ledger.incoming_rec.contains(id) {
                        return Ok(None);
                    }
                    return self.outgoing_pubrec(PubRec::new(publish.pkid, None));
                }
                self.incoming_pub.insert(id);
                self.ledger.incoming_rec.insert(id);
                assert(self@ =~= StateModel {
                    incoming_pub: s.incoming_pub.update(id as int, true),
                    incoming_rec: s.incoming_rec.update(id as int, true),
                    ..s
                });
                if !self.manual_acks {
                    return self.outgoing_pubrec(PubRec::new(publish.pkid, None));
                }
                Ok(None)
            },
        }
    }

    fn awaits(&self, id: u16, qos: QoS) -> (r: bool)
        requires
            self@.sized(),
        ensures
            r == self@.awaits(id, qos),
    {
        if id as usize >= self.outgoing_pub.len() {
            return false;
        }
        match &self.outgoing_pub[id as usize] {
            Some(p) => p.qos == qos,
            None => false,
        }
    }

    /// Takes a publication out of its slot.
    pub(crate) fn drop_publication(&mut self, id: u16)
        requires
            old(self)@.sized(),
            id <= old(self)@.upper_limit,
            old(self)@.inflight > 0,
        ensures
            final(self)@ == old(self)@.drop_publication(id),
    {
        self.outgoing_pub.set(id as usize, None);
        self.inflight = self.inflight - 1;
        assert(self@ =~= old(self)@.drop_publication(id));
    }

    pub fn handle_incoming_puback(&mut self, puback: &PubAck) -> (r: Result<
        Option<Packet>,
        StateError,
    >)
        requires
            old(self)@.wf(),
        ensures
            outcome(r) == old(self)@.on_puback(puback@).0,
            final(self)@ == old(self)@.on_puback(puback@).1,
            final(self)@.wf(),
    {
        let ghost s = self@;
        let id: u16 = puback.pkid;
        proof {
            incoming_keeps_wf(s, PacketModel::PubAck(puback@));
        }
        if !self.awaits(id, QoS::AtLeastOnce) {
            return Err(StateError::Unsolicited(id));
        }
        proof {
            drop_keeps_wf(s, id);
        }
        self.drop_publication(id);
        if puback.reason != PubAckReason::Success && puback.reason
            != PubAckReason::NoMatchingSubscribers {
            return Ok(None);
        }
        match self.check_collision(id) {
            Some(publish) => {
                self.store(publish.clone());
                self.emit(Outgoing::Publish(publish.pkid));
                self.collision_ping_count = 0;
                assert(self@ =~= s.on_puback(puback@).1);
                Ok(Some(Packet::Publish(publish)))
            },
            None => Ok(None),
        }
    }

    pub fn handle_incoming_pubrec(&mut self, pubrec: &PubRec) -> (r: Result<
        Option<Packet>,
        StateError,
    >)
        requires
            old(self)@.wf(),
        ensures
            outcome(r) == old(self)@.on_pubrec(pubrec@).0,
            final(self)@ == old(self)@.on_pubrec(pubrec@).1,
            final(self)@.wf(),
    {
        let ghost s = self@;
        let id: u16 = pubrec.pkid;
        proof {
            incoming_keeps_wf(s, PacketModel::PubRec(pubrec@));
        }
        let reason: u8 = u8::from(pubrec.reason);
        if self.outgoing_rel.contains(id as usize) {
            if reason >= 128 {
                return Err(StateError::WrongPacket);
            }
            return Ok(Some(Packet::PubRel(PubRel::new(id, None))));
        }
        if !self.awaits(id, QoS::ExactlyOnce) {
            return Err(StateError::Unsolicited(id));
        }
        if reason >= 128 {
            proof {
                drop_keeps_wf(s, id);
            }
            self.drop_publication(id);
            return Ok(None);
        }
        self.outgoing_pub.set(id as usize, None);
        self.outgoing_rel.insert(id as usize);
        assert(self@ =~= StateModel {
            outgoing_pub: s.outgoing_pub.update(id as int, None),
            outgoing_rel: s.outgoing_rel.update(id as int, true),
            ..s
        });
        self.emit(Outgoing::PubRel(id));
        Ok(Some(Packet::PubRel(PubRel::new(id, None))))
    }

    pub fn handle_incoming_pubrel(&mut self, pubrel: &PubRel) -> (r: Result<
        Option<Packet>,
        StateError,
    >)
        requires
            old(self)@.wf(),
        ensures
            outcome(r) == old(self)@.on_pubrel(pubrel.pkid).0,
            final(self)@ == old(self)@.on_pubrel(pubrel.pkid).1,
            final(self)@.wf(),
    {
        proof {
            incoming_keeps_wf(self@, PacketModel::PubRel(pubrel@));
        }
        let pkid: u16 = pubrel.pkid;
        let id: usize = pkid as usize;
        if id == 0 || self.ledger.incoming_rec.contains(id) || self.ledger.incoming_ack.contains(id) {
            return Err(StateError::WrongPacket);
        }
        let known = self.incoming_pub.contains(id);
        if known {
            if let Err(e) = self.complete(pkid) {
                return Err(e);
            }
        }
        let mut packet = PubComp::new(pkid, None);
        if !known {
            packet.reason = PubCompReason::PacketIdentifierNotFound;
        }
        self.emit(Outgoing::PubComp(pkid));
        Ok(Some(Packet::PubComp(packet)))
    }

    pub fn handle_incoming_pubcomp(&mut self, pubcomp: &PubComp) -> (r: Result<
        Option<Packet>,
        StateError,
    >)
        requires
            old(self)@.wf(),
        ensures
            outcome(r) == old(self)@.on_pubcomp(pubcomp@).0,
            final(self)@ == old(self)@.on_pubcomp(pubcomp@).1,
            final(self)@.wf(),
    {
        let ghost s = self@;
        let id: u16 = pubcomp.pkid;
        proof {
            incoming_keeps_wf(s, PacketModel::PubComp(pubcomp@));
        }
        if !self.outgoing_rel.contains(id as usize) {
            return Err(StateError::Unsolicited(id));
        }
        proof {
            release_is_counted(s, id);
        }
        self.outgoing_rel.set(id as usize, false);
        self.inflight = self.inflight - 1;
        assert(self@ =~= StateModel {
            outgoing_rel: s.outgoing_rel.update(id as int, false),
            inflight: (s.inflight - 1) as u16,
            ..s
        });
        if pubcomp.reason != PubCompReason::Success {
            return Ok(None);
        }
        match self.check_collision(id) {
            Some(publish) => {
                self.store(publish.clone());
                self.emit(Outgoing::Publish(publish.pkid));
                self.collision_ping_count = 0;
                assert(self@ =~= s.on_pubcomp(pubcomp@).1);
                Ok(Some(Packet::Publish(publish)))
            },
            None => Ok(None),
        }
    }

    pub fn handle_incoming_pingresp(&mut self) -> (r: Result<Option<Packet>, StateError>)
        ensures
            outcome(r) == old(self)@.on_pingresp().0,
            final(self)@ == old(self)@.on_pingresp().1,
            old(self)@.wf() ==> final(self)@.wf(),
    {
        if !self.await_pingresp {
            return Err(StateError::WrongPacket);
        }
        self.await_pingresp = false;
        assert(self@ =~= old(self)@.on_pingresp().1);
        Ok(None)
    }

    fn check_collision(&mut self, pkid: u16) -> (r: Option<Publish>)
        ensures
            if old(self)@.collides(pkid) {
                slot_view(r) == old(self)@.collision && final(self)@ == (StateModel {
                    collision: None,
                    ..old(self)@
                })
            } else {
                r is None && final(self)@ == old(self)@
            },
    {
        let ghost s = self@;
        if let Some(publish) = &self.collision {
            if publish.pkid == pkid {
                let publish = self.collision.take();
                assert(self@ =~= StateModel { collision: None, ..s });
                return publish;
            }
        }
        None
    }
}

/// The token of an exchange whose last acknowledgement is being written.
pub open spec fn token_of(s: StateModel, id: u16) -> Option<u64> {
    if s.incoming_done.contains_key(id as usize) {
        Some(s.incoming_done[id as usize])
    } else {
        None
    }
}

/// The topic alias of a publication, if it has one.
pub(crate) fn topic_alias(publish: &Publish) -> (r: Option<u16>)
    ensures
        r == alias_of(publish@),
{
    match &publish.properties {
        Some(p) => p.topic_alias,
        None => None,
    }
}

/// The expiry interval of a publication, if it has one.
fn expiry_interval(publish: &Publish) -> (r: Option<u32>)
    ensures
        r == expiry_of(publish@),
{
    match &publish.properties {
        Some(p) => p.message_expiry_interval,
        None => None,
    }
}

/// The aliases of a table, without one of them.
pub open spec fn other_aliases(m: Map<u16, Seq<u8>>, except: Option<u16>) -> Set<u16> {
    match except {
        Some(alias) => m.dom().remove(alias),
        None => m.dom(),
    }
}

/// The octets of the topics of aliases, without those of one of them.
pub(crate) fn topics_len(map: &HashMap<u16, Bytes>, except: Option<u16>) -> (r: usize)
    ensures
        r == saturated(
            total_len(
                alias_views(map@),
                other_aliases(alias_views(map@), except),
                65536,
            ) as int,
        ),
{
    broadcast use vstd::std_specs::hash::group_hash_axioms;

    let ghost m = alias_views(map@);
    let keys = hashed_keys(map);
    let mut bytes: usize = 0;
    let mut i: usize = 0;
    let ghost mut seen: Set<u16> = Set::empty();
    proof {
        total_len_empty(m, 65536);
    }
    while i < keys.len()
        invariant
            i <= keys@.len(),
            m == alias_views(map@),
            lists(keys@, map@.dom()),
            bytes == saturated(total_len(m, seen, 65536) as int),
            forall|id: u16| #[trigger]
                seen.contains(id) <==> except != Some(id) && (exists|j: int|
                    0 <= j < i && #[trigger] keys@[j] == id),
        decreases keys@.len() - i,
    {
        let id: u16 = keys[i];
        assert(keys@.to_set().contains(id));
        let skipped = match except {
            Some(alias) => alias == id,
            None => false,
        };
        if !skipped {
            proof {
                assert(!seen.contains(id)) by {
                    if seen.contains(id) {
                        let j = choose|j: int| 0 <= j < i && #[trigger] keys@[j] == id;
                        assert(keys@[j] == keys@[i as int]);
                    }
                }
                total_len_insert(m, seen, id, 65536);
                seen = seen.insert(id);
            }
            if let Some(value) = map.get(&id) {
                bytes = plus(bytes, value.len());
            }
        }
        i = i + 1;
    }
    proof {
        let others = other_aliases(m, except);
        assert forall|id: u16| #[trigger] seen.contains(id) == others.contains(id) by {
            if map@.dom().contains(id) {
                assert(keys@.to_set().contains(id));
                let j = keys@.index_of(id);
                assert(keys@[j] == id);
            }
            if seen.contains(id) {
                let j = choose|j: int| 0 <= j < i && #[trigger] keys@[j] == id;
                assert(keys@.to_set().contains(keys@[j]));
            }
        }
        assert(seen =~= others);
    }
    bytes
}

/// Holds the topics of the aliases against a limit, with a new topic for one alias.
fn check_alias(map: &HashMap<u16, Bytes>, alias: u16, topic: &Bytes, maximum: usize) -> (r: Result<
    (),
    StateError,
>)
    ensures
        if alias_fits(alias_views(map@), alias, octets(*topic).len(), maximum) {
            r is Ok
        } else {
            r == Err::<(), StateError>(StateError::InvalidState)
        },
{
    let bytes: usize = topics_len(map, Some(alias));
    if plus(bytes, topic.len()) > maximum {
        return Err(StateError::InvalidState);
    }
    Ok(())
}

/// Slots without a publication.
fn empty_slots(n: usize) -> (r: Vec<Option<Publish>>)
    ensures
        r@.len() == n,
        forall|i: int| 0 <= i < n ==> r@[i] is None,
{
    let mut slots: Vec<Option<Publish>> = Vec::with_capacity(n);
    let mut i: usize = 0;
    while i < n
        invariant
            i <= n,
            slots@.len() == i,
            forall|j: int| 0 <= j < i ==> slots@[j] is None,
        decreases n - i,
    {
        slots.push(None);
        i = i + 1;
    }
    slots
}

/// The quality of service that each filter asks for.
fn requested_qos(filters: &Vec<Filter>) -> (r: Vec<QoS>)
    ensures
        r@ == Seq::new(filters@.len(), |i: int| filters@[i].qos),
{
    let mut levels: Vec<QoS> = Vec::with_capacity(filters.len());
    let mut i: usize = 0;
    while i < filters.len()
        invariant
            i <= filters@.len(),
            levels@.len() == i,
            forall|j: int| 0 <= j < i ==> levels@[j] == filters@[j].qos,
        decreases filters@.len() - i,
    {
        levels.push(filters[i].qos);
        i = i + 1;
    }
    assert(levels@ =~= Seq::new(filters@.len(), |i: int| filters@[i].qos));
    levels
}

/// Whether an acknowledgement fits what was asked for.
fn is_granted(requested: &Vec<QoS>, codes: &Vec<SubscribeReasonCode>) -> (r: bool)
    ensures
        r == grants(requested@, codes@),
{
    if requested.len() != codes.len() {
        return false;
    }
    let mut i: usize = 0;
    while i < codes.len()
        invariant
            i <= codes@.len(),
            requested@.len() == codes@.len(),
            forall|j: int|
                0 <= j < i ==> (#[trigger] codes@[j] matches SubscribeReasonCode::Success(qos)
                    ==> qos_number(qos) <= qos_number(requested@[j])),
        decreases codes@.len() - i,
    {
        if let SubscribeReasonCode::Success(qos) = codes[i] {
            if qos_code(qos) > qos_code(requested[i]) {
                assert(!(codes@[i as int] matches SubscribeReasonCode::Success(qos) ==> qos_number(
                    qos,
                ) <= qos_number(requested@[i as int])));
                return false;
            }
        }
        i = i + 1;
    }
    true
}

} // verus!
