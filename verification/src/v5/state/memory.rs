//! How much memory the state machine retains, and how much a transition may add.
use std::time::Instant;

use bytes::Bytes;
use vstd::layout::size_of;
use vstd::prelude::*;
use vstd::utf8::encode_utf8;

use super::model::{
    alias_of, expiry_of, incoming_keeps_wf, outgoing_keeps_wf, packet_keeps_aliases,
    request_keeps_flags, StateModel,
};
use super::{expiry_interval, topic_alias, topics_len, MqttState};
use crate::bitset::block_count;
use crate::octets::octets;
use crate::memory::{
    deque_capacity, plus, saturated, string_capacity, sum_of, sum_push, table_capacity, times,
    vec_capacity,
};
use crate::state::memory::{blocks_of, blocks_take, scaled_sum};
use crate::tables::{
    hashed_keys, keys_are_finite, listed_before, listed_grows, lists, total_len, total_len_empty,
    total_len_insert, total_len_update,
};
use crate::v5::event::{Event, Request, RequestModel};
use crate::v5::mqttbytes::v5::packet::{Packet, PacketModel};
use crate::v5::mqttbytes::v5::publish::{
    Publish, PublishModel, PublishProperties, PublishPropertiesModel,
};
use crate::v5::mqttbytes::QoS;

verus! {

/// What the parts of a publication have allocated.
pub struct PublicationFootprint {
    /// Octets of the topic and the payload
    pub body: usize,
    /// Octets of the response topic, the content type and the correlation data
    pub fields: usize,
    /// Slots for user properties
    pub user_slots: usize,
    /// Octets of the user properties
    pub user_texts: usize,
    /// Slots for subscription identifiers
    pub identifiers: usize,
}

/// The octets of an optional text.
pub open spec fn text_octets_len(t: Option<Seq<char>>) -> nat {
    match t {
        Some(t) => encode_utf8(t).len(),
        None => 0,
    }
}

/// The octets of the texts of user properties.
pub open spec fn pairs_octets_len(v: Seq<(Seq<char>, Seq<char>)>) -> nat
    decreases v.len(),
{
    if v.len() == 0 {
        0
    } else {
        pairs_octets_len(v.drop_last()) + encode_utf8(v.last().0).len() + encode_utf8(
            v.last().1,
        ).len()
    }
}

/// The octets of the texts and the data in the properties of a publication, apart from user
/// properties.
pub open spec fn fields_len(v: PublishPropertiesModel) -> nat {
    text_octets_len(v.response_topic) + text_octets_len(v.content_type) + match v.correlation_data {
        Some(b) => b.len(),
        None => 0,
    }
}

/// The octets that a publication holds.
pub open spec fn publication_len(p: PublishModel) -> nat {
    p.topic.len() + p.payload.len() + match p.properties {
        Some(v) => fields_len(v) + v.user_properties.len() * size_of::<(String, String)>()
            + pairs_octets_len(v.user_properties) + v.subscription_identifiers.len() * size_of::<
            usize,
        >(),
        None => 0,
    }
}

impl PublicationFootprint {
    /// The number of octets of all parts.
    pub open spec fn total(self) -> int {
        self.body + self.fields + self.user_slots * size_of::<(String, String)>() + self.user_texts
            + self.identifiers * size_of::<usize>()
    }

    /// Whether the parts are those of a publication: what is allocated is not less than what is
    /// held.
    pub open spec fn measures(self, p: PublishModel) -> bool {
        &&& self.body == saturated((p.topic.len() + p.payload.len()) as int)
        &&& match p.properties {
            Some(v) => {
                &&& self.fields >= saturated(fields_len(v) as int)
                &&& self.user_slots >= v.user_properties.len()
                &&& self.user_texts >= saturated(pairs_octets_len(v.user_properties) as int)
                &&& self.identifiers >= v.subscription_identifiers.len()
            },
            None => self.fields == 0 && self.user_slots == 0 && self.user_texts == 0
                && self.identifiers == 0,
        }
    }

    /// The number of octets of all parts, at most the largest `usize`.
    pub fn total_bytes(&self) -> (r: usize)
        ensures
            r == saturated(self.total()),
    {
        let mut total: usize = plus(self.body, self.fields);
        total = plus(total, times(self.user_slots, core::mem::size_of::<(String, String)>()));
        total = plus(total, self.user_texts);
        plus(total, times(self.identifiers, core::mem::size_of::<usize>()))
    }
}

/// What the parts of a state have allocated.
pub struct Footprint {
    /// Flags of a controlled writer
    pub flags: usize,
    /// Slots of the queue of retransmissions
    pub queue: usize,
    /// Slots for times of expiry
    pub expiring: usize,
    /// Slots for publications
    pub slots: usize,
    /// Octets of the publications
    pub publications: usize,
    /// Blocks of the sets of identifiers
    pub blocks: usize,
    /// Octets of the subscriptions
    pub levels: usize,
    /// Slots of the tables
    pub tables: usize,
    /// Octets of the topics of aliases
    pub aliases: usize,
    /// Slots for events
    pub events: usize,
}

impl Footprint {
    /// The number of octets of all parts.
    pub open spec fn total(self) -> int {
        size_of::<MqttState>() + self.flags * 128 + self.queue * size_of::<u16>() + self.expiring
            * 64 + self.expiring * size_of::<Instant>() + self.slots * size_of::<Option<Publish>>()
            + self.publications + self.blocks * size_of::<usize>() + self.levels + self.tables * 128
            + self.aliases + self.events * size_of::<Event>()
    }

    /// Whether the parts are those of a state: what is allocated is not less than what is held.
    pub open spec fn measures(self, s: StateModel) -> bool {
        &&& self.flags == s.transmission_flags.len()
        &&& self.queue >= s.resume_queue.len()
        &&& self.expiring >= s.expiring.len()
        &&& self.slots >= s.outgoing_pub.len()
        &&& self.publications >= saturated(publications_len(s.outgoing_pub) as int)
        &&& self.blocks == blocks_of(s.resume_sent.len()) + blocks_of(s.outgoing_rel.len())
            + blocks_of(s.incoming_pub.len()) + blocks_of(s.incoming_ack.len()) + blocks_of(
            s.incoming_rec.len(),
        )
        &&& self.levels >= saturated(levels_len(s.outgoing_sub, s.outgoing_sub.dom()))
        &&& self.tables >= saturated(
            (s.outgoing_sub.dom().len() + s.outgoing_unsub.dom().len() + s.incoming_done.dom().len()
                + s.topic_aliases.dom().len() + s.outgoing_aliases.dom().len()) as int,
        )
        &&& self.aliases == saturated(
            (total_len(s.topic_aliases, s.topic_aliases.dom(), 65536) + total_len(
                s.outgoing_aliases,
                s.outgoing_aliases.dom(),
                65536,
            )) as int,
        )
        &&& self.events >= s.events.len()
    }

    /// The number of octets of all parts, at most the largest `usize`.
    pub fn total_bytes(&self) -> (r: usize)
        ensures
            r == saturated(self.total()),
    {
        let mut total: usize = core::mem::size_of::<MqttState>();
        total = plus(total, times(self.flags, 128));
        total = plus(total, times(self.queue, core::mem::size_of::<u16>()));
        total = plus(total, times(self.expiring, 64));
        total = plus(total, times(self.expiring, core::mem::size_of::<Instant>()));
        total = plus(total, times(self.slots, core::mem::size_of::<Option<Publish>>()));
        total = plus(total, self.publications);
        total = plus(total, times(self.blocks, core::mem::size_of::<usize>()));
        total = plus(total, self.levels);
        total = plus(total, times(self.tables, 128));
        total = plus(total, self.aliases);
        plus(total, times(self.events, core::mem::size_of::<Event>()))
    }
}

/// The octets of the levels that pending subscriptions ask for.
pub open spec fn levels_len(m: Map<u16, Seq<QoS>>, ids: Set<u16>) -> int {
    (total_len(m, ids, 65536) * size_of::<QoS>()) as int
}

/// The octets that publications hold.
pub open spec fn publications_len(slots: Seq<Option<PublishModel>>) -> nat
    decreases slots.len(),
{
    if slots.len() == 0 {
        0
    } else {
        publications_len(slots.drop_last()) + match slots.last() {
            Some(p) => publication_len(p),
            None => 0,
        }
    }
}

/// What a table with `len` entries and room for `capacity` allocates for one more entry, unless
/// its key is there.
pub open spec fn growth(present: bool, len: nat, capacity: usize) -> int {
    if present || len < capacity {
        0
    } else {
        (capacity + 4) * 256
    }
}

/// What the alias of a publication adds: its topic in the table of aliases, with room for `capacity`
/// entries, or the topic that it stands for with the publication that is kept.
pub open spec fn alias_extra(s: StateModel, p: PublishModel, capacity: usize) -> int {
    match alias_of(p) {
        Some(alias) => if p.topic.len() > 0 {
            p.topic.len() + growth(
                s.outgoing_aliases.contains_key(alias),
                s.outgoing_aliases.dom().len(),
                capacity,
            )
        } else if p.qos != QoS::AtMostOnce && s.outgoing_aliases.contains_key(alias) {
            s.outgoing_aliases[alias].len() as int
        } else {
            0
        },
        None => 0,
    }
}

/// What a publication that can expire adds to the table of times, with room for `starts` entries.
pub open spec fn expiry_extra(s: StateModel, p: PublishModel, starts: usize) -> int {
    if p.qos != QoS::AtMostOnce && expiry_of(p) is Some {
        growth(false, s.expiring.dom().len(), starts)
    } else {
        0
    }
}

/// What a request adds. `publication` is what its publication has allocated, `capacity` the room
/// of the table that it enters, and `starts` that of the table of times of expiry. A publication
/// that is sent by its alias alone is kept under its whole topic.
pub open spec fn outgoing_extra(
    s: StateModel,
    request: RequestModel,
    publication: PublicationFootprint,
    capacity: usize,
    starts: usize,
) -> int {
    match request {
        RequestModel::Publish(p) => publication.total() + alias_extra(s, p, capacity)
            + expiry_extra(s, p, starts),
        RequestModel::Subscribe(p) => p.filters.len() * size_of::<QoS>() + growth(
            false,
            s.outgoing_sub.dom().len(),
            capacity,
        ),
        RequestModel::Unsubscribe(_) => growth(false, s.outgoing_unsub.dom().len(), capacity),
        RequestModel::PubAck(p) => done_growth(s, p.pkid, capacity),
        RequestModel::PubRec(p) => if p.reason.number() >= 128 {
            done_growth(s, p.pkid, capacity)
        } else {
            0
        },
        _ => 0,
    }
}

/// The number of entries of the table that a request enters.
pub open spec fn entered(s: StateModel, request: RequestModel) -> nat {
    match request {
        RequestModel::Publish(_) => s.outgoing_aliases.dom().len(),
        RequestModel::Subscribe(_) => s.outgoing_sub.dom().len(),
        RequestModel::Unsubscribe(_) => s.outgoing_unsub.dom().len(),
        RequestModel::PubAck(_) => s.incoming_done.dom().len(),
        RequestModel::PubRec(_) => s.incoming_done.dom().len(),
        _ => 0,
    }
}

/// What the token of an exchange adds.
pub open spec fn done_growth(s: StateModel, id: u16, capacity: usize) -> int {
    growth(s.incoming_done.contains_key(id as usize), s.incoming_done.dom().len(), capacity)
}

/// What a packet from the network adds. `aliases` and `done` are the room of the tables of
/// aliases and of tokens.
pub open spec fn incoming_extra(s: StateModel, packet: PacketModel, aliases: usize, done: usize) -> int {
    match packet {
        PacketModel::Publish(p) => done_growth(s, p.pkid, done) + match alias_of(p) {
            Some(alias) => if p.topic.len() > 0 {
                p.topic.len() + growth(
                    s.topic_aliases.contains_key(alias),
                    s.topic_aliases.dom().len(),
                    aliases,
                )
            } else {
                0
            },
            None => 0,
        },
        PacketModel::PubRel(p) => done_growth(s, p.pkid, done),
        _ => 0,
    }
}

/// The octets that a new state may take.
pub open spec fn initial_bound(maximum: u16) -> int {
    size_of::<MqttState>() + (maximum + 8) / 8 + 64 + (maximum + 1) * size_of::<Option<Publish>>()
        + (maximum + 8) / 8 + 256 + 3 * (8192 + 64) + 100 * size_of::<Event>()
}

/// A new state whose containers have no more room than was asked for is within the bound for a new
/// state.
pub proof fn lean_start_is_within_bound(maximum: u16, manual_acks: bool, f: Footprint)
    requires
        f.measures(StateModel::initial(maximum, manual_acks)),
        f.queue == 0,
        f.expiring == 0,
        f.slots <= maximum + 1,
        f.publications == 0,
        f.levels == 0,
        f.tables == 0,
        f.events <= 100,
    ensures
        saturated(f.total()) <= saturated(initial_bound(maximum)),
{
    let slots = (maximum + 1) as nat;
    let a = blocks_of(slots);
    let b = blocks_of(65536);
    let size = size_of::<usize>();
    let m = Map::<u16, Seq<u8>>::empty();
    total_len_empty(m, 65536);
    assert(m.dom() =~= Set::<u16>::empty());
    blocks_take(slots);
    blocks_take(65536);
    assert(f.blocks == 2 * a + 3 * b);
    assert((2 * a + 3 * b) * size == 2 * (a * size) + 3 * (b * size)) by (nonlinear_arith);
    scaled_sum(0, f.slots as nat, slots, size_of::<Option<Publish>>());
    scaled_sum(0, f.events as nat, 100, size_of::<Event>());
    assert(0 * size_of::<u16>() == 0 && 0 * size_of::<Instant>() == 0) by (nonlinear_arith);
}

/// What a request adds to the table that it enters, with room for `capacity` entries.
pub open spec fn table_extra(s: StateModel, request: RequestModel, capacity: usize) -> int {
    match request {
        RequestModel::Publish(p) => match alias_of(p) {
            Some(alias) => if p.topic.len() > 0 {
                growth(
                    s.outgoing_aliases.contains_key(alias),
                    s.outgoing_aliases.dom().len(),
                    capacity,
                )
            } else {
                0
            },
            None => 0,
        },
        RequestModel::Subscribe(_) => growth(false, s.outgoing_sub.dom().len(), capacity),
        RequestModel::Unsubscribe(_) => growth(false, s.outgoing_unsub.dom().len(), capacity),
        RequestModel::PubAck(p) => done_growth(s, p.pkid, capacity),
        RequestModel::PubRec(p) => if p.reason.number() >= 128 {
            done_growth(s, p.pkid, capacity)
        } else {
            0
        },
        _ => 0,
    }
}

/// Whether the containers have grown from `f` to `g` over a request that leads from `s` to `t` by
/// no more than is allowed for: the slots, the queue and the events not at all, a publication that
/// is kept by what it has allocated and the topic that its alias stands for, a subscription by its
/// levels, and a table that gets an entry by the growth of one that is full.
pub open spec fn grows(
    s: StateModel,
    t: StateModel,
    request: RequestModel,
    f: Footprint,
    g: Footprint,
    publication: PublicationFootprint,
    capacity: usize,
) -> bool {
    &&& g.queue == f.queue && g.slots == f.slots && g.events == f.events
    &&& match request {
        RequestModel::Publish(p) => g.publications <= f.publications + publication.total() + (
        if p.topic.len() == 0 {
            alias_extra(s, p, capacity)
        } else {
            0
        }),
        _ => g.publications == f.publications,
    }
    &&& match request {
        RequestModel::Subscribe(p) => g.levels <= f.levels + p.filters.len() * size_of::<QoS>(),
        _ => g.levels == f.levels,
    }
    &&& 128 * g.tables <= 128 * f.tables + table_extra(s, request, capacity)
    &&& if t.expiring == s.expiring {
        g.expiring == f.expiring
    } else {
        g.expiring * 64 + g.expiring * size_of::<Instant>() <= f.expiring * 64 + f.expiring
            * size_of::<Instant>() + growth(false, s.expiring.dom().len(), f.expiring)
    }
}

/// The bound that was taken before a request covers what the state has allocated after it, where
/// the containers grow by no more than is allowed for. Events were drained before and after.
#[verifier::spinoff_prover]
#[verifier::rlimit(40)]
pub proof fn bound_covers_request(
    s: StateModel,
    request: RequestModel,
    moment: Instant,
    f: Footprint,
    g: Footprint,
    publication: PublicationFootprint,
    capacity: usize,
)
    requires
        s.wf(),
        s.admits(request),
        s.events.len() == 0,
        s.outgoing(request, moment).0 is Ok,
        f.measures(s),
        g.measures(StateModel { events: Seq::empty(), ..s.outgoing(request, moment).1 }),
        grows(s, s.outgoing(request, moment).1, request, f, g, publication, capacity),
    ensures
        saturated(g.total()) <= saturated(
            f.total() + outgoing_extra(s, request, publication, capacity, f.expiring) + 1024,
        ),
{
    let t = s.outgoing(request, moment).1;
    request_keeps_flags(s, request, moment);
    outgoing_keeps_wf(s, request, moment);
    total_is_natural(f, publication);
    assert(t.upper_limit == s.upper_limit);
    assert(t.topic_aliases == s.topic_aliases);
    assert(g.blocks == f.blocks);
    if let RequestModel::Publish(p) = request {
        if alias_of(p) is Some && p.topic.len() > 0 {
            total_len_update(s.outgoing_aliases, alias_of(p)->0, p.topic, 65536);
            assert(t.outgoing_aliases == s.outgoing_aliases || t.outgoing_aliases
                == s.outgoing_aliases.insert(alias_of(p)->0, p.topic));
        } else {
            assert(t.outgoing_aliases == s.outgoing_aliases);
        }
        assert(t.expiring != s.expiring ==> p.qos != QoS::AtMostOnce && expiry_of(p) is Some);
    } else {
        assert(t.outgoing_aliases == s.outgoing_aliases);
        assert(t.expiring == s.expiring);
    }
}

/// What a packet adds to the tables of aliases and of tokens, with that room.
pub open spec fn received_extra(
    s: StateModel,
    packet: PacketModel,
    aliases: usize,
    done: usize,
) -> int {
    match packet {
        PacketModel::Publish(p) => done_growth(s, p.pkid, done) + match alias_of(p) {
            Some(alias) => if p.topic.len() > 0 {
                growth(
                    s.topic_aliases.contains_key(alias),
                    s.topic_aliases.dom().len(),
                    aliases,
                )
            } else {
                0
            },
            None => 0,
        },
        PacketModel::PubRel(p) => done_growth(s, p.pkid, done),
        _ => 0,
    }
}

/// Whether the containers have grown from `f` to `g` over a packet from the network by no more
/// than is allowed for: a table that gets an entry by the growth of one that is full, and nothing
/// else at all.
pub open spec fn grows_by_packet(
    s: StateModel,
    packet: PacketModel,
    f: Footprint,
    g: Footprint,
    aliases: usize,
    done: usize,
) -> bool {
    &&& g.queue == f.queue && g.slots == f.slots && g.events == f.events
    &&& g.expiring == f.expiring
    &&& g.publications <= f.publications
    &&& g.levels <= f.levels
    &&& 128 * g.tables <= 128 * f.tables + received_extra(s, packet, aliases, done)
}

/// The bound that was taken before a packet from the network covers what the state has allocated
/// after it, where the containers grow by no more than is allowed for. Events were drained before
/// and after. Left out is an acknowledgement that hands out a publication which waited for an
/// identifier: it is not counted while it waits.
pub proof fn bound_covers_packet(
    s: StateModel,
    packet: PacketModel,
    f: Footprint,
    g: Footprint,
    aliases: usize,
    done: usize,
)
    requires
        s.wf(),
        s.events.len() == 0,
        !(s.incoming(packet).0 matches Ok(Some(PacketModel::Publish(_)))),
        f.measures(s),
        g.measures(StateModel { events: Seq::empty(), ..s.incoming(packet).1 }),
        grows_by_packet(s, packet, f, g, aliases, done),
    ensures
        saturated(g.total()) <= saturated(
            f.total() + incoming_extra(s, packet, aliases, done) + 1024,
        ),
{
    let t = s.incoming(packet).1;
    packet_keeps_aliases(s, packet);
    incoming_keeps_wf(s, packet);
    keys_are_finite(s.transmission_flags.dom());
    vstd::set_lib::lemma_len_subset(t.transmission_flags.dom(), s.transmission_flags.dom());
    assert(g.blocks == f.blocks);
    if let PacketModel::Publish(p) = packet {
        if alias_of(p) is Some && p.topic.len() > 0 {
            total_len_update(s.topic_aliases, alias_of(p)->0, p.topic, 65536);
        }
    }
}

// What the containers told --------------------------------------------------------------------

/// Whether an optional text has room for `n` octets, as it told.
spec fn told_text(t: Option<String>, n: usize) -> bool {
    match t {
        Some(s) => call_ensures(string_capacity, (&s,), n),
        None => n == 0,
    }
}

/// Whether the texts of user properties have room for as many octets, as each told.
spec fn told_pairs(v: Seq<(String, String)>, keys: Seq<usize>, values: Seq<usize>) -> bool {
    &&& keys.len() == v.len()
    &&& values.len() == v.len()
    &&& forall|i: int|
        0 <= i < v.len() ==> call_ensures(string_capacity, (&(#[trigger] v[i]).0,), keys[i])
            && call_ensures(string_capacity, (&v[i].1,), values[i])
}

/// Whether the fields of properties have room for `n` octets, as their texts told.
spec fn told_fields(v: PublishProperties, n: usize) -> bool {
    exists|topic: usize, content: usize|
        {
            &&& #[trigger] told_text(v.response_topic, topic)
            &&& #[trigger] told_text(v.content_type, content)
            &&& n == saturated(
                topic + content + match v.correlation_data {
                    Some(b) => octets(b).len() as int,
                    None => 0,
                },
            )
        }
}

/// Whether the user properties have room for `n` octets, as their texts told.
spec fn told_user_texts(v: Seq<(String, String)>, n: usize) -> bool {
    exists|keys: Seq<usize>, values: Seq<usize>|
        #[trigger] told_pairs(v, keys, values) && n == saturated(
            (sum_of(keys) + sum_of(values)) as int,
        )
}

/// Whether the parts of a publication are what its own containers told.
pub closed spec fn told_publication(p: Publish, f: PublicationFootprint) -> bool {
    match p.properties {
        Some(v) => {
            &&& told_fields(v, f.fields)
            &&& call_ensures(
                vec_capacity::<(String, String)>,
                (&v.user_properties,),
                f.user_slots,
            )
            &&& told_user_texts(v.user_properties@, f.user_texts)
            &&& call_ensures(
                vec_capacity::<usize>,
                (&v.subscription_identifiers,),
                f.identifiers,
            )
        },
        None => true,
    }
}

/// Whether a request brings a publication whose parts are what its own containers told.
pub open spec fn told_request(request: Request, f: PublicationFootprint) -> bool {
    match request {
        Request::Publish(p) => told_publication(p, f) && f.measures(p@),
        _ => true,
    }
}

/// Whether a slot holds a publication with that estimate.
spec fn told_slot(slot: Option<Publish>, n: usize) -> bool {
    match slot {
        Some(p) => call_ensures(MqttState::publication_memory_bound, (&p,), n),
        None => n == 0,
    }
}

/// Whether slots hold publications with those estimates.
spec fn told_slots(slots: Seq<Option<Publish>>, readings: Seq<usize>) -> bool {
    &&& readings.len() == slots.len()
    &&& forall|i: int| 0 <= i < slots.len() ==> told_slot(#[trigger] slots[i], readings[i])
}

/// Whether the levels of pending subscriptions have that room, as each told.
spec fn told_levels(m: Map<u16, Vec<QoS>>, keys: Seq<u16>, readings: Seq<usize>) -> bool {
    &&& lists(keys, m.dom())
    &&& readings.len() == keys.len()
    &&& forall|i: int|
        0 <= i < keys.len() ==> call_ensures(
            vec_capacity::<QoS>,
            (&m[#[trigger] keys[i]],),
            readings[i],
        )
}

/// What a table allocates for one more entry, unless its key is there.
fn map_growth(present: bool, len: usize, capacity: usize) -> (r: usize)
    ensures
        r == saturated(growth(present, len as nat, capacity)),
{
    if present {
        0
    } else {
        map_insert_growth(len, capacity)
    }
}

/// What a table allocates for one more entry.
fn map_insert_growth(len: usize, capacity: usize) -> (r: usize)
    ensures
        r == saturated(growth(false, len as nat, capacity)),
{
    if len < capacity {
        0
    } else {
        times(plus(capacity, 4), 256)
    }
}

fn text_capacity(t: &Option<String>) -> (r: usize)
    ensures
        told_text(*t, r),
        t matches Some(s) ==> r >= encode_utf8(s@).len(),
        t is None ==> r == 0,
{
    match t {
        Some(s) => string_capacity(s),
        None => 0,
    }
}

/// What the parts of a publication have allocated.
fn publication_footprint(p: &Publish) -> (r: PublicationFootprint)
    ensures
        r.measures(p@),
        told_publication(*p, r),
{
    let body: usize = plus(p.topic.len(), p.payload.len());
    match &p.properties {
        None => PublicationFootprint {
            body,
            fields: 0,
            user_slots: 0,
            user_texts: 0,
            identifiers: 0,
        },
        Some(v) => {
            let topic: usize = text_capacity(&v.response_topic);
            let content: usize = text_capacity(&v.content_type);
            let mut fields: usize = plus(topic, content);
            if let Some(data) = &v.correlation_data {
                fields = plus(fields, data.len());
            }
            let ghost all = v@.user_properties;
            let mut user_texts: usize = 0;
            let ghost mut keys: Seq<usize> = Seq::empty();
            let ghost mut values: Seq<usize> = Seq::empty();
            let mut i: usize = 0;
            assert(all.take(0) =~= Seq::<(Seq<char>, Seq<char>)>::empty());
            while i < v.user_properties.len()
                invariant
                    i <= v.user_properties@.len(),
                    all == v@.user_properties,
                    user_texts >= saturated(pairs_octets_len(all.take(i as int)) as int),
                    keys.len() == i,
                    values.len() == i,
                    forall|j: int|
                        0 <= j < i ==> call_ensures(
                            string_capacity,
                            (&(#[trigger] v.user_properties@[j]).0,),
                            keys[j],
                        ) && call_ensures(
                            string_capacity,
                            (&v.user_properties@[j].1,),
                            values[j],
                        ),
                    user_texts == saturated((sum_of(keys) + sum_of(values)) as int),
                decreases v.user_properties@.len() - i,
            {
                assert(all.take(i + 1).drop_last() =~= all.take(i as int));
                let key: usize = string_capacity(&v.user_properties[i].0);
                let value: usize = string_capacity(&v.user_properties[i].1);
                user_texts = plus(user_texts, plus(key, value));
                proof {
                    sum_push(keys, key);
                    sum_push(values, value);
                    keys = keys.push(key);
                    values = values.push(value);
                }
                i = i + 1;
            }
            proof {
                assert(all.take(i as int) =~= all);
                assert(told_pairs(v.user_properties@, keys, values));
                assert(told_text(v.response_topic, topic) && told_text(v.content_type, content));
            }
            PublicationFootprint {
                body,
                fields,
                user_slots: vec_capacity(&v.user_properties),
                user_texts,
                identifiers: vec_capacity(&v.subscription_identifiers),
            }
        },
    }
}

impl MqttState {
    /// Conservative initial allocation bound for pre-admission before creating the state.
    pub fn initial_memory_bound(maximum: u16) -> (r: usize)
        ensures
            r == saturated(initial_bound(maximum)),
    {
        let slots: usize = maximum as usize + 1;
        let mut total: usize = core::mem::size_of::<MqttState>();
        total = plus(total, (slots + 7) / 8 + 64);
        total = plus(total, times(slots, core::mem::size_of::<Option<Publish>>()));
        total = plus(total, (slots + 7) / 8 + 256 + 3 * (8192 + 64));
        plus(total, times(100, core::mem::size_of::<Event>()))
    }

    /// Whether the slots told that their publications have allocated `n` octets.
    closed spec fn tells_publications(&self, n: usize) -> bool {
        exists|readings: Seq<usize>|
            #[trigger] told_slots(self.outgoing_pub@, readings) && n == saturated(
                sum_of(readings) as int,
            )
    }

    /// Whether pending subscriptions told that their levels have allocated `n` octets.
    closed spec fn tells_levels(&self, n: usize) -> bool {
        exists|keys: Seq<u16>, readings: Seq<usize>|
            #[trigger] told_levels(self.ledger.outgoing_sub@, keys, readings) && n == saturated(
                (sum_of(readings) * size_of::<QoS>()) as int,
            )
    }

    /// Whether the tables told that they have that room.
    closed spec fn tells_rooms(
        &self,
        subscribed: usize,
        removed: usize,
        done: usize,
        topics: usize,
        aliases: usize,
    ) -> bool {
        &&& call_ensures(table_capacity::<u16, Vec<QoS>>, (&self.ledger.outgoing_sub,), subscribed)
        &&& call_ensures(table_capacity::<u16, usize>, (&self.ledger.outgoing_unsub,), removed)
        &&& call_ensures(table_capacity::<usize, u64>, (&self.ledger.incoming_done,), done)
        &&& call_ensures(table_capacity::<u16, Bytes>, (&self.ledger.topic_alises,), topics)
        &&& call_ensures(table_capacity::<u16, Bytes>, (&self.ledger.outgoing_aliases,), aliases)
    }

    /// Whether the tables told that they have room for `n` entries together.
    closed spec fn tells_tables(&self, n: usize) -> bool {
        exists|subscribed: usize, removed: usize, done: usize, topics: usize, aliases: usize|
            #[trigger] self.tells_rooms(subscribed, removed, done, topics, aliases) && n
                == saturated(subscribed + removed + done + topics + aliases)
    }

    /// Whether the parts of the state are what its own containers told.
    pub closed spec fn tells(&self, f: Footprint) -> bool {
        &&& call_ensures(deque_capacity::<u16>, (&self.ledger.resume_queue,), f.queue)
        &&& call_ensures(
            table_capacity::<u16, Instant>,
            (&self.ledger.outgoing_expiry_started,),
            f.expiring,
        )
        &&& call_ensures(vec_capacity::<Option<Publish>>, (&self.outgoing_pub,), f.slots)
        &&& self.tells_publications(f.publications)
        &&& self.tells_levels(f.levels)
        &&& self.tells_tables(f.tables)
        &&& call_ensures(deque_capacity::<Event>, (&self.events,), f.events)
    }

    /// Whether the table that a request enters told that it has room for `n` entries.
    pub closed spec fn tells_entered(&self, request: RequestModel, n: usize) -> bool {
        match request {
            RequestModel::Publish(_) => call_ensures(
                table_capacity::<u16, Bytes>,
                (&self.ledger.outgoing_aliases,),
                n,
            ),
            RequestModel::Subscribe(_) => call_ensures(
                table_capacity::<u16, Vec<QoS>>,
                (&self.ledger.outgoing_sub,),
                n,
            ),
            RequestModel::Unsubscribe(_) => call_ensures(
                table_capacity::<u16, usize>,
                (&self.ledger.outgoing_unsub,),
                n,
            ),
            RequestModel::PubAck(_) => call_ensures(
                table_capacity::<usize, u64>,
                (&self.ledger.incoming_done,),
                n,
            ),
            RequestModel::PubRec(_) => call_ensures(
                table_capacity::<usize, u64>,
                (&self.ledger.incoming_done,),
                n,
            ),
            _ => n == 0,
        }
    }

    /// Whether the tables of aliases and of tokens told that they have that room.
    pub closed spec fn tells_received(&self, aliases: usize, done: usize) -> bool {
        &&& call_ensures(table_capacity::<u16, Bytes>, (&self.ledger.topic_alises,), aliases)
        &&& call_ensures(table_capacity::<usize, u64>, (&self.ledger.incoming_done,), done)
    }

    /// What the levels of pending subscriptions have allocated.
    fn levels_size(&self) -> (r: usize)
        ensures
            r >= saturated(levels_len(self@.outgoing_sub, self@.outgoing_sub.dom())),
            self.tells_levels(r),
    {
        broadcast use vstd::std_specs::hash::group_hash_axioms;

        let ghost m = self@.outgoing_sub;
        let keys = hashed_keys(&self.ledger.outgoing_sub);
        let mut levels: usize = 0;
        let ghost mut readings: Seq<usize> = Seq::empty();
        let mut k: usize = 0;
        proof {
            assert(m.dom() =~= self.ledger.outgoing_sub@.dom());
            assert(listed_before(keys@, 0) =~= Set::<u16>::empty());
            total_len_empty(m, 65536);
            assert(0 * size_of::<QoS>() == 0) by (nonlinear_arith);
        }
        while k < keys.len()
            invariant
                k <= keys@.len(),
                m == self@.outgoing_sub,
                lists(keys@, self.ledger.outgoing_sub@.dom()),
                levels >= saturated(levels_len(m, listed_before(keys@, k as int))),
                readings.len() == k,
                forall|i: int|
                    0 <= i < k ==> call_ensures(
                        vec_capacity::<QoS>,
                        (&self.ledger.outgoing_sub@[#[trigger] keys@[i]],),
                        readings[i],
                    ),
                levels == saturated((sum_of(readings) * size_of::<QoS>()) as int),
            decreases keys@.len() - k,
        {
            let key: u16 = keys[k];
            proof {
                assert(keys@.to_set().contains(key));
                listed_grows(keys@, k as int);
                total_len_insert(m, listed_before(keys@, k as int), key, 65536);
            }
            if let Some(v) = self.ledger.outgoing_sub.get(&key) {
                let capacity: usize = vec_capacity(v);
                proof {
                    scaled_sum(
                        total_len(m, listed_before(keys@, k as int), 65536),
                        v@.len(),
                        capacity as nat,
                        size_of::<QoS>(),
                    );
                    scaled_sum(
                        sum_of(readings),
                        capacity as nat,
                        capacity as nat,
                        size_of::<QoS>(),
                    );
                    sum_push(readings, capacity);
                    readings = readings.push(capacity);
                }
                levels = plus(levels, times(capacity, core::mem::size_of::<QoS>()));
            }
            k = k + 1;
        }
        proof {
            assert(keys@.take(k as int) =~= keys@);
            assert(told_levels(self.ledger.outgoing_sub@, keys@, readings));
        }
        levels
    }

    /// What the publications have allocated.
    fn publications_size(&self) -> (r: usize)
        requires
            self@.wf(),
        ensures
            r >= saturated(publications_len(self@.outgoing_pub) as int),
            self.tells_publications(r),
    {
        let mut publications: usize = 0;
        let ghost mut readings: Seq<usize> = Seq::empty();
        let mut i: usize = 0;
        assert(self@.outgoing_pub.take(0) =~= Seq::<Option<PublishModel>>::empty());
        while i < self.outgoing_pub.len()
            invariant
                i <= self.outgoing_pub@.len(),
                publications >= saturated(
                    publications_len(self@.outgoing_pub.take(i as int)) as int,
                ),
                readings.len() == i,
                forall|j: int|
                    0 <= j < i ==> told_slot(#[trigger] self.outgoing_pub@[j], readings[j]),
                publications == saturated(sum_of(readings) as int),
            decreases self.outgoing_pub@.len() - i,
        {
            assert(self@.outgoing_pub.take(i + 1).drop_last() =~= self@.outgoing_pub.take(
                i as int,
            ));
            let mut size: usize = 0;
            if let Some(p) = &self.outgoing_pub[i] {
                size = Self::publication_memory_bound(p);
            }
            publications = plus(publications, size);
            proof {
                sum_push(readings, size);
                readings = readings.push(size);
            }
            i = i + 1;
        }
        proof {
            assert(self@.outgoing_pub.take(i as int) =~= self@.outgoing_pub);
            assert(told_slots(self.outgoing_pub@, readings));
        }
        publications
    }

    /// What the parts of the state have allocated.
    fn footprint(&self) -> (r: Footprint)
        requires
            self@.wf(),
        ensures
            r.measures(self@),
            self.tells(r),
    {
        broadcast use vstd::std_specs::btree::group_btree_axioms;
        broadcast use vstd::std_specs::hash::group_hash_axioms;

        let publications: usize = self.publications_size();
        let levels: usize = self.levels_size();
        let subscribed: usize = table_capacity(&self.ledger.outgoing_sub);
        let removed: usize = table_capacity(&self.ledger.outgoing_unsub);
        let done: usize = table_capacity(&self.ledger.incoming_done);
        let topics: usize = table_capacity(&self.ledger.topic_alises);
        let aliases: usize = table_capacity(&self.ledger.outgoing_aliases);
        let tables: usize = plus(
            plus(plus(plus(subscribed, removed), done), topics),
            aliases,
        );
        proof {
            assert(self.tells_rooms(subscribed, removed, done, topics, aliases));
            assert(self@.outgoing_sub.dom() =~= self.ledger.outgoing_sub@.dom());
            assert(self@.topic_aliases.dom() =~= self.ledger.topic_alises@.dom());
            assert(self@.outgoing_aliases.dom() =~= self.ledger.outgoing_aliases@.dom());
        }
        Footprint {
            flags: self.ledger.transmission_flags.len(),
            queue: deque_capacity(&self.ledger.resume_queue),
            expiring: table_capacity(&self.ledger.outgoing_expiry_started),
            slots: vec_capacity(&self.outgoing_pub),
            publications,
            blocks: block_count(&self.ledger.resume_sent) + block_count(&self.outgoing_rel) + block_count(
                &self.incoming_pub,
            ) + block_count(&self.ledger.incoming_ack) + block_count(&self.ledger.incoming_rec),
            levels,
            tables,
            aliases: plus(
                topics_len(&self.ledger.topic_alises, None),
                topics_len(&self.ledger.outgoing_aliases, None),
            ),
            events: deque_capacity(&self.events),
        }
    }

    /// Conservative estimate of what the state has allocated.
    pub fn retained_bytes(&self) -> (r: usize)
        requires
            self@.wf(),
        ensures
            exists|f: Footprint|
                #[trigger] f.measures(self@) && self.tells(f) && r == saturated(f.total()),
    {
        let footprint = self.footprint();
        footprint.total_bytes()
    }

    /// Conservative owned heap estimate; property containers can exceed wire size.
    pub fn publication_memory_bound(p: &Publish) -> (r: usize)
        ensures
            exists|f: PublicationFootprint|
                #[trigger] f.measures(p@) && told_publication(*p, f) && r == saturated(f.total()),
            r >= saturated(publication_len(p@) as int),
    {
        let footprint = publication_footprint(p);
        proof {
            publication_is_covered(footprint, p@);
        }
        footprint.total_bytes()
    }

    /// A caller may reject this bound before changing protocol state. Estimates
    /// include hash-table growth, not just the bytes represented on the wire.
    pub fn outgoing_memory_bound(&self, request: &Request) -> (r: usize)
        requires
            self@.wf(),
        ensures
            exists|f: Footprint, p: PublicationFootprint, capacity: usize|
                {
                    &&& #[trigger] f.measures(self@)
                    &&& self.tells(f)
                    &&& told_request(*request, p)
                    &&& capacity >= entered(self@, request@)
                    &&& self.tells_entered(request@, capacity)
                    &&& r == saturated(
                        f.total() + #[trigger] outgoing_extra(
                            self@,
                            request@,
                            p,
                            capacity,
                            f.expiring,
                        ) + 1024,
                    )
                },
    {
        broadcast use vstd::std_specs::hash::group_hash_axioms;

        let footprint = self.footprint();
        let mut publication = PublicationFootprint {
            body: 0,
            fields: 0,
            user_slots: 0,
            user_texts: 0,
            identifiers: 0,
        };
        let mut capacity: usize = 0;
        proof {
            assert(self@.outgoing_sub.dom() =~= self.ledger.outgoing_sub@.dom());
            assert(self@.outgoing_aliases.dom() =~= self.ledger.outgoing_aliases@.dom());
        }
        let extra: usize = match request {
            Request::Publish(p) => {
                publication = publication_footprint(p);
                capacity = table_capacity(&self.ledger.outgoing_aliases);
                proof {
                    total_is_natural(footprint, publication);
                }
                plus(
                    plus(publication.total_bytes(), self.alias_growth(p, capacity)),
                    self.expiry_growth(p, footprint.expiring),
                )
            },
            Request::Subscribe(p) => {
                capacity = table_capacity(&self.ledger.outgoing_sub);
                plus(
                    times(p.filters.len(), core::mem::size_of::<QoS>()),
                    map_insert_growth(self.ledger.outgoing_sub.len(), capacity),
                )
            },
            Request::Unsubscribe(_) => {
                capacity = table_capacity(&self.ledger.outgoing_unsub);
                map_insert_growth(self.ledger.outgoing_unsub.len(), capacity)
            },
            Request::PubAck(p) => {
                capacity = table_capacity(&self.ledger.incoming_done);
                self.completion_growth(p.pkid, capacity)
            },
            Request::PubRec(p) => {
                let reason: u8 = u8::from(p.reason);
                capacity = table_capacity(&self.ledger.incoming_done);
                if reason >= 128 {
                    self.completion_growth(p.pkid, capacity)
                } else {
                    0
                }
            },
            _ => 0,
        };
        assert(extra == saturated(
            outgoing_extra(self@, request@, publication, capacity, footprint.expiring),
        ));
        proof {
            total_is_natural(footprint, publication);
        }
        plus(plus(footprint.total_bytes(), extra), 1024)
    }

    /// What the alias of a publication adds.
    fn alias_growth(&self, p: &Publish, capacity: usize) -> (r: usize)
        ensures
            r == saturated(alias_extra(self@, p@, capacity)),
            alias_extra(self@, p@, capacity) >= 0,
    {
        broadcast use vstd::std_specs::hash::group_hash_axioms;

        assert(self@.outgoing_aliases.dom() =~= self.ledger.outgoing_aliases@.dom());
        let alias: u16 = match topic_alias(p) {
            Some(alias) => alias,
            None => return 0,
        };
        if !p.topic.is_empty() {
            let more: usize = map_growth(
                self.ledger.outgoing_aliases.contains_key(&alias),
                self.ledger.outgoing_aliases.len(),
                capacity,
            );
            return plus(p.topic.len(), more);
        }
        if p.qos != QoS::AtMostOnce {
            if let Some(topic) = self.ledger.outgoing_aliases.get(&alias) {
                return topic.len();
            }
        }
        0
    }

    /// What a publication that can expire adds.
    fn expiry_growth(&self, p: &Publish, starts: usize) -> (r: usize)
        ensures
            r == saturated(expiry_extra(self@, p@, starts)),
            expiry_extra(self@, p@, starts) >= 0,
    {
        broadcast use vstd::std_specs::hash::group_hash_axioms;

        if p.qos != QoS::AtMostOnce && expiry_interval(p).is_some() {
            map_insert_growth(self.ledger.outgoing_expiry_started.len(), starts)
        } else {
            0
        }
    }

    /// What the token of an exchange adds.
    fn completion_growth(&self, id: u16, capacity: usize) -> (r: usize)
        ensures
            r == saturated(done_growth(self@, id, capacity)),
    {
        broadcast use vstd::std_specs::hash::group_hash_axioms;

        map_growth(
            self.ledger.incoming_done.contains_key(&(id as usize)),
            self.ledger.incoming_done.len(),
            capacity,
        )
    }

    /// A bound for what the state has allocated after a packet from the network.
    pub fn incoming_memory_bound(&self, packet: &Packet) -> (r: usize)
        requires
            self@.wf(),
        ensures
            exists|f: Footprint, aliases: usize, done: usize|
                {
                    &&& #[trigger] f.measures(self@)
                    &&& self.tells(f)
                    &&& self.tells_received(aliases, done)
                    &&& aliases >= self@.topic_aliases.dom().len()
                    &&& done >= self@.incoming_done.dom().len()
                    &&& r == saturated(
                        f.total() + #[trigger] incoming_extra(self@, packet@, aliases, done) + 1024,
                    )
                },
    {
        broadcast use vstd::std_specs::hash::group_hash_axioms;

        let footprint = self.footprint();
        let aliases: usize = table_capacity(&self.ledger.topic_alises);
        let done: usize = table_capacity(&self.ledger.incoming_done);
        proof {
            assert(self@.topic_aliases.dom() =~= self.ledger.topic_alises@.dom());
        }
        let extra: usize = match packet {
            Packet::Publish(p) => {
                let mut extra: usize = self.completion_growth(p.pkid, done);
                if let Some(alias) = topic_alias(p) {
                    if !p.topic.is_empty() {
                        let more: usize = map_growth(
                            self.ledger.topic_alises.contains_key(&alias),
                            self.ledger.topic_alises.len(),
                            aliases,
                        );
                        extra = plus(extra, plus(p.topic.len(), more));
                    }
                }
                extra
            },
            Packet::PubRel(p) => self.completion_growth(p.pkid, done),
            _ => 0,
        };
        assert(extra == saturated(incoming_extra(self@, packet@, aliases, done)));
        proof {
            total_is_natural(
                footprint,
                PublicationFootprint {
                    body: 0,
                    fields: 0,
                    user_slots: 0,
                    user_texts: 0,
                    identifiers: 0,
                },
            );
        }
        plus(plus(footprint.total_bytes(), extra), 1024)
    }
}

/// What a publication has allocated is not less than what it holds.
proof fn publication_is_covered(f: PublicationFootprint, p: PublishModel)
    requires
        f.measures(p),
    ensures
        saturated(f.total()) >= saturated(publication_len(p) as int),
{
    if let Some(v) = p.properties {
        scaled_sum(0, v.user_properties.len(), f.user_slots as nat, size_of::<(String, String)>());
        scaled_sum(0, v.subscription_identifiers.len(), f.identifiers as nat, size_of::<usize>());
    } else {
        assert(0 * size_of::<(String, String)>() == 0 && 0 * size_of::<usize>() == 0)
            by (nonlinear_arith);
    }
}

/// Sizes are not negative.
proof fn total_is_natural(f: Footprint, p: PublicationFootprint)
    ensures
        f.total() >= 0,
        p.total() >= 0,
{
    assert(f.queue * size_of::<u16>() >= 0) by (nonlinear_arith);
    assert(f.expiring * size_of::<Instant>() >= 0) by (nonlinear_arith);
    assert(f.slots * size_of::<Option<Publish>>() >= 0) by (nonlinear_arith);
    assert(f.blocks * size_of::<usize>() >= 0) by (nonlinear_arith);
    assert(f.events * size_of::<Event>() >= 0) by (nonlinear_arith);
    assert(p.user_slots * size_of::<(String, String)>() >= 0) by (nonlinear_arith);
    assert(p.identifiers * size_of::<usize>() >= 0) by (nonlinear_arith);
}

} // verus!
