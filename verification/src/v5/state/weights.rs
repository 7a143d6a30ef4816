//! What each part of a state counts for in the estimates of its memory, and what a transition may
//! add.
use std::time::Instant;

use vstd::layout::size_of;
use vstd::prelude::*;
use vstd::utf8::encode_utf8;

use super::memory::{
    growth, incoming_extra, initial_bound, levels_len, outgoing_extra, publication_len,
    publications_len, Footprint, PublicationFootprint,
};
use super::model::StateModel;
use super::MqttState;
use crate::memory::saturated;
use crate::state::memory::blocks_of;
use crate::state::weights::{blocks_hold, difference};
use crate::tables::total_len;
use crate::v5::event::{Event, RequestModel};
use crate::v5::mqttbytes::v5::packet::PacketModel;
use crate::v5::mqttbytes::v5::publish::{Publish, PublishModel};
use crate::v5::mqttbytes::v5::pubrec::PubRecReason;
use crate::v5::mqttbytes::QoS;

verus! {

/// Each part counts for itself: a flag and a slot of a table for 128 octets, a time of expiry for
/// 64 and what it takes, a slot, a block and an event for what they take, and an octet for one. An
/// empty state counts for what it takes itself.
pub proof fn parts_count_for_themselves(f: Footprint, g: Footprint)
    ensures
        g.total() - f.total() == 128 * (g.flags - f.flags) + (g.queue - f.queue) * size_of::<u16>()
            + 64 * (g.expiring - f.expiring) + (g.expiring - f.expiring) * size_of::<Instant>() + (
        g.slots - f.slots) * size_of::<Option<Publish>>() + (g.publications - f.publications) + (
        g.blocks - f.blocks) * size_of::<usize>() + (g.levels - f.levels) + 128 * (g.tables
            - f.tables) + (g.aliases - f.aliases) + (g.events - f.events) * size_of::<Event>(),
        (Footprint {
            flags: 0,
            queue: 0,
            expiring: 0,
            slots: 0,
            publications: 0,
            blocks: 0,
            levels: 0,
            tables: 0,
            aliases: 0,
            events: 0,
        }).total() == size_of::<MqttState>(),
{
    difference(g.queue as int, f.queue as int, size_of::<u16>() as int);
    difference(g.expiring as int, f.expiring as int, size_of::<Instant>() as int);
    difference(g.slots as int, f.slots as int, size_of::<Option<Publish>>() as int);
    difference(g.blocks as int, f.blocks as int, size_of::<usize>() as int);
    difference(g.events as int, f.events as int, size_of::<Event>() as int);
    difference(0, 0, size_of::<u16>() as int);
    difference(0, 0, size_of::<Instant>() as int);
    difference(0, 0, size_of::<Option<Publish>>() as int);
    difference(0, 0, size_of::<usize>() as int);
    difference(0, 0, size_of::<Event>() as int);
}

/// Each part of a publication counts for itself, and an empty publication for nothing.
pub proof fn publication_parts_count_for_themselves(
    f: PublicationFootprint,
    g: PublicationFootprint,
)
    ensures
        g.total() - f.total() == (g.body - f.body) + (g.fields - f.fields) + (g.user_slots
            - f.user_slots) * size_of::<(String, String)>() + (g.user_texts - f.user_texts) + (
        g.identifiers - f.identifiers) * size_of::<usize>(),
        (PublicationFootprint {
            body: 0,
            fields: 0,
            user_slots: 0,
            user_texts: 0,
            identifiers: 0,
        }).total() == 0,
{
    difference(g.user_slots as int, f.user_slots as int, size_of::<(String, String)>() as int);
    difference(g.identifiers as int, f.identifiers as int, size_of::<usize>() as int);
    difference(0, 0, size_of::<(String, String)>() as int);
    difference(0, 0, size_of::<usize>() as int);
}

/// What is estimated for a part is not less than what the part holds.
pub proof fn parts_cover_what_is_held(f: Footprint, s: StateModel)
    requires
        f.measures(s),
    ensures
        f.flags == s.transmission_flags.dom().len(),
        f.queue >= s.resume_queue.len(),
        f.expiring >= s.expiring.dom().len(),
        f.slots >= s.outgoing_pub.len(),
        f.publications >= saturated(publications_len(s.outgoing_pub) as int),
        f.blocks * usize::BITS >= s.resume_sent.len() + s.outgoing_rel.len() + s.incoming_pub.len()
            + s.incoming_ack.len() + s.incoming_rec.len(),
        f.levels >= saturated(levels_len(s.outgoing_sub, s.outgoing_sub.dom())),
        f.tables >= saturated(
            (s.outgoing_sub.dom().len() + s.outgoing_unsub.dom().len() + s.incoming_done.dom().len()
                + s.topic_aliases.dom().len() + s.outgoing_aliases.dom().len()) as int,
        ),
        f.aliases == saturated(
            (total_len(s.topic_aliases, s.topic_aliases.dom(), 65536) + total_len(
                s.outgoing_aliases,
                s.outgoing_aliases.dom(),
                65536,
            )) as int,
        ),
        f.events >= s.events.len(),
{
    let w = usize::BITS as int;
    let a = blocks_of(s.resume_sent.len());
    let b = blocks_of(s.outgoing_rel.len());
    let c = blocks_of(s.incoming_pub.len());
    let d = blocks_of(s.incoming_ack.len());
    let e = blocks_of(s.incoming_rec.len());
    blocks_hold(s.resume_sent.len());
    blocks_hold(s.outgoing_rel.len());
    blocks_hold(s.incoming_pub.len());
    blocks_hold(s.incoming_ack.len());
    blocks_hold(s.incoming_rec.len());
    assert((a + b + c + d + e) * w == a * w + b * w + c * w + d * w + e * w) by (nonlinear_arith);
}

/// A publication counts for its topic, its payload and what its properties hold, and all that are
/// kept count.
pub proof fn publications_count_in_full(slots: Seq<Option<PublishModel>>, p: PublishModel)
    ensures
        publications_len(Seq::empty()) == 0,
        publications_len(slots.push(None)) == publications_len(slots),
        publications_len(slots.push(Some(p))) == publications_len(slots) + publication_len(p),
        p.properties is None ==> publication_len(p) == p.topic.len() + p.payload.len(),
        p.properties is Some ==> {
            let v = p.properties->0;
            publication_len(p) >= p.topic.len() + p.payload.len() + (if v.response_topic is Some {
                encode_utf8(v.response_topic->0).len()
            } else {
                0
            }) + (if v.content_type is Some {
                encode_utf8(v.content_type->0).len()
            } else {
                0
            }) + (if v.correlation_data is Some {
                v.correlation_data->0.len()
            } else {
                0
            }) + v.user_properties.len() * size_of::<(String, String)>()
                + v.subscription_identifiers.len() * size_of::<usize>()
        },
{
    assert(slots.push(None).drop_last() =~= slots);
    assert(slots.push(Some(p)).drop_last() =~= slots);
}

/// What a new state may take: its slots, a bit for each identifier in two sets of its own and in
/// three sets of all identifiers, with 64 octets for each set, 192 octets more, and a hundred
/// events.
pub proof fn new_state_counts_its_slots(maximum: u16)
    ensures
        initial_bound(maximum) == size_of::<MqttState>() + (maximum + 1) * size_of::<
            Option<Publish>,
        >() + 2 * (maximum / 8 + 1) + 3 * 8192 + 5 * 64 + 192 + 100 * size_of::<Event>(),
{
}

/// A table that has room, or has the entry already, does not grow; one that is full is taken to
/// double, at 256 octets for each slot and four more.
pub proof fn full_table_doubles(present: bool, len: nat, capacity: usize)
    ensures
        present || len < capacity ==> growth(present, len, capacity) == 0,
        !present && len >= capacity ==> growth(present, len, capacity) == 256 * capacity + 1024,
{
    assert((capacity + 4) * 256 == 256 * capacity + 1024) by (nonlinear_arith);
}

/// What a request may add: a publication what it holds, the topic that its alias is given or stands
/// for where it is kept, and the tables of aliases and of times; a subscription a level for each
/// filter and the table; a removal the table; an acknowledgement that ends an exchange the table of
/// exchanges. All other requests add nothing.
pub proof fn request_adds_what_it_brings(
    s: StateModel,
    request: RequestModel,
    f: PublicationFootprint,
    capacity: usize,
    starts: usize,
)
    ensures
        ({
            let extra = outgoing_extra(s, request, f, capacity, starts);
            match request {
                RequestModel::Publish(p) => {
                    let aliased = p.properties is Some && p.properties->0.topic_alias is Some;
                    let alias = p.properties->0.topic_alias->0;
                    let timed = p.qos != QoS::AtMostOnce && p.properties is Some
                        && p.properties->0.message_expiry_interval is Some;
                    extra == f.total() + (if aliased && p.topic.len() > 0 {
                        p.topic.len() + growth(
                            s.outgoing_aliases.contains_key(alias),
                            s.outgoing_aliases.dom().len(),
                            capacity,
                        )
                    } else if aliased && p.qos != QoS::AtMostOnce
                        && s.outgoing_aliases.contains_key(alias) {
                        s.outgoing_aliases[alias].len() as int
                    } else {
                        0
                    }) + (if timed {
                        growth(false, s.expiring.dom().len(), starts)
                    } else {
                        0
                    })
                },
                RequestModel::Subscribe(p) => extra == p.filters.len() * size_of::<QoS>() + growth(
                    false,
                    s.outgoing_sub.dom().len(),
                    capacity,
                ),
                RequestModel::Unsubscribe(_) => extra == growth(
                    false,
                    s.outgoing_unsub.dom().len(),
                    capacity,
                ),
                RequestModel::PubAck(p) => extra == growth(
                    s.incoming_done.contains_key(p.pkid as usize),
                    s.incoming_done.dom().len(),
                    capacity,
                ),
                RequestModel::PubRec(p) => extra == if p.reason == PubRecReason::Success || p.reason
                    == PubRecReason::NoMatchingSubscribers {
                    0
                } else {
                    growth(
                        s.incoming_done.contains_key(p.pkid as usize),
                        s.incoming_done.dom().len(),
                        capacity,
                    )
                },
                _ => extra == 0,
            }
        }),
{
}

/// What a packet may add: a publication the topic that its alias is given with the table of
/// aliases, and the table of exchanges; a release the table of exchanges. All other packets add
/// nothing.
pub proof fn packet_adds_what_it_brings(
    s: StateModel,
    packet: PacketModel,
    aliases: usize,
    done: usize,
)
    ensures
        ({
            let extra = incoming_extra(s, packet, aliases, done);
            match packet {
                PacketModel::Publish(p) => {
                    let alias = p.properties->0.topic_alias->0;
                    extra == growth(
                        s.incoming_done.contains_key(p.pkid as usize),
                        s.incoming_done.dom().len(),
                        done,
                    ) + (if p.properties is Some && p.properties->0.topic_alias is Some
                        && p.topic.len() > 0 {
                        p.topic.len() + growth(
                            s.topic_aliases.contains_key(alias),
                            s.topic_aliases.dom().len(),
                            aliases,
                        )
                    } else {
                        0
                    })
                },
                PacketModel::PubRel(p) => extra == growth(
                    s.incoming_done.contains_key(p.pkid as usize),
                    s.incoming_done.dom().len(),
                    done,
                ),
                _ => extra == 0,
            }
        }),
{
}

} // verus!
