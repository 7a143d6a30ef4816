//! What each part of a state counts for in the estimates of its memory.
use vstd::layout::size_of;
use vstd::prelude::*;
use vstd::utf8::encode_utf8;

use super::memory::{blocks_of, initial_bound, levels_len, published_octets, Footprint};
use super::model::StateModel;
use super::MqttState;
use crate::event::Event;
use crate::memory::saturated;
use crate::mqttbytes::v4::{Publish, PublishModel};

verus! {

/// The difference of two products with one factor.
pub proof fn difference(a: int, b: int, scale: int)
    by (nonlinear_arith)
    ensures
        (a - b) * scale == a * scale - b * scale,
{
}

/// Each part counts for itself: a flag for 128 octets, a slot, a block and an event for what they
/// take, and an octet for one. An empty state counts for what it takes itself.
pub proof fn parts_count_for_themselves(f: Footprint, g: Footprint)
    ensures
        g.total() - f.total() == 128 * (g.flags - f.flags) + (g.slots - f.slots) * size_of::<
            Option<Publish>,
        >() + (g.publications - f.publications) + (g.blocks - f.blocks) * size_of::<usize>() + (
        g.subscriptions - f.subscriptions) + (g.events - f.events) * size_of::<Event>(),
        (Footprint {
            flags: 0,
            slots: 0,
            publications: 0,
            blocks: 0,
            subscriptions: 0,
            events: 0,
        }).total() == size_of::<MqttState>(),
{
    difference(g.slots as int, f.slots as int, size_of::<Option<Publish>>() as int);
    difference(g.blocks as int, f.blocks as int, size_of::<usize>() as int);
    difference(g.events as int, f.events as int, size_of::<Event>() as int);
    difference(0, 0, size_of::<Option<Publish>>() as int);
    difference(0, 0, size_of::<usize>() as int);
    difference(0, 0, size_of::<Event>() as int);
}

/// What is estimated for a part is not less than what the part holds.
pub proof fn parts_cover_what_is_held(f: Footprint, s: StateModel)
    requires
        f.measures(s),
    ensures
        f.flags == s.transmission_flags.dom().len(),
        f.slots >= s.outgoing_pub.len(),
        f.publications >= saturated(published_octets(s.outgoing_pub) as int),
        f.blocks * usize::BITS >= s.outgoing_rel.len() + s.incoming_pub.len()
            + s.incoming_ack.len() + s.incoming_rec.len() + s.outgoing_unsub.len(),
        f.subscriptions >= saturated(
            128 * s.outgoing_sub.dom().len() + levels_len(s.outgoing_sub, s.outgoing_sub.dom()),
        ),
        f.events >= s.events.len(),
{
    let w = usize::BITS as int;
    let a = blocks_of(s.outgoing_rel.len());
    let b = blocks_of(s.incoming_pub.len());
    let c = blocks_of(s.incoming_ack.len());
    let d = blocks_of(s.incoming_rec.len());
    let e = blocks_of(s.outgoing_unsub.len());
    blocks_hold(s.outgoing_rel.len());
    blocks_hold(s.incoming_pub.len());
    blocks_hold(s.incoming_ack.len());
    blocks_hold(s.incoming_rec.len());
    blocks_hold(s.outgoing_unsub.len());
    assert((a + b + c + d + e) * w == a * w + b * w + c * w + d * w + e * w) by (nonlinear_arith);
}

/// Blocks hold the bits that they are made for.
pub proof fn blocks_hold(n: nat)
    ensures
        n <= blocks_of(n) * usize::BITS < n + usize::BITS,
{
    if usize::BITS == 32 {
        assert(blocks_of(n) == (n + 31) / 32);
    } else {
        assert(blocks_of(n) == (n + 63) / 64);
    }
}

/// Each publication that is kept counts for its topic in UTF-8 and its payload.
pub proof fn publications_count_in_full(slots: Seq<Option<PublishModel>>, p: PublishModel)
    ensures
        published_octets(Seq::empty()) == 0,
        published_octets(slots.push(None)) == published_octets(slots),
        published_octets(slots.push(Some(p))) == published_octets(slots) + encode_utf8(
            p.topic,
        ).len() + p.payload.len(),
{
    assert(slots.push(None).drop_last() =~= slots);
    assert(slots.push(Some(p)).drop_last() =~= slots);
}

/// What a new state may take: its slots, a bit for each identifier in two sets of its own and in
/// three sets of all identifiers, with 64 octets for each set, and a hundred events.
pub proof fn new_state_counts_its_slots(max_inflight: u16)
    ensures
        initial_bound(max_inflight) == size_of::<MqttState>() + (max_inflight + 1) * size_of::<
            Option<Publish>,
        >() + 2 * (max_inflight / 8 + 1) + 3 * 8192 + 5 * 64 + 100 * size_of::<Event>(),
{
}

} // verus!
