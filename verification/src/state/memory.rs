//! How much memory the state machine retains.
use vstd::layout::size_of;
use vstd::prelude::*;
use vstd::utf8::encode_utf8;

use crate::bitset::block_count;
use crate::event::Event;
use crate::memory::{
    deque_capacity, plus, saturated, string_capacity, sum_of, sum_push, times, vec_capacity,
};
use crate::mqttbytes::QoS;
use crate::mqttbytes::v4::{Publish, PublishModel};
use crate::octets::octets;
use crate::tables::{
    listed_before, listed_grows, lists, ordered_keys, total_len, total_len_empty, total_len_insert,
};
use super::MqttState;
use super::model::StateModel;

verus! {

/// What the parts of a state have allocated.
pub struct Footprint {
    /// Flags of a controlled writer
    pub flags: usize,
    /// Slots for publications
    pub slots: usize,
    /// Octets of the publications
    pub publications: usize,
    /// Blocks of the sets of identifiers
    pub blocks: usize,
    /// Octets of the subscriptions
    pub subscriptions: usize,
    /// Slots for events
    pub events: usize,
}

/// The number of blocks that `n` bits fill.
pub open spec fn blocks_of(n: nat) -> int {
    (n + usize::BITS - 1) / (usize::BITS as int)
}

/// The octets of the topics and the payloads.
pub open spec fn published_octets(slots: Seq<Option<PublishModel>>) -> nat
    decreases slots.len(),
{
    if slots.len() == 0 {
        0
    } else {
        published_octets(slots.drop_last()) + match slots.last() {
            Some(p) => encode_utf8(p.topic).len() + p.payload.len(),
            None => 0,
        }
    }
}

/// The octets of the levels that pending subscriptions ask for.
pub open spec fn levels_len(m: Map<u16, Seq<QoS>>, ids: Set<u16>) -> int {
    (total_len(m, ids, 65536) * size_of::<QoS>()) as int
}

/// One more item in front of a scaled sum, and a scaled capacity that is not less than its use.
pub proof fn scaled_sum(a: nat, used: nat, capacity: nat, scale: nat)
    by (nonlinear_arith)
    requires
        used <= capacity,
    ensures
        (a + used) * scale == a * scale + used * scale,
        0 <= a * scale,
        0 <= used * scale <= capacity * scale,
{
}

impl Footprint {
    /// The number of octets of all parts.
    pub open spec fn total(self) -> int {
        size_of::<MqttState>() + self.flags * 128 + self.slots * size_of::<Option<Publish>>()
            + self.publications + self.blocks * size_of::<usize>() + self.subscriptions
            + self.events * size_of::<Event>()
    }

    /// Whether the parts are those of a state: what is allocated is not less than what is held.
    pub open spec fn measures(self, s: StateModel) -> bool {
        &&& self.flags == s.transmission_flags.len()
        &&& self.slots >= s.outgoing_pub.len()
        &&& self.publications >= saturated(published_octets(s.outgoing_pub) as int)
        &&& self.blocks == blocks_of(s.outgoing_rel.len()) + blocks_of(s.incoming_pub.len())
            + blocks_of(s.incoming_ack.len()) + blocks_of(s.incoming_rec.len()) + blocks_of(
            s.outgoing_unsub.len(),
        )
        &&& self.subscriptions >= saturated(
            128 * s.outgoing_sub.dom().len() + levels_len(s.outgoing_sub, s.outgoing_sub.dom()),
        )
        &&& self.events >= s.events.len()
    }

    /// The number of octets of all parts, at most the largest `usize`.
    pub fn total_bytes(&self) -> (r: usize)
        ensures
            r == saturated(self.total()),
    {
        let mut total: usize = core::mem::size_of::<MqttState>();
        total = plus(total, times(self.flags, 128));
        total = plus(total, times(self.slots, core::mem::size_of::<Option<Publish>>()));
        total = plus(total, self.publications);
        total = plus(total, times(self.blocks, core::mem::size_of::<usize>()));
        total = plus(total, self.subscriptions);
        plus(total, times(self.events, core::mem::size_of::<Event>()))
    }
}

/// The octets that a new state may take.
pub open spec fn initial_bound(max_inflight: u16) -> int {
    size_of::<MqttState>() + (max_inflight + 1) * size_of::<Option<Publish>>() + 3 * (65536int / 8
        + 64) + 2 * ((max_inflight + 8) / 8 + 64) + 100 * size_of::<Event>()
}

/// The blocks of a set take an octet for eight bits, and part of one block more.
pub proof fn blocks_take(n: nat)
    ensures
        0 <= 8 * (blocks_of(n) * size_of::<usize>()) <= n + 63,
{
    broadcast use vstd::layout::layout_of_primitives;

    let b = blocks_of(n);
    if usize::BITS == 32 {
        assert(size_of::<usize>() == 4);
        assert(b * 4 * 8 <= n + 31);
    } else {
        assert(size_of::<usize>() == 8);
        assert(b * 8 * 8 <= n + 63);
    }
}

/// A new state whose containers have no more room than was asked for is within the bound for a new
/// state.
pub proof fn lean_start_is_within_bound(max_inflight: u16, manual_acks: bool, f: Footprint)
    requires
        f.measures(StateModel::initial(max_inflight, manual_acks)),
        f.slots <= max_inflight + 1,
        f.publications == 0,
        f.subscriptions == 0,
        f.events <= 100,
    ensures
        saturated(f.total()) <= saturated(initial_bound(max_inflight)),
{
    let slots = (max_inflight + 1) as nat;
    let a = blocks_of(slots);
    let b = blocks_of(65536);
    let size = size_of::<usize>();
    blocks_take(slots);
    blocks_take(65536);
    assert(f.blocks == 2 * a + 3 * b);
    assert((2 * a + 3 * b) * size == 2 * (a * size) + 3 * (b * size)) by (nonlinear_arith);
    scaled_sum(0, f.slots as nat, slots, size_of::<Option<Publish>>());
    scaled_sum(0, f.events as nat, 100, size_of::<Event>());
}

/// Whether a slot holds a publication that has allocated `n` octets, as its topic told.
spec fn told_slot(slot: Option<Publish>, n: usize) -> bool {
    match slot {
        Some(p) => exists|topic: usize|
            #[trigger] call_ensures(string_capacity, (&p.topic,), topic) && n == saturated(
                topic + octets(p.payload).len(),
            ),
        None => n == 0,
    }
}

/// Whether slots hold publications that have allocated as many octets.
spec fn told_slots(slots: Seq<Option<Publish>>, readings: Seq<usize>) -> bool {
    &&& readings.len() == slots.len()
    &&& forall|i: int| 0 <= i < slots.len() ==> told_slot(#[trigger] slots[i], readings[i])
}

/// Whether the levels of pending subscriptions have that room, as each told.
spec fn told_levels(m: Map<u16, Vec<QoS>>, keys: Seq<u16>, readings: Seq<usize>) -> bool {
    &&& lists(keys, m.dom())
    &&& readings.len() == keys.len()
    &&& forall|i: int|
        0 <= i < keys.len() ==> call_ensures(
            vec_capacity::<QoS>,
            (&m[#[trigger] keys[i]],),
            readings[i],
        )
}

impl MqttState {
    /// Whether the slots told that their publications have allocated `n` octets.
    closed spec fn tells_publications(&self, n: usize) -> bool {
        exists|readings: Seq<usize>|
            #[trigger] told_slots(self.outgoing_pub@, readings) && n == saturated(
                sum_of(readings) as int,
            )
    }

    /// Whether pending subscriptions told that they have allocated `n` octets.
    closed spec fn tells_subscriptions(&self, n: usize) -> bool {
        exists|keys: Seq<u16>, readings: Seq<usize>|
            #[trigger] told_levels(self.ledger.outgoing_sub@, keys, readings) && n == saturated(
                (128 * keys.len() + sum_of(readings) * size_of::<QoS>()) as int,
            )
    }

    /// Whether the parts of the state are what its own containers told.
    pub closed spec fn tells(&self, f: Footprint) -> bool {
        &&& call_ensures(vec_capacity::<Option<Publish>>, (&self.outgoing_pub,), f.slots)
        &&& self.tells_publications(f.publications)
        &&& self.tells_subscriptions(f.subscriptions)
        &&& call_ensures(deque_capacity::<Event>, (&self.events,), f.events)
    }

    /// Conservative initial allocation bound for pre-admission before creating
    /// the state or connecting a transport. The fixed-bitset allowances include
    /// 64 bytes of block/alignment rounding per allocation. Regression tests
    /// compare this bound with the actual retained allocations at boundary sizes.
    pub fn initial_memory_bound(max_inflight: u16) -> (r: usize)
        ensures
            r == saturated(initial_bound(max_inflight)),
    {
        let slots: usize = max_inflight as usize + 1;
        let mut total: usize = core::mem::size_of::<MqttState>();
        total = plus(total, times(slots, core::mem::size_of::<Option<Publish>>()));
        total = plus(total, 3 * (65536 / 8 + 64));
        total = plus(total, 2 * ((slots + 7) / 8 + 64));
        plus(total, times(100, core::mem::size_of::<Event>()))
    }

    /// What pending subscriptions have allocated.
    fn subscriptions_size(&self) -> (r: usize)
        ensures
            r >= saturated(
                128 * self@.outgoing_sub.dom().len() + levels_len(
                    self@.outgoing_sub,
                    self@.outgoing_sub.dom(),
                ),
            ),
            self.tells_subscriptions(r),
    {
        broadcast use vstd::std_specs::btree::group_btree_axioms;

        let ghost m = self@.outgoing_sub;
        let keys = ordered_keys(&self.ledger.outgoing_sub);
        let mut subscriptions: usize = 0;
        let ghost mut readings: Seq<usize> = Seq::empty();
        let mut k: usize = 0;
        proof {
            assert(m.dom() =~= self.ledger.outgoing_sub@.dom());
            keys@.unique_seq_to_set();
            assert(listed_before(keys@, 0) =~= Set::<u16>::empty());
            total_len_empty(m, 65536);
            assert(0 * size_of::<QoS>() == 0) by (nonlinear_arith);
        }
        while k < keys.len()
            invariant
                k <= keys@.len(),
                m == self@.outgoing_sub,
                lists(keys@, self.ledger.outgoing_sub@.dom()),
                subscriptions >= saturated(
                    128 * k + levels_len(m, listed_before(keys@, k as int)),
                ),
                readings.len() == k,
                forall|i: int|
                    0 <= i < k ==> call_ensures(
                        vec_capacity::<QoS>,
                        (&self.ledger.outgoing_sub@[#[trigger] keys@[i]],),
                        readings[i],
                    ),
                subscriptions == saturated(128 * k + sum_of(readings) * size_of::<QoS>()),
            decreases keys@.len() - k,
        {
            let key: u16 = keys[k];
            proof {
                assert(keys@.to_set().contains(key));
                listed_grows(keys@, k as int);
                total_len_insert(m, listed_before(keys@, k as int), key, 65536);
            }
            let mut size: usize = 128;
            if let Some(levels) = self.ledger.outgoing_sub.get(&key) {
                let capacity: usize = vec_capacity(levels);
                proof {
                    scaled_sum(
                        total_len(m, listed_before(keys@, k as int), 65536),
                        levels@.len(),
                        capacity as nat,
                        size_of::<QoS>(),
                    );
                    scaled_sum(
                        sum_of(readings),
                        capacity as nat,
                        capacity as nat,
                        size_of::<QoS>(),
                    );
                    sum_push(readings, capacity);
                    readings = readings.push(capacity);
                }
                size = plus(size, times(capacity, core::mem::size_of::<QoS>()));
            }
            subscriptions = plus(subscriptions, size);
            k = k + 1;
        }
        proof {
            assert(keys@.take(k as int) =~= keys@);
            assert(told_levels(self.ledger.outgoing_sub@, keys@, readings));
        }
        subscriptions
    }

    /// What the publications have allocated.
    fn publications_size(&self) -> (r: usize)
        requires
            self@.wf(),
        ensures
            r >= saturated(published_octets(self@.outgoing_pub) as int),
            self.tells_publications(r),
    {
        let mut publications: usize = 0;
        let ghost mut readings: Seq<usize> = Seq::empty();
        let mut i: usize = 0;
        assert(self@.outgoing_pub.take(0) =~= Seq::<Option<PublishModel>>::empty());
        while i < self.outgoing_pub.len()
            invariant
                i <= self.outgoing_pub@.len(),
                publications >= saturated(
                    published_octets(self@.outgoing_pub.take(i as int)) as int,
                ),
                readings.len() == i,
                forall|j: int|
                    0 <= j < i ==> told_slot(#[trigger] self.outgoing_pub@[j], readings[j]),
                publications == saturated(sum_of(readings) as int),
            decreases self.outgoing_pub@.len() - i,
        {
            assert(self@.outgoing_pub.take(i + 1).drop_last() =~= self@.outgoing_pub.take(
                i as int,
            ));
            let mut size: usize = 0;
            if let Some(p) = &self.outgoing_pub[i] {
                let topic: usize = string_capacity(&p.topic);
                size = plus(topic, p.payload.len());
            }
            publications = plus(publications, size);
            proof {
                sum_push(readings, size);
                readings = readings.push(size);
            }
            i = i + 1;
        }
        proof {
            assert(self@.outgoing_pub.take(i as int) =~= self@.outgoing_pub);
            assert(told_slots(self.outgoing_pub@, readings));
        }
        publications
    }

    /// What the parts of the state have allocated.
    fn footprint(&self) -> (r: Footprint)
        requires
            self@.wf(),
        ensures
            r.measures(self@),
            self.tells(r),
    {
        broadcast use vstd::std_specs::btree::group_btree_axioms;

        let publications: usize = self.publications_size();
        let subscriptions: usize = self.subscriptions_size();
        Footprint {
            flags: self.ledger.transmission_flags.len(),
            slots: vec_capacity(&self.outgoing_pub),
            publications,
            blocks: block_count(&self.outgoing_rel) + block_count(&self.incoming_pub)
                + block_count(&self.ledger.incoming_ack) + block_count(&self.ledger.incoming_rec) + block_count(
                &self.ledger.outgoing_unsub,
            ),
            subscriptions,
            events: deque_capacity(&self.events),
        }
    }

    /// Conservative retained allocation estimate; callers should drain `events`
    /// after every transition before querying this value. Shared publish bytes
    /// are counted in full. No allocator-specific tree-node layout is assumed.
    pub fn retained_bytes(&self) -> (r: usize)
        requires
            self@.wf(),
        ensures
            exists|f: Footprint|
                #[trigger] f.measures(self@) && self.tells(f) && r == saturated(f.total()),
    {
        let footprint = self.footprint();
        footprint.total_bytes()
    }
}

} // verus!
