//! What requests and packets do, told from outside: what goes in, what comes out, and what is
//! different afterwards.
use std::sync::atomic::AtomicBool;
use std::sync::Arc;
use std::time::Instant;

use vstd::prelude::*;
use vstd::utf8::valid_utf8;

use super::model::{
    drop_keeps_wf, found_from_is_free, numbers, release_is_counted, somes, taken, Refusal,
    StateModel,
};
use super::{outcome, refusal, token_of, MqttState, StateError};
use crate::bitset::{
    bits, count, count_clear, count_update, none_is_counted, positions, positions_ascend,
};
use crate::event::Outgoing;
use crate::tables::total_len;
use crate::v5::event::{EventModel, RequestModel};
use crate::v5::mqttbytes::v5::connack::{ConnAckModel, ConnectReturnCode};
use crate::v5::mqttbytes::v5::disconnect::{DisconnectModel, DisconnectReasonCode};
use crate::v5::mqttbytes::v5::packet::{Packet, PacketModel};
use crate::v5::mqttbytes::v5::property::{pick, Entry, Value};
use crate::v5::mqttbytes::v5::puback::{PubAckModel, PubAckReason};
use crate::v5::mqttbytes::v5::pubcomp::{PubCompModel, PubCompReason};
use crate::v5::mqttbytes::v5::publish::{PublishModel, PublishPropertiesModel};
use crate::v5::mqttbytes::v5::pubrec::{PubRecModel, PubRecReason};
use crate::v5::mqttbytes::v5::pubrel::{PubRelModel, PubRelReason};
use crate::v5::mqttbytes::v5::suback::{SubAckModel, SubscribeReasonCode};
use crate::v5::mqttbytes::v5::subscribe::SubscribeModel;
use crate::v5::mqttbytes::v5::unsuback::UnsubAckModel;
use crate::v5::mqttbytes::v5::unsubscribe::UnsubscribeModel;
use crate::v5::mqttbytes::QoS;

verus! {

/// Whether nothing uses an identifier: no publication, no release, no subscription and no removal
/// of one.
pub open spec fn unused(s: StateModel, id: int) -> bool {
    &&& 1 <= id <= s.upper_limit
    &&& s.outgoing_pub[id] is None
    &&& !s.outgoing_rel[id]
    &&& !s.outgoing_sub.contains_key(id as u16)
    &&& !s.outgoing_unsub.contains_key(id as u16)
}

/// How many identifiers lie between the last one that was given out and `id`, around the end.
pub open spec fn distance(s: StateModel, id: int) -> int {
    if id > s.last_pkid {
        id - s.last_pkid
    } else {
        id - s.last_pkid + s.upper_limit
    }
}

/// Whether `id` is the nearest identifier behind the last one that nothing uses, around the end.
pub open spec fn nearest(s: StateModel, id: int) -> bool {
    &&& unused(s, id)
    &&& forall|other: int| #[trigger]
        unused(s, other) ==> distance(s, id) <= distance(s, other)
}

/// Whether all identifiers are in use.
pub open spec fn exhausted(s: StateModel) -> bool {
    forall|id: int| !(#[trigger] unused(s, id))
}

/// The identifier from which the next search starts once `id` was given out.
pub open spec fn behind(s: StateModel, id: u16) -> u16 {
    if id == s.upper_limit {
        0
    } else {
        id
    }
}

/// The state after a search that found nothing: it went around once.
pub open spec fn around(s: StateModel) -> StateModel {
    StateModel {
        last_pkid: if s.last_pkid == 0 {
            s.upper_limit
        } else {
            s.last_pkid
        },
        ..s
    }
}

proof fn found_from_is_nearest(s: StateModel, k: int)
    requires
        s.wf(),
        0 <= k <= s.upper_limit,
        forall|id: int| #[trigger] unused(s, id) ==> distance(s, id) > k,
    ensures
        s.find_from(k) matches Some(id) ==> nearest(s, id as int),
        s.find_from(k) is None ==> exhausted(s),
    decreases s.upper_limit - k,
{
    assert forall|id: int| #[trigger] unused(s, id) implies distance(s, id) <= s.upper_limit by {}
    if k < s.upper_limit {
        let n = s.nth_id(k);
        assert(distance(s, n) == k + 1);
        assert(s.free(n) == unused(s, n));
        if !s.free(n) {
            assert forall|id: int| #[trigger] unused(s, id) implies distance(s, id) > k + 1 by {
                if distance(s, id) == k + 1 {
                    assert(id == n);
                }
            }
            found_from_is_nearest(s, k + 1);
        }
    }
}

/// A new identifier is the nearest one behind the last that nothing uses; none is found exactly
/// where all are in use. The search goes on behind it.
pub proof fn nearest_identifier_is_found(s: StateModel)
    requires
        s.wf(),
    ensures
        s.next_available().0 matches Ok(id) ==> nearest(s, id as int) && s.next_available().1 == (
        StateModel { last_pkid: behind(s, id), ..s }),
        s.next_available().0 matches Err(e) ==> e == Refusal::OutgoingCapacity && exhausted(s)
            && s.next_available().1 == around(s),
        s.find_id() matches Some(id) ==> nearest(s, id as int),
        s.find_id() is None ==> exhausted(s),
{
    found_from_is_nearest(s, 0);
}

/// The topic alias that a publication carries.
pub open spec fn carried_alias(p: PublishModel) -> Option<u16> {
    if p.properties is Some {
        p.properties->0.topic_alias
    } else {
        None
    }
}

/// Whether the topics of all aliases take no more octets than allowed once `alias` stands for
/// `topic`.
pub open spec fn within_room(
    aliases: Map<u16, Seq<u8>>,
    alias: u16,
    topic: Seq<u8>,
    room: usize,
) -> bool {
    room == usize::MAX || total_len(aliases, aliases.dom().remove(alias), 65536) + topic.len()
        <= room
}

/// What is known of aliases once a publication was sent or received: one that comes with a topic
/// stands for it from then on.
pub open spec fn with_alias(aliases: Map<u16, Seq<u8>>, p: PublishModel) -> Map<u16, Seq<u8>> {
    if carried_alias(p) is Some && p.topic.len() > 0 {
        aliases.insert(carried_alias(p)->0, p.topic)
    } else {
        aliases
    }
}

/// The publication under its full topic: an alias without a topic stands for the topic that it was
/// last given.
pub open spec fn in_full(aliases: Map<u16, Seq<u8>>, p: PublishModel) -> PublishModel {
    if carried_alias(p) is Some && p.topic.len() == 0 {
        PublishModel { topic: aliases[carried_alias(p)->0], ..p }
    } else {
        p
    }
}

/// What is wrong with the alias of a publication: it is out of range, is not known yet or has no
/// room.
pub open spec fn alias_fault(
    aliases: Map<u16, Seq<u8>>,
    p: PublishModel,
    max: u16,
    room: usize,
) -> Option<Refusal> {
    if carried_alias(p) is None {
        None
    } else {
        let alias = carried_alias(p)->0;
        if !(1 <= alias <= max) {
            Some(Refusal::InvalidAlias { alias, max })
        } else if p.topic.len() == 0 && !aliases.contains_key(alias) || p.topic.len() > 0
            && !within_room(aliases, alias, p.topic, room) {
            Some(Refusal::InvalidState)
        } else {
            None
        }
    }
}

// Requests -----------------------------------------------------------------------------------

/// A publication is handed out as it was asked for. Only an identifier is added, where one is
/// needed and none was brought. What is handed out and needs an acknowledgement is kept with all
/// that it holds, under its full topic, and nothing else changes.
pub proof fn publication_is_handed_out_as_asked(s: StateModel, p: PublishModel, moment: Instant)
    requires
        s.wf(),
    ensures
        s.outgoing(RequestModel::Publish(p), moment).0 matches Ok(Some(x)) ==> {
            let t = s.outgoing(RequestModel::Publish(p), moment).1;
            &&& x matches PacketModel::Publish(q) && {
                &&& q.dup == p.dup
                &&& q.qos == p.qos
                &&& q.retain == p.retain
                &&& q.topic == p.topic
                &&& q.payload == p.payload
                &&& q.properties == p.properties
                &&& p.pkid != 0 || p.qos == QoS::AtMostOnce ==> q.pkid == p.pkid && t.last_pkid
                    == s.last_pkid
                &&& p.pkid == 0 && p.qos != QoS::AtMostOnce ==> nearest(s, q.pkid as int)
                    && t.last_pkid == behind(s, q.pkid)
                &&& t.events == s.events.push(EventModel::Outgoing(Outgoing::Publish(q.pkid)))
                &&& t.outgoing_aliases == with_alias(s.outgoing_aliases, p)
                &&& p.qos == QoS::AtMostOnce ==> t.outgoing_pub == s.outgoing_pub && t.inflight
                    == s.inflight && t.expiring == s.expiring
                &&& p.qos != QoS::AtMostOnce ==> {
                    &&& unused(s, q.pkid as int)
                    &&& s.inflight < s.max_outgoing_inflight
                    &&& t.outgoing_pub[q.pkid as int] matches Some(k) && {
                        &&& k.dup == p.dup
                        &&& k.qos == p.qos
                        &&& k.retain == p.retain
                        &&& k.pkid == q.pkid
                        &&& k.payload == p.payload
                        &&& k.properties == p.properties
                        &&& p.topic.len() > 0 ==> k.topic == p.topic
                        &&& p.topic.len() == 0 ==> s.outgoing_aliases.contains_key(
                            p.properties->0.topic_alias->0,
                        ) && k.topic == s.outgoing_aliases[p.properties->0.topic_alias->0]
                    }
                    &&& t.outgoing_pub.len() == s.outgoing_pub.len()
                    &&& forall|i: int|
                        0 <= i <= s.upper_limit && i != q.pkid ==> t.outgoing_pub[i]
                            == s.outgoing_pub[i]
                    &&& t.inflight == s.inflight + 1
                    &&& t.expiring == if p.properties is Some
                        && p.properties->0.message_expiry_interval is Some {
                        s.expiring.insert(q.pkid, moment)
                    } else {
                        s.expiring
                    }
                }
                &&& t == (StateModel {
                    last_pkid: t.last_pkid,
                    outgoing_pub: t.outgoing_pub,
                    inflight: t.inflight,
                    expiring: t.expiring,
                    outgoing_aliases: t.outgoing_aliases,
                    events: t.events,
                    ..s
                })
            }
        },
{
    nearest_identifier_is_found(s);
    found_from_is_free(s, 0);
}

/// A publication is refused exactly where its alias cannot be used, where the window of the broker
/// is full, where it cannot get an identifier or brings one that is out of range or in use by
/// another kind of exchange, and where it has neither a topic nor an alias. It waits exactly where
/// its identifier still belongs to a publication. All others are handed out.
pub proof fn publication_is_owed(s: StateModel, p: PublishModel, moment: Instant)
    requires
        s.wf(),
    ensures
        ({
            let (o, t) = s.outgoing(RequestModel::Publish(p), moment);
            let fault = alias_fault(
                s.outgoing_aliases,
                p,
                s.broker_topic_alias_max,
                s.alias_bytes_maximum,
            );
            let id = p.pkid as int;
            let nameless = p.topic.len() == 0 && carried_alias(p) is None;
            if fault is Some {
                o == Err::<Option<PacketModel>, Refusal>(fault->0) && t == s
            } else if p.qos == QoS::AtMostOnce {
                o is Ok && o->Ok_0 is Some
            } else if s.inflight >= s.max_outgoing_inflight {
                o == Err::<Option<PacketModel>, Refusal>(Refusal::OutgoingCapacity) && t == s
            } else if id == 0 {
                if exhausted(s) {
                    o == Err::<Option<PacketModel>, Refusal>(Refusal::OutgoingCapacity) && t
                        == around(s)
                } else if nameless {
                    &&& o == Err::<Option<PacketModel>, Refusal>(Refusal::InvalidState)
                    &&& t == (StateModel { last_pkid: t.last_pkid, ..s })
                    &&& s.next_available().0 matches Ok(found) && t.last_pkid == behind(s, found)
                } else {
                    o is Ok && o->Ok_0 is Some
                }
            } else if id <= s.upper_limit && s.outgoing_rel[id] || s.outgoing_sub.contains_key(
                p.pkid,
            ) || s.outgoing_unsub.contains_key(p.pkid) {
                o == Err::<Option<PacketModel>, Refusal>(Refusal::InvalidState) && t == s
            } else if id > s.upper_limit {
                o == Err::<Option<PacketModel>, Refusal>(Refusal::Unsolicited(p.pkid)) && t == s
            } else if s.outgoing_pub[id] is Some {
                &&& o == Ok::<Option<PacketModel>, Refusal>(None)
                &&& t.collision == Some(p)
                &&& t.events == s.events.push(EventModel::Outgoing(Outgoing::AwaitAck(p.pkid)))
                &&& t == (StateModel { collision: t.collision, events: t.events, ..s })
            } else if nameless {
                o == Err::<Option<PacketModel>, Refusal>(Refusal::InvalidState) && t == s
            } else {
                o is Ok && o->Ok_0 is Some
            }
        }),
{
    nearest_identifier_is_found(s);
    found_from_is_free(s, 0);
}

/// A subscription is handed out as it was asked for, under the nearest identifier that nothing
/// uses, and what it asks for is kept under that identifier. One without filters is refused, and
/// so is one that gets no identifier.
pub proof fn subscription_is_handed_out_as_asked(s: StateModel, p: SubscribeModel, moment: Instant)
    requires
        s.wf(),
    ensures
        ({
            let (o, t) = s.outgoing(RequestModel::Subscribe(p), moment);
            if p.filters.len() == 0 {
                o == Err::<Option<PacketModel>, Refusal>(Refusal::EmptySubscription) && t == s
            } else if exhausted(s) {
                o == Err::<Option<PacketModel>, Refusal>(Refusal::OutgoingCapacity) && t == around(
                    s,
                )
            } else {
                &&& o matches Ok(Some(PacketModel::Subscribe(q))) && {
                    &&& q.filters == p.filters
                    &&& q.properties == p.properties
                    &&& nearest(s, q.pkid as int)
                    &&& t.last_pkid == behind(s, q.pkid)
                    &&& t.outgoing_sub.dom() == s.outgoing_sub.dom().insert(q.pkid)
                    &&& t.outgoing_sub[q.pkid].len() == p.filters.len()
                    &&& forall|i: int|
                        0 <= i < p.filters.len() ==> (#[trigger] t.outgoing_sub[q.pkid][i])
                            == p.filters[i].qos
                    &&& forall|id: u16| #[trigger]
                        s.outgoing_sub.contains_key(id) ==> t.outgoing_sub[id]
                            == s.outgoing_sub[id]
                    &&& t.events == s.events.push(EventModel::Outgoing(Outgoing::Subscribe(q.pkid)))
                }
                &&& t == (StateModel {
                    last_pkid: t.last_pkid,
                    outgoing_sub: t.outgoing_sub,
                    events: t.events,
                    ..s
                })
            }
        }),
{
    nearest_identifier_is_found(s);
}

/// The removal of subscriptions is handed out as it was asked for, under the nearest identifier
/// that nothing uses, and the number of its filters is kept under that identifier. One without
/// filters is refused, and so is one that gets no identifier.
pub proof fn removal_is_handed_out_as_asked(s: StateModel, p: UnsubscribeModel, moment: Instant)
    requires
        s.wf(),
        p.filters.len() <= usize::MAX,
    ensures
        ({
            let (o, t) = s.outgoing(RequestModel::Unsubscribe(p), moment);
            if p.filters.len() == 0 {
                o == Err::<Option<PacketModel>, Refusal>(Refusal::EmptySubscription) && t == s
            } else if exhausted(s) {
                o == Err::<Option<PacketModel>, Refusal>(Refusal::OutgoingCapacity) && t == around(
                    s,
                )
            } else {
                &&& o matches Ok(Some(PacketModel::Unsubscribe(q))) && {
                    &&& q.filters == p.filters
                    &&& q.properties == p.properties
                    &&& nearest(s, q.pkid as int)
                    &&& t.last_pkid == behind(s, q.pkid)
                    &&& t.outgoing_unsub.dom() == s.outgoing_unsub.dom().insert(q.pkid)
                    &&& t.outgoing_unsub[q.pkid] == p.filters.len()
                    &&& forall|id: u16| #[trigger]
                        s.outgoing_unsub.contains_key(id) ==> t.outgoing_unsub[id]
                            == s.outgoing_unsub[id]
                    &&& t.events == s.events.push(
                        EventModel::Outgoing(Outgoing::Unsubscribe(q.pkid)),
                    )
                }
                &&& t == (StateModel {
                    last_pkid: t.last_pkid,
                    outgoing_unsub: t.outgoing_unsub,
                    events: t.events,
                    ..s
                })
            }
        }),
{
    nearest_identifier_is_found(s);
}

/// A release goes out under the identifier that was asked for, or under the one behind the last,
/// and is marked and counted.
pub proof fn release_is_handed_out_as_asked(s: StateModel, p: PubRelModel, moment: Instant)
    requires
        s.wf(),
        p.pkid <= s.upper_limit,
        p.pkid == 0 ==> s.last_pkid < s.upper_limit,
        s.inflight < u16::MAX,
    ensures
        ({
            let (o, t) = s.outgoing(RequestModel::PubRel(p), moment);
            &&& s.admits(RequestModel::PubRel(p))
            &&& o matches Ok(Some(PacketModel::PubRel(q))) && {
                &&& q.reason == PubRelReason::Success
                &&& q.properties is None
                &&& p.pkid != 0 ==> q.pkid == p.pkid && t.last_pkid == s.last_pkid
                &&& p.pkid == 0 ==> q.pkid == s.last_pkid + 1 && t.last_pkid == if q.pkid
                    == s.max_outgoing_inflight {
                    0
                } else {
                    q.pkid
                }
                &&& t.outgoing_rel.len() == s.outgoing_rel.len()
                &&& forall|i: int|
                    0 <= i <= s.upper_limit ==> (#[trigger] t.outgoing_rel[i] <==> (i == q.pkid
                        || s.outgoing_rel[i]))
                &&& t.events == s.events.push(EventModel::Outgoing(Outgoing::PubRel(q.pkid)))
            }
            &&& t.inflight == s.inflight + 1
            &&& t == (StateModel {
                last_pkid: t.last_pkid,
                outgoing_rel: t.outgoing_rel,
                inflight: t.inflight,
                events: t.events,
                ..s
            })
        }),
{
}

/// A ping goes out unless the last one was not answered, or it is the second one while a
/// publication waits for an identifier. From then on an answer is awaited.
pub proof fn ping_awaits_its_answer(s: StateModel, moment: Instant)
    requires
        s.collision_ping_count < usize::MAX,
    ensures
        ({
            let (o, t) = s.outgoing(RequestModel::PingReq, moment);
            let waiting = s.collision is Some;
            &&& t.collision_ping_count == s.collision_ping_count + if waiting {
                1int
            } else {
                0
            }
            &&& t == (StateModel {
                collision_ping_count: t.collision_ping_count,
                await_pingresp: t.await_pingresp,
                events: t.events,
                ..s
            })
            &&& if waiting && s.collision_ping_count >= 1 {
                &&& o == Err::<Option<PacketModel>, Refusal>(Refusal::CollisionTimeout)
                &&& t.await_pingresp == s.await_pingresp && t.events == s.events
            } else if s.await_pingresp {
                &&& o == Err::<Option<PacketModel>, Refusal>(Refusal::AwaitPingResp)
                &&& t.await_pingresp && t.events == s.events
            } else {
                &&& o == Ok::<Option<PacketModel>, Refusal>(Some(PacketModel::PingReq))
                &&& t.await_pingresp
                &&& t.events == s.events.push(EventModel::Outgoing(Outgoing::PingReq))
            }
        }),
{
}

/// The end of the connection is always handed out, with the reason that was asked for, and
/// reported. A request for it gives the normal reason.
pub proof fn disconnect_is_handed_out(s: StateModel, reason: DisconnectReasonCode, moment: Instant)
    ensures
        s.disconnect(reason).0 matches Ok(Some(PacketModel::Disconnect(q))) && q.reason_code
            == reason && q.properties is None,
        s.disconnect(reason).1 == (StateModel {
            events: s.events.push(EventModel::Outgoing(Outgoing::Disconnect)),
            ..s
        }),
        s.outgoing(RequestModel::Disconnect, moment).0 matches Ok(
            Some(PacketModel::Disconnect(q)),
        ) && q.reason_code == DisconnectReasonCode::NormalDisconnection && q.properties is None,
        s.outgoing(RequestModel::Disconnect, moment).1 == s.disconnect(reason).1,
{
}

/// Whether one more exchange can get a token.
pub open spec fn tokens_left(s: StateModel) -> bool {
    s.next_completion + 65536 <= u64::MAX
}

/// Whether the exchange of `id`, which had no token, has ended between `s` and `t`: it awaits the
/// report that its last acknowledgement was written, under a token above all others, or is over at
/// once.
pub open spec fn closes(s: StateModel, t: StateModel, id: u16) -> bool {
    let token = s.next_completion + 65536 + id;
    &&& t.next_completion == s.next_completion + 65536
    &&& s.defer_write_completion ==> {
        &&& t.incoming_done == s.incoming_done.insert(id as usize, token as u64)
        &&& t.incoming_ack == s.incoming_ack
        &&& t.incoming_pub == s.incoming_pub
    }
    &&& !s.defer_write_completion ==> {
        &&& t.incoming_done == s.incoming_done
        &&& t.incoming_ack == s.incoming_ack.update(id as int, false)
        &&& t.incoming_pub == s.incoming_pub.update(id as int, false)
    }
}

/// An acknowledgement of an incoming publication goes out as it was asked for, exactly where one is
/// owed, and ends the exchange of its own identifier and no other.
pub proof fn owed_acknowledgement_is_handed_out(s: StateModel, p: PubAckModel, moment: Instant)
    requires
        s.wf(),
    ensures
        ({
            let (o, t) = s.outgoing(RequestModel::PubAck(p), moment);
            let id = p.pkid;
            if !s.incoming_ack[id as int] || s.incoming_done.contains_key(id as usize) {
                o == Err::<Option<PacketModel>, Refusal>(Refusal::Unsolicited(id)) && t == s
            } else if !tokens_left(s) {
                o == Err::<Option<PacketModel>, Refusal>(Refusal::InvalidState) && t == s
            } else {
                &&& o == Ok::<Option<PacketModel>, Refusal>(Some(PacketModel::PubAck(p)))
                &&& t.events == s.events.push(EventModel::Outgoing(Outgoing::PubAck(id)))
                &&& closes(s, t, id)
                &&& t == (StateModel {
                    events: t.events,
                    incoming_ack: t.incoming_ack,
                    incoming_pub: t.incoming_pub,
                    incoming_done: t.incoming_done,
                    next_completion: t.next_completion,
                    ..s
                })
            }
        }),
{
    let (o, t) = s.outgoing(RequestModel::PubAck(p), moment);
    if o is Ok {
        written_off(s, p.pkid);
        assert(t.incoming_pub =~= if s.defer_write_completion {
            s.incoming_pub
        } else {
            s.incoming_pub.update(p.pkid as int, false)
        });
        assert(t.incoming_rec =~= s.incoming_rec);
    }
}

proof fn written_off(s: StateModel, id: u16)
    requires
        s.wf(),
        id > 0,
        !s.incoming_done.contains_key(id as usize),
        tokens_left(s),
    ensures
        s.complete(id) matches Some(t) && closes(s, t, id) && t == (StateModel {
            incoming_ack: t.incoming_ack,
            incoming_pub: t.incoming_pub,
            incoming_rec: t.incoming_rec,
            incoming_done: t.incoming_done,
            next_completion: t.next_completion,
            ..s
        }) && t.incoming_rec == if s.defer_write_completion {
            s.incoming_rec
        } else {
            s.incoming_rec.update(id as int, false)
        },
{
    let token = (s.next_completion + 65536 + id) as u64;
    assert(token % 65536 == id);
    let t = s.complete(id)->0;
    if !s.defer_write_completion {
        assert(t.incoming_done =~= s.incoming_done);
    }
}

/// A receipt for an incoming publication goes out as it was asked for, exactly where the
/// publication is held and not settled, and is no longer owed then. A negative one ends the
/// exchange of its own identifier and no other.
pub proof fn owed_receipt_is_handed_out(s: StateModel, p: PubRecModel, moment: Instant)
    requires
        s.wf(),
    ensures
        ({
            let (o, t) = s.outgoing(RequestModel::PubRec(p), moment);
            let id = p.pkid;
            let negative = p.reason != PubRecReason::Success && p.reason
                != PubRecReason::NoMatchingSubscribers;
            if !s.incoming_pub[id as int] || s.incoming_done.contains_key(id as usize) {
                o == Err::<Option<PacketModel>, Refusal>(Refusal::Unsolicited(id)) && t == s
            } else {
                &&& t.incoming_rec == s.incoming_rec.update(id as int, false)
                &&& if negative && !tokens_left(s) {
                    &&& o == Err::<Option<PacketModel>, Refusal>(Refusal::InvalidState)
                    &&& t == (StateModel { incoming_rec: t.incoming_rec, ..s })
                } else {
                    &&& o == Ok::<Option<PacketModel>, Refusal>(Some(PacketModel::PubRec(p)))
                    &&& t.events == s.events.push(EventModel::Outgoing(Outgoing::PubRec(id)))
                    &&& negative ==> closes(s, t, id)
                    &&& !negative ==> t == (StateModel {
                        incoming_rec: t.incoming_rec,
                        events: t.events,
                        ..s
                    })
                    &&& t == (StateModel {
                        events: t.events,
                        incoming_ack: t.incoming_ack,
                        incoming_pub: t.incoming_pub,
                        incoming_rec: t.incoming_rec,
                        incoming_done: t.incoming_done,
                        next_completion: t.next_completion,
                        ..s
                    })
                }
            }
        }),
{
    let id = p.pkid;
    let (o, t) = s.outgoing(RequestModel::PubRec(p), moment);
    if s.incoming_pub[id as int] && !s.incoming_done.contains_key(id as usize) {
        let u = StateModel { incoming_rec: s.incoming_rec.update(id as int, false), ..s };
        if tokens_left(s) {
            crate::v5::state::model::allowed_is_wf(s, id);
            written_off(u, id);
            assert(u.incoming_rec.update(id as int, false) =~= u.incoming_rec);
        }
    }
}

/// The report that an acknowledgement was written ends the exchange of its token, and no other. A
/// token that is not in use changes nothing.
pub proof fn report_ends_exchange(s: StateModel, token: u64)
    requires
        s.wf(),
    ensures
        ({
            let t = s.written(token);
            let id = (token % 65536) as usize;
            if s.incoming_done.contains_key(id) && s.incoming_done[id] == token {
                &&& forall|other: usize| #[trigger]
                    t.incoming_done.contains_key(other) <==> (s.incoming_done.contains_key(other)
                        && other != id)
                &&& forall|other: usize| #[trigger]
                    t.incoming_done.contains_key(other) ==> t.incoming_done[other]
                        == s.incoming_done[other]
                &&& forall|i: int|
                    0 <= i < 65536 ==> (#[trigger] t.incoming_ack[i] <==> (s.incoming_ack[i] && i
                        != id))
                &&& forall|i: int|
                    0 <= i < 65536 ==> (#[trigger] t.incoming_pub[i] <==> (s.incoming_pub[i] && i
                        != id))
                &&& t.incoming_rec =~= s.incoming_rec
                &&& t == (StateModel {
                    incoming_ack: t.incoming_ack,
                    incoming_pub: t.incoming_pub,
                    incoming_rec: t.incoming_rec,
                    incoming_done: t.incoming_done,
                    ..s
                })
            } else {
                t == s
            }
        }),
{
}

/// The kind of acknowledgement that the application owes: none where it does not acknowledge or has
/// done so, otherwise the kind of packet that the quality of service of the publication asks for.
pub proof fn owed_kind_is_told(s: StateModel, id: u16)
    requires
        s.wf(),
    ensures
        ({
            let kind = s.acknowledgement_kind(id);
            if !s.manual_acks || s.incoming_done.contains_key(id as usize) {
                kind == Err::<u8, Refusal>(Refusal::InvalidState)
            } else if s.incoming_ack[id as int] {
                kind == Ok::<u8, Refusal>(4)
            } else if s.incoming_rec[id as int] {
                kind == Ok::<u8, Refusal>(5)
            } else {
                kind == Err::<u8, Refusal>(Refusal::Unsolicited(id))
            }
        }),
{
}

/// What a client does not send is refused.
pub proof fn foreign_request_is_refused(s: StateModel, request: RequestModel, moment: Instant)
    requires
        request is PubComp || request is PingResp || request is SubAck || request is UnsubAck,
    ensures
        s.outgoing(request, moment).0 == Err::<Option<PacketModel>, Refusal>(Refusal::WrongPacket),
        s.outgoing(request, moment).1 == s,
{
}

// Packets ------------------------------------------------------------------------------------

/// A packet that is accepted is reported once, as it came and under its full topic, behind all that
/// was reported before and in front of all that it gives rise to. The one exception is a
/// publication of the highest quality of service whose identifier is still held: it was reported
/// before.
#[verifier::spinoff_prover]
#[verifier::rlimit(40)]
pub proof fn accepted_packet_is_delivered(s: StateModel, packet: PacketModel)
    requires
        s.wf(),
        s.incoming(packet).0 is Ok,
    ensures
        ({
            let t = s.incoming(packet).1;
            let n = s.events.len() as int;
            let held = packet matches PacketModel::Publish(p) && p.qos == QoS::ExactlyOnce
                && s.incoming_pub[p.pkid as int];
            &&& n <= t.events.len()
            &&& t.events.take(n) == s.events
            &&& !held ==> n < t.events.len() && t.events[n] == EventModel::Incoming(
                match packet {
                    PacketModel::Publish(p) => PacketModel::Publish(in_full(s.topic_aliases, p)),
                    _ => packet,
                },
            )
            &&& forall|i: int|
                n < i < t.events.len() ==> (#[trigger] t.events[i]) is Outgoing
            &&& held && n < t.events.len() ==> t.events[n] is Outgoing
            &&& t.events.len() <= n + 2
        }),
{
    let t = s.incoming(packet).1;
    match packet {
        PacketModel::Publish(p) => {
            if !intelligible(s, p) {
                unintelligible_publication_is_refused(s, p);
            } else {
                match p.qos {
                    QoS::AtMostOnce => plain_publication_is_delivered(s, p),
                    QoS::AtLeastOnce => acknowledged_publication_is_delivered(s, p),
                    QoS::ExactlyOnce => received_publication_is_delivered_once(s, p),
                }
            }
        },
        PacketModel::PubAck(p) => acknowledgement_ends_publication(s, p),
        PacketModel::PubRec(p) => receipt_is_answered_by_release(s, p),
        PacketModel::PubRel(p) => release_is_confirmed(s, p),
        PacketModel::PubComp(p) => confirmation_ends_release(s, p),
        PacketModel::SubAck(p) => answer_ends_subscription(s, p),
        PacketModel::UnsubAck(p) => answer_ends_removal(s, p),
        PacketModel::ConnAck(p) => broker_sets_limits(s, p, 0, 0),
        PacketModel::Disconnect(p) => broker_tells_reason(s, p, Seq::empty()),
        _ => answer_ends_ping(s, packet),
    }
    assert(t.events.take(s.events.len() as int) =~= s.events);
}

/// A packet that is accepted leaves the flags of the publications that are still kept, and no
/// others.
pub proof fn accepted_packet_drops_dead_flags(s: StateModel, packet: PacketModel, id: u16)
    requires
        s.wf(),
        s.incoming(packet).0 is Ok,
    ensures
        ({
            let t = s.incoming(packet).1;
            &&& t.transmission_flags.contains_key(id) <==> (s.transmission_flags.contains_key(id)
                && id <= s.upper_limit && t.outgoing_pub[id as int] is Some)
            &&& t.transmission_flags.contains_key(id) ==> t.transmission_flags[id]
                == s.transmission_flags[id]
        }),
{
    crate::v5::state::model::incoming_keeps_wf(s, packet);
}

/// Whether an incoming publication can be taken: its alias is in order, and its full topic is
/// UTF-8 text that is not empty.
pub open spec fn intelligible(s: StateModel, p: PublishModel) -> bool {
    let topic = in_full(s.topic_aliases, p).topic;
    &&& alias_fault(s.topic_aliases, p, s.receive_alias_maximum, s.alias_bytes_maximum) is None
    &&& topic.len() > 0
    &&& valid_utf8(topic)
}

/// A publication whose alias cannot be used, or whose topic is no text, is refused; of one whose
/// alias is in order, the alias is kept all the same.
pub proof fn unintelligible_publication_is_refused(s: StateModel, p: PublishModel)
    requires
        s.wf(),
        !intelligible(s, p),
    ensures
        ({
            let (o, t) = s.incoming(PacketModel::Publish(p));
            let fault = alias_fault(
                s.topic_aliases,
                p,
                s.receive_alias_maximum,
                s.alias_bytes_maximum,
            );
            if fault is Some {
                o == Err::<Option<PacketModel>, Refusal>(fault->0) && t == s
            } else {
                &&& o == Err::<Option<PacketModel>, Refusal>(Refusal::WrongPacket)
                &&& t == (StateModel { topic_aliases: with_alias(s.topic_aliases, p), ..s })
            }
        }),
{
}

/// A publication of the lowest quality of service is only delivered: no answer is owed for it.
pub proof fn plain_publication_is_delivered(s: StateModel, p: PublishModel)
    requires
        s.wf(),
        p.qos == QoS::AtMostOnce,
        intelligible(s, p),
    ensures
        ({
            let (o, t) = s.incoming(PacketModel::Publish(p));
            let reported = PacketModel::Publish(in_full(s.topic_aliases, p));
            &&& o == Ok::<Option<PacketModel>, Refusal>(None)
            &&& t.events == s.events.push(EventModel::Incoming(reported))
            &&& t == (StateModel {
                transmission_flags: t.transmission_flags,
                events: t.events,
                topic_aliases: with_alias(s.topic_aliases, p),
                ..s
            })
        }),
{
}

/// Whether one more incoming exchange is more than the limit allows.
pub open spec fn over_limit(s: StateModel, id: int) -> bool {
    !s.incoming_pub[id] && !s.incoming_ack[id] && count(s.incoming_ack) + count(s.incoming_pub)
        >= s.receive_maximum
}

/// A publication of the middle quality of service is delivered each time it comes. Its
/// acknowledgement names its identifier, and goes out at once or, where the application
/// acknowledges, is owed from then on. It is refused where it has no identifier, where the limit
/// allows no more exchanges, where its identifier is held by a publication of the highest quality
/// of service, and where it comes again without being marked as repeated while its acknowledgement
/// is owed.
#[verifier::spinoff_prover]
#[verifier::rlimit(40)]
pub proof fn acknowledged_publication_is_delivered(s: StateModel, p: PublishModel)
    requires
        s.wf(),
        p.qos == QoS::AtLeastOnce,
        intelligible(s, p),
    ensures
        ({
            let (o, t) = s.incoming(PacketModel::Publish(p));
            let reported = PacketModel::Publish(in_full(s.topic_aliases, p));
            let id = p.pkid as int;
            let known = with_alias(s.topic_aliases, p);
            &&& t.topic_aliases == known
            &&& t == (StateModel {
                transmission_flags: t.transmission_flags,
                events: t.events,
                topic_aliases: t.topic_aliases,
                incoming_ack: t.incoming_ack,
                incoming_done: t.incoming_done,
                next_completion: t.next_completion,
                ..s
            })
            &&& if id == 0 {
                o == Err::<Option<PacketModel>, Refusal>(Refusal::WrongPacket) && t == (
                StateModel { topic_aliases: known, ..s })
            } else if over_limit(s, id) {
                o == Err::<Option<PacketModel>, Refusal>(Refusal::InvalidState) && t == (
                StateModel { topic_aliases: known, ..s })
            } else if s.incoming_pub[id] || (s.incoming_ack[id] && !p.dup) {
                o == Err::<Option<PacketModel>, Refusal>(Refusal::WrongPacket) && t == (
                StateModel { topic_aliases: known, ..s })
            } else if s.manual_acks || s.incoming_done.contains_key(p.pkid as usize) {
                &&& o == Ok::<Option<PacketModel>, Refusal>(None)
                &&& t.events == s.events.push(EventModel::Incoming(reported))
                &&& t.incoming_ack == s.incoming_ack.update(id, true)
                &&& t.incoming_done == s.incoming_done && t.next_completion == s.next_completion
            } else if !tokens_left(s) {
                &&& o == Err::<Option<PacketModel>, Refusal>(Refusal::InvalidState)
                &&& t == (StateModel {
                    topic_aliases: known,
                    incoming_ack: s.incoming_ack.update(id, true),
                    ..s
                })
            } else {
                &&& o matches Ok(Some(PacketModel::PubAck(ack))) && ack.pkid == p.pkid && ack.reason
                    == PubAckReason::Success && ack.properties is None
                &&& t.events == s.events.push(EventModel::Incoming(reported)).push(
                    EventModel::Outgoing(Outgoing::PubAck(p.pkid)),
                )
                &&& t.next_completion == s.next_completion + 65536
                &&& t.incoming_ack == s.incoming_ack.update(id, s.defer_write_completion)
                &&& t.incoming_done == if s.defer_write_completion {
                    s.incoming_done.insert(
                        p.pkid as usize,
                        (s.next_completion + 65536 + p.pkid) as u64,
                    )
                } else {
                    s.incoming_done
                }
            }
        }),
{
    let packet = PacketModel::Publish(p);
    let (o, t) = s.incoming(packet);
    let q = in_full(s.topic_aliases, p);
    let known = with_alias(s.topic_aliases, p);
    let a = StateModel { topic_aliases: known, ..s };
    assert(s.resolve_alias(p) == Ok::<(PublishModel, StateModel), Refusal>((q, a)));
    let id = p.pkid as int;
    if o matches Ok(Some(_)) {
        let u = StateModel { incoming_ack: s.incoming_ack.update(id, true), ..a };
        crate::v5::state::model::taken_in_is_wf(a, p.pkid);
        written_off(u, p.pkid);
        assert(t.events =~= s.events.push(EventModel::Incoming(PacketModel::Publish(q))).push(
            EventModel::Outgoing(Outgoing::PubAck(p.pkid)),
        ));
        assert(t.incoming_ack =~= s.incoming_ack.update(id, s.defer_write_completion));
        assert(t.incoming_pub =~= s.incoming_pub);
        assert(t.incoming_rec =~= s.incoming_rec);
    }
}

/// A publication of the highest quality of service is delivered when it comes first. Its receipt
/// names its identifier, and goes out at once or, where the application acknowledges, is owed from
/// then on. Its identifier is held until it is released; while it is held, the publication must be
/// marked as repeated, is not delivered again, and its receipt is repeated once it is no longer
/// owed. It is refused where it has no identifier, where the limit allows no more exchanges, where
/// an acknowledgement of the middle quality of service is owed under its identifier, and where the
/// exchange is already settled.
#[verifier::spinoff_prover]
#[verifier::rlimit(40)]
pub proof fn received_publication_is_delivered_once(s: StateModel, p: PublishModel)
    requires
        s.wf(),
        p.qos == QoS::ExactlyOnce,
        intelligible(s, p),
    ensures
        ({
            let (o, t) = s.incoming(PacketModel::Publish(p));
            let reported = EventModel::Incoming(PacketModel::Publish(in_full(s.topic_aliases, p)));
            let id = p.pkid as int;
            let known = with_alias(s.topic_aliases, p);
            let wrong = id == 0 || !over_limit(s, id) && (s.incoming_ack[id] || (s.incoming_pub[id]
                && (!p.dup || s.incoming_done.contains_key(p.pkid as usize))));
            if wrong {
                o == Err::<Option<PacketModel>, Refusal>(Refusal::WrongPacket) && t == (
                StateModel { topic_aliases: known, ..s })
            } else if over_limit(s, id) {
                o == Err::<Option<PacketModel>, Refusal>(Refusal::InvalidState) && t == (
                StateModel { topic_aliases: known, ..s })
            } else {
                let first = !s.incoming_pub[id];
                let owed = if first {
                    s.manual_acks
                } else {
                    s.incoming_rec[id]
                };
                let events = if first {
                    s.events.push(reported)
                } else {
                    s.events
                };
                &&& owed ==> o == Ok::<Option<PacketModel>, Refusal>(None) && t.events == events
                &&& !owed ==> {
                    &&& o matches Ok(Some(PacketModel::PubRec(rec))) && rec.pkid == p.pkid
                        && rec.reason == PubRecReason::Success && rec.properties is None
                    &&& t.events == events.push(EventModel::Outgoing(Outgoing::PubRec(p.pkid)))
                }
                &&& t.incoming_pub == s.incoming_pub.update(id, true)
                &&& t.incoming_rec == s.incoming_rec.update(id, owed)
                &&& t == (StateModel {
                    transmission_flags: t.transmission_flags,
                    events: t.events,
                    topic_aliases: known,
                    incoming_pub: t.incoming_pub,
                    incoming_rec: t.incoming_rec,
                    ..s
                })
            }
        }),
{
    let packet = PacketModel::Publish(p);
    let (o, t) = s.incoming(packet);
    let q = in_full(s.topic_aliases, p);
    let known = with_alias(s.topic_aliases, p);
    let a = StateModel { topic_aliases: known, ..s };
    assert(s.resolve_alias(p) == Ok::<(PublishModel, StateModel), Refusal>((q, a)));
    let id = p.pkid as int;
    if o is Ok {
        let reported = EventModel::Incoming(PacketModel::Publish(q));
        assert(PubRecReason::Success.number() == 0);
        assert(t.incoming_pub =~= s.incoming_pub.update(id, true));
        if s.incoming_pub[id] {
            assert(t.incoming_rec =~= s.incoming_rec.update(id, s.incoming_rec[id]));
        } else {
            assert(t.incoming_rec =~= s.incoming_rec.update(id, s.manual_acks));
            if !s.manual_acks {
                assert(t.events =~= s.events.push(reported).push(
                    EventModel::Outgoing(Outgoing::PubRec(p.pkid)),
                ));
            }
        }
    }
}

/// A release is confirmed under its own identifier and ends the exchange of that identifier, and no
/// other; one of an exchange that is not known is confirmed as such. It is refused where it has no
/// identifier, and where an acknowledgement or a receipt is owed under it.
#[verifier::spinoff_prover]
#[verifier::rlimit(40)]
pub proof fn release_is_confirmed(s: StateModel, rel: PubRelModel)
    requires
        s.wf(),
    ensures
        ({
            let packet = PacketModel::PubRel(rel);
            let (o, t) = s.incoming(packet);
            let id = rel.pkid;
            let known = s.incoming_pub[id as int];
            let marked = s.incoming_done.contains_key(id as usize);
            if id == 0 || s.incoming_ack[id as int] || s.incoming_rec[id as int] {
                o == Err::<Option<PacketModel>, Refusal>(Refusal::WrongPacket) && t == s
            } else if known && !marked && !tokens_left(s) {
                o == Err::<Option<PacketModel>, Refusal>(Refusal::InvalidState) && t == s
            } else {
                &&& o matches Ok(Some(PacketModel::PubComp(comp))) && comp.pkid == id && comp.reason
                    == (if known {
                    PubCompReason::Success
                } else {
                    PubCompReason::PacketIdentifierNotFound
                }) && comp.properties is None
                &&& t.events == s.events.push(EventModel::Incoming(packet)).push(
                    EventModel::Outgoing(Outgoing::PubComp(id)),
                )
                &&& !known ==> t == (StateModel {
                    transmission_flags: t.transmission_flags,
                    events: t.events,
                    ..s
                })
                &&& known && !marked ==> closes(s, t, id)
                &&& known && marked && s.defer_write_completion ==> t.incoming_pub == s.incoming_pub
                    && t.incoming_done == s.incoming_done && t.next_completion == s.next_completion
                &&& known && marked && !s.defer_write_completion ==> t.incoming_pub
                    == s.incoming_pub.update(id as int, false) && t.incoming_done
                    == s.incoming_done.remove(id as usize) && t.next_completion == s.next_completion
                &&& t.incoming_ack == s.incoming_ack
                &&& t == (StateModel {
                    transmission_flags: t.transmission_flags,
                    events: t.events,
                    incoming_pub: t.incoming_pub,
                    incoming_done: t.incoming_done,
                    next_completion: t.next_completion,
                    ..s
                })
            }
        }),
{
    let packet = PacketModel::PubRel(rel);
    let id = rel.pkid;
    let (o, t) = s.incoming(packet);
    if o is Ok {
        assert(t.events =~= s.events.push(EventModel::Incoming(packet)).push(
            EventModel::Outgoing(Outgoing::PubComp(id)),
        ));
        assert(s.incoming_ack.update(id as int, false) =~= s.incoming_ack);
        assert(s.incoming_rec.update(id as int, false) =~= s.incoming_rec);
        if s.incoming_pub[id as int] && !s.incoming_done.contains_key(id as usize) {
            written_off(s, id);
        }
    }
}

/// The state after the exchange of `id` has ended and `place` was put in its place: no other
/// publication, no other repetition and no other time of expiry changes.
pub open spec fn replaced(
    s: StateModel,
    t: StateModel,
    id: u16,
    place: Option<PublishModel>,
) -> bool {
    &&& t.outgoing_pub == s.outgoing_pub.update(id as int, place)
    &&& t.resume_sent == s.resume_sent.update(id as int, false)
    &&& t.expiring == s.expiring.remove(id)
}

/// An acknowledgement ends the publication of the middle quality of service that has its
/// identifier, and no other. After a positive one, a publication that waited for the identifier
/// takes its place and is handed out as it was asked for. All other acknowledgements are refused.
pub proof fn acknowledgement_ends_publication(s: StateModel, ack: PubAckModel)
    requires
        s.wf(),
    ensures
        ({
            let packet = PacketModel::PubAck(ack);
            let id = ack.pkid;
            let (o, t) = s.incoming(packet);
            let kept = id <= s.upper_limit && (s.outgoing_pub[id as int] matches Some(p) && p.qos
                == QoS::AtLeastOnce);
            let positive = ack.reason == PubAckReason::Success || ack.reason
                == PubAckReason::NoMatchingSubscribers;
            if !kept {
                o == Err::<Option<PacketModel>, Refusal>(Refusal::Unsolicited(id)) && t == s
            } else {
                &&& t == (StateModel {
                    transmission_flags: t.transmission_flags,
                    events: t.events,
                    outgoing_pub: t.outgoing_pub,
                    resume_sent: t.resume_sent,
                    expiring: t.expiring,
                    inflight: t.inflight,
                    collision: t.collision,
                    collision_ping_count: t.collision_ping_count,
                    ..s
                })
                &&& if positive && (s.collision matches Some(p) && p.pkid == id) {
                    &&& o == Ok::<Option<PacketModel>, Refusal>(
                        Some(PacketModel::Publish(s.collision->0)),
                    )
                    &&& replaced(s, t, id, s.collision)
                    &&& t.inflight == s.inflight
                    &&& t.collision is None && t.collision_ping_count == 0
                    &&& t.events == s.events.push(EventModel::Incoming(packet)).push(
                        EventModel::Outgoing(Outgoing::Publish(id)),
                    )
                } else {
                    &&& o == Ok::<Option<PacketModel>, Refusal>(None)
                    &&& replaced(s, t, id, None)
                    &&& t.inflight == s.inflight - 1
                    &&& t.collision == s.collision && t.collision_ping_count
                        == s.collision_ping_count
                    &&& t.events == s.events.push(EventModel::Incoming(packet))
                }
            }
        }),
{
    let packet = PacketModel::PubAck(ack);
    let (o, t) = s.incoming(packet);
    if o is Ok {
        drop_keeps_wf(s, ack.pkid);
        if o->Ok_0 is Some {
            assert(t.events =~= s.events.push(EventModel::Incoming(packet)).push(
                EventModel::Outgoing(Outgoing::Publish(ack.pkid)),
            ));
            assert(t.outgoing_pub =~= s.outgoing_pub.update(ack.pkid as int, s.collision));
        }
    }
}

/// A positive receipt is answered by a release of its own identifier. The publication of the
/// highest quality of service that has the identifier is no longer kept, and its release is; a
/// receipt for a release that is kept already changes nothing. A negative receipt ends the
/// publication. All other receipts are refused.
pub proof fn receipt_is_answered_by_release(s: StateModel, rec: PubRecModel)
    requires
        s.wf(),
    ensures
        ({
            let packet = PacketModel::PubRec(rec);
            let id = rec.pkid;
            let (o, t) = s.incoming(packet);
            let released = id <= s.upper_limit && s.outgoing_rel[id as int];
            let kept = id <= s.upper_limit && (s.outgoing_pub[id as int] matches Some(p) && p.qos
                == QoS::ExactlyOnce);
            let positive = rec.reason == PubRecReason::Success || rec.reason
                == PubRecReason::NoMatchingSubscribers;
            if !released && !kept {
                o == Err::<Option<PacketModel>, Refusal>(Refusal::Unsolicited(id)) && t == s
            } else if released && !positive {
                o == Err::<Option<PacketModel>, Refusal>(Refusal::WrongPacket) && t == s
            } else if !positive {
                &&& o == Ok::<Option<PacketModel>, Refusal>(None)
                &&& replaced(s, t, id, None)
                &&& t.inflight == s.inflight - 1
                &&& t.events == s.events.push(EventModel::Incoming(packet))
                &&& t == (StateModel {
                    transmission_flags: t.transmission_flags,
                    events: t.events,
                    outgoing_pub: t.outgoing_pub,
                    resume_sent: t.resume_sent,
                    expiring: t.expiring,
                    inflight: t.inflight,
                    ..s
                })
            } else {
                &&& o matches Ok(Some(PacketModel::PubRel(rel))) && rel.pkid == id && rel.reason
                    == PubRelReason::Success && rel.properties is None
                &&& released ==> t.events == s.events.push(EventModel::Incoming(packet))
                    && t.outgoing_pub == s.outgoing_pub && t.outgoing_rel == s.outgoing_rel
                &&& !released ==> t.events == s.events.push(EventModel::Incoming(packet)).push(
                    EventModel::Outgoing(Outgoing::PubRel(id)),
                ) && t.outgoing_pub == s.outgoing_pub.update(id as int, None) && t.outgoing_rel
                    == s.outgoing_rel.update(id as int, true)
                &&& t == (StateModel {
                    transmission_flags: t.transmission_flags,
                    events: t.events,
                    outgoing_pub: t.outgoing_pub,
                    outgoing_rel: t.outgoing_rel,
                    ..s
                })
            }
        }),
{
    let packet = PacketModel::PubRec(rec);
    let (o, t) = s.incoming(packet);
    if o is Ok {
        if o->Ok_0 is None {
            drop_keeps_wf(s, rec.pkid);
        } else if !s.outgoing_rel[rec.pkid as int] {
            assert(t.events =~= s.events.push(EventModel::Incoming(packet)).push(
                EventModel::Outgoing(Outgoing::PubRel(rec.pkid)),
            ));
        }
    }
}

/// A confirmation ends the release of its own identifier, and no other. After a positive one, a
/// publication that waited for the identifier is handed out as it was asked for, and kept. All
/// other confirmations are refused.
pub proof fn confirmation_ends_release(s: StateModel, comp: PubCompModel)
    requires
        s.wf(),
    ensures
        ({
            let packet = PacketModel::PubComp(comp);
            let id = comp.pkid;
            let (o, t) = s.incoming(packet);
            if !(id <= s.upper_limit && s.outgoing_rel[id as int]) {
                o == Err::<Option<PacketModel>, Refusal>(Refusal::Unsolicited(id)) && t == s
            } else {
                &&& t.outgoing_rel == s.outgoing_rel.update(id as int, false)
                &&& t == (StateModel {
                    transmission_flags: t.transmission_flags,
                    events: t.events,
                    outgoing_pub: t.outgoing_pub,
                    outgoing_rel: t.outgoing_rel,
                    resume_sent: t.resume_sent,
                    expiring: t.expiring,
                    inflight: t.inflight,
                    collision: t.collision,
                    collision_ping_count: t.collision_ping_count,
                    ..s
                })
                &&& if comp.reason == PubCompReason::Success && (s.collision matches Some(p)
                    && p.pkid == id) {
                    &&& o == Ok::<Option<PacketModel>, Refusal>(
                        Some(PacketModel::Publish(s.collision->0)),
                    )
                    &&& replaced(s, t, id, s.collision)
                    &&& t.inflight == s.inflight
                    &&& t.collision is None && t.collision_ping_count == 0
                    &&& t.events == s.events.push(EventModel::Incoming(packet)).push(
                        EventModel::Outgoing(Outgoing::Publish(id)),
                    )
                } else {
                    &&& o == Ok::<Option<PacketModel>, Refusal>(None)
                    &&& replaced(s, t, id, s.outgoing_pub[id as int])
                    &&& t.inflight == s.inflight - 1
                    &&& t.collision == s.collision && t.collision_ping_count
                        == s.collision_ping_count
                    &&& t.events == s.events.push(EventModel::Incoming(packet))
                }
            }
        }),
{
    let packet = PacketModel::PubComp(comp);
    let (o, t) = s.incoming(packet);
    if o is Ok {
        release_is_counted(s, comp.pkid);
        if o->Ok_0 is Some {
            assert(t.events =~= s.events.push(EventModel::Incoming(packet)).push(
                EventModel::Outgoing(Outgoing::Publish(comp.pkid)),
            ));
        } else {
            assert(t.outgoing_pub =~= s.outgoing_pub.update(
                comp.pkid as int,
                s.outgoing_pub[comp.pkid as int],
            ));
        }
    }
}

/// The number that orders the qualities of service.
pub open spec fn rank(qos: QoS) -> int {
    match qos {
        QoS::AtMostOnce => 0,
        QoS::AtLeastOnce => 1,
        QoS::ExactlyOnce => 2,
    }
}

/// The answer to a subscription ends it, and no other. It must answer each filter, and grant no
/// higher quality of service than was asked for; otherwise it is refused.
pub proof fn answer_ends_subscription(s: StateModel, ack: SubAckModel)
    requires
        s.wf(),
    ensures
        ({
            let packet = PacketModel::SubAck(ack);
            let (o, t) = s.incoming(packet);
            let codes = ack.return_codes;
            if !s.outgoing_sub.contains_key(ack.pkid) {
                o == Err::<Option<PacketModel>, Refusal>(Refusal::Unsolicited(ack.pkid)) && t == s
            } else if codes.len() != s.outgoing_sub[ack.pkid].len() || exists|i: int|
                0 <= i < codes.len() && (#[trigger] codes[i] matches SubscribeReasonCode::Success(
                    qos,
                ) && rank(qos) > rank(s.outgoing_sub[ack.pkid][i])) {
                o == Err::<Option<PacketModel>, Refusal>(Refusal::WrongPacket) && t == s
            } else {
                &&& o == Ok::<Option<PacketModel>, Refusal>(None)
                &&& t == (StateModel {
                    transmission_flags: t.transmission_flags,
                    events: s.events.push(EventModel::Incoming(packet)),
                    outgoing_sub: s.outgoing_sub.remove(ack.pkid),
                    ..s
                })
            }
        }),
{
}

/// The answer to the removal of subscriptions ends it, and no other. It must answer each filter;
/// otherwise, and where nothing asked for it, it is refused.
pub proof fn answer_ends_removal(s: StateModel, ack: UnsubAckModel)
    requires
        s.wf(),
    ensures
        ({
            let packet = PacketModel::UnsubAck(ack);
            let (o, t) = s.incoming(packet);
            if !s.outgoing_unsub.contains_key(ack.pkid) || s.outgoing_unsub[ack.pkid]
                != ack.reasons.len() {
                o == Err::<Option<PacketModel>, Refusal>(Refusal::Unsolicited(ack.pkid)) && t == s
            } else {
                &&& o == Ok::<Option<PacketModel>, Refusal>(None)
                &&& t == (StateModel {
                    transmission_flags: t.transmission_flags,
                    events: s.events.push(EventModel::Incoming(packet)),
                    outgoing_unsub: s.outgoing_unsub.remove(ack.pkid),
                    ..s
                })
            }
        }),
{
}

/// The answer to a ping ends the wait for it; one that nothing asked for is refused, and so is what
/// a server does not send within a connection.
pub proof fn answer_ends_ping(s: StateModel, packet: PacketModel)
    requires
        s.wf(),
        !(packet is Publish || packet is PubAck || packet is PubRec || packet is PubRel
            || packet is PubComp || packet is SubAck || packet is UnsubAck || packet is ConnAck
            || packet is Disconnect),
    ensures
        ({
            let (o, t) = s.incoming(packet);
            if packet is PingResp && s.await_pingresp {
                &&& o == Ok::<Option<PacketModel>, Refusal>(None)
                &&& t == (StateModel {
                    transmission_flags: t.transmission_flags,
                    events: s.events.push(EventModel::Incoming(packet)),
                    await_pingresp: false,
                    ..s
                })
            } else {
                o == Err::<Option<PacketModel>, Refusal>(Refusal::WrongPacket) && t == s
            }
        }),
{
}

/// Whether entries give `value` under an identifier: one of them has the identifier, and all that
/// have it hold the value.
pub open spec fn gives(es: Seq<Entry>, id: u8, value: Value) -> bool {
    &&& es.contains((id, value))
    &&& forall|i: int| 0 <= i < es.len() && (#[trigger] es[i]).0 == id ==> es[i].1 == value
}

/// Whether no entry has an identifier.
pub open spec fn lacks(properties: Option<Seq<Entry>>, id: u8) -> bool {
    properties is Some ==> forall|i: int|
        0 <= i < properties->0.len() ==> (#[trigger] properties->0[i]).0 != id
}

/// A connection that the broker accepts takes over the limits that the broker gives: the maximum of
/// topic aliases, and the receive maximum up to the limit that the client has set. What it does not
/// give stays. A connection that the broker does not accept changes nothing.
pub proof fn broker_sets_limits(s: StateModel, ack: ConnAckModel, aliases: u16, window: u16)
    requires
        s.wf(),
    ensures
        ({
            let packet = PacketModel::ConnAck(ack);
            let (o, t) = s.incoming(packet);
            if ack.code != ConnectReturnCode::Success {
                o == Err::<Option<PacketModel>, Refusal>(Refusal::ConnFail { reason: ack.code })
                    && t == s
            } else {
                &&& o == Ok::<Option<PacketModel>, Refusal>(None)
                &&& lacks(ack.properties, 34) ==> t.broker_topic_alias_max
                    == s.broker_topic_alias_max
                &&& ack.properties is Some && gives(ack.properties->0, 34, Value::Short(aliases))
                    ==> t.broker_topic_alias_max == aliases
                &&& lacks(ack.properties, 33) ==> t.max_outgoing_inflight == s.max_outgoing_inflight
                &&& ack.properties is Some && gives(ack.properties->0, 33, Value::Short(window))
                    ==> t.max_outgoing_inflight == if window <= s.upper_limit {
                    window
                } else {
                    s.upper_limit
                }
                &&& t == (StateModel {
                    transmission_flags: t.transmission_flags,
                    events: s.events.push(EventModel::Incoming(packet)),
                    broker_topic_alias_max: t.broker_topic_alias_max,
                    max_outgoing_inflight: t.max_outgoing_inflight,
                    ..s
                })
            }
        }),
{
    if let Some(es) = ack.properties {
        picked(es, 34, Value::Short(aliases));
        picked(es, 33, Value::Short(window));
    }
}

proof fn picked_have_identifier(es: Seq<Entry>, id: u8)
    ensures
        forall|i: int|
            0 <= i < pick(es, id).len() ==> (#[trigger] pick(es, id)[i]).0 == id && es.contains(
                pick(es, id)[i],
            ),
        forall|i: int|
            0 <= i < es.len() && (#[trigger] es[i]).0 == id ==> pick(es, id).contains(es[i]),
    decreases es.len(),
{
    reveal(pick);
    if es.len() > 0 {
        let front = es.drop_last();
        picked_have_identifier(front, id);
        let p = pick(es, id);
        let q = pick(front, id);
        assert forall|i: int| 0 <= i < p.len() implies (#[trigger] p[i]).0 == id && es.contains(
            p[i],
        ) by {
            if i < q.len() {
                assert(p[i] == q[i]);
                let k = front.index_of(q[i]);
                assert(es[k] == q[i]);
            } else {
                assert(p[i] == es[es.len() - 1]);
            }
        }
        assert forall|i: int| 0 <= i < es.len() && (#[trigger] es[i]).0 == id implies p.contains(
            es[i],
        ) by {
            if i < front.len() {
                assert(front[i] == es[i]);
                let k = q.index_of(es[i]);
                assert(p[k] == es[i]);
            } else {
                assert(p[p.len() - 1] == es[i]);
            }
        }
    }
}

proof fn picked(es: Seq<Entry>, id: u8, value: Value)
    ensures
        gives(es, id, value) ==> pick(es, id).len() > 0 && pick(es, id)[0].1 == value,
        lacks(Some(es), id) ==> pick(es, id).len() == 0,
{
    picked_have_identifier(es, id);
    if pick(es, id).len() > 0 {
        assert(pick(es, id)[0].0 == id);
        let j = es.index_of(pick(es, id)[0]);
        assert(0 <= j < es.len() && es[j] == pick(es, id)[0]);
        let properties = Some(es);
        assert(properties->0[j].0 == id);
    }
    if gives(es, id, value) {
        let k = es.index_of((id, value));
        assert(pick(es, id).contains(es[k]));
    }
}

/// The end of a connection that the broker announces is refused with the reason that the broker
/// gives, in number and in text.
pub proof fn broker_tells_reason(s: StateModel, p: DisconnectModel, text: Seq<char>)
    requires
        s.wf(),
    ensures
        ({
            let (o, t) = s.incoming(PacketModel::Disconnect(p));
            &&& t == s
            &&& o matches Err(Refusal::ServerDisconnect { reason_code, reason_string }) && {
                &&& reason_code == p.reason_code
                &&& lacks(p.properties, 31) ==> reason_string is None
                &&& p.properties is Some && gives(p.properties->0, 31, Value::Text(text))
                    ==> reason_string == Some(text)
            }
        }),
{
    if let Some(es) = p.properties {
        picked(es, 31, Value::Text(text));
    }
}

// Sessions -----------------------------------------------------------------------------------

/// The publications of slots are in the order of the slots, each once, and none is missing.
proof fn publications_ascend(s: StateModel, slots: Seq<Option<PublishModel>>)
    requires
        s.wf(),
        slots.len() <= s.outgoing_pub.len(),
        slots == s.outgoing_pub.take(slots.len() as int),
    ensures
        forall|i: int|
            0 <= i < somes(slots).len() ==> (#[trigger] somes(slots)[i]).pkid < slots.len()
                && s.outgoing_pub[somes(slots)[i].pkid as int] == Some(somes(slots)[i]),
        forall|i: int, j: int|
            0 <= i < j < somes(slots).len() ==> (#[trigger] somes(slots)[i]).pkid < (
            #[trigger] somes(slots)[j]).pkid,
        forall|id: int|
            0 <= id < slots.len() ==> (#[trigger] s.outgoing_pub[id] matches Some(p) ==> somes(
                slots,
            ).contains(p)),
    decreases slots.len(),
{
    if slots.len() > 0 {
        let front = slots.drop_last();
        assert(front =~= s.outgoing_pub.take(front.len() as int));
        publications_ascend(s, front);
        let a = somes(front);
        let b = somes(slots);
        assert(slots.last() == s.outgoing_pub[slots.len() - 1]);
        assert(slots.last() is Some ==> b == a.push(slots.last()->0));
        assert forall|i: int| 0 <= i < b.len() implies (#[trigger] b[i]).pkid < slots.len()
            && s.outgoing_pub[b[i].pkid as int] == Some(b[i]) by {
            if i < a.len() {
                assert(b[i] == a[i]);
            }
        }
        assert forall|i: int, j: int| 0 <= i < j < b.len() implies (#[trigger] b[i]).pkid < (
        #[trigger] b[j]).pkid by {
            assert(b[i] == a[i]);
            if j < a.len() {
                assert(b[j] == a[j]);
            }
        }
        assert forall|id: int| 0 <= id < slots.len() implies (
        #[trigger] s.outgoing_pub[id] matches Some(p) ==> b.contains(p)) by {
            if s.outgoing_pub[id] is Some {
                let p = s.outgoing_pub[id]->0;
                if id < front.len() {
                    let k = a.index_of(p);
                    assert(b[k] == p);
                } else {
                    assert(b[b.len() - 1] == p);
                }
            }
        }
    }
}

proof fn set_numbers_ascend(s: Seq<bool>)
    requires
        s.len() <= 65536,
    ensures
        forall|i: int|
            0 <= i < numbers(positions(s)).len() ==> (#[trigger] numbers(positions(s))[i]) < s.len()
                && s[numbers(positions(s))[i] as int],
        forall|i: int, j: int|
            0 <= i < j < numbers(positions(s)).len() ==> (#[trigger] numbers(positions(s))[i]) < (
            #[trigger] numbers(positions(s))[j]),
        forall|id: int|
            0 <= id < s.len() && #[trigger] s[id] ==> numbers(positions(s)).contains(id as u16),
{
    positions_ascend(s);
    let p = positions(s);
    assert forall|i: int, j: int| 0 <= i < j < p.len() implies (#[trigger] numbers(p)[i]) < (
    #[trigger] numbers(p)[j]) by {
        assert(p[i] < p[j] < s.len());
    }
    assert forall|id: int| 0 <= id < s.len() && #[trigger] s[id] implies numbers(p).contains(
        id as u16,
    ) by {
        let k = p.index_of(id as usize);
        assert(numbers(p)[k] == id as u16);
    }
}

/// What a clean start hands back are the publications that are kept, as they are, each once and
/// ascending; then the releases that are kept, each once and ascending; and nothing else.
pub proof fn handed_back_is_what_was_kept(s: StateModel)
    requires
        s.wf(),
    ensures
        ({
            let r = s.pending_requests();
            &&& forall|i: int|
                0 <= i < r.len() ==> match #[trigger] r[i] {
                    RequestModel::Publish(p) => p.pkid <= s.upper_limit
                        && s.outgoing_pub[p.pkid as int] == Some(p),
                    RequestModel::PubRel(p) => p.pkid <= s.upper_limit
                        && s.outgoing_rel[p.pkid as int] && p.reason == PubRelReason::Success
                        && p.properties is None,
                    _ => false,
                }
            &&& forall|i: int, j: int|
                0 <= i < j < r.len() ==> match (#[trigger] r[i], #[trigger] r[j]) {
                    (RequestModel::Publish(p), RequestModel::Publish(q)) => p.pkid < q.pkid,
                    (RequestModel::PubRel(p), RequestModel::PubRel(q)) => p.pkid < q.pkid,
                    (RequestModel::Publish(p), RequestModel::PubRel(q)) => true,
                    _ => false,
                }
            &&& forall|id: int|
                0 <= id <= s.upper_limit ==> (#[trigger] s.outgoing_pub[id] matches Some(p)
                    ==> r.contains(RequestModel::Publish(p)))
            &&& forall|id: int|
                0 <= id <= s.upper_limit && #[trigger] s.outgoing_rel[id] ==> exists|i: int|
                    0 <= i < r.len() && (#[trigger] r[i] matches RequestModel::PubRel(p) && p.pkid
                        == id)
        }),
{
    assert(s.outgoing_pub.take(s.outgoing_pub.len() as int) =~= s.outgoing_pub);
    publications_ascend(s, s.outgoing_pub);
    set_numbers_ascend(s.outgoing_rel);
    let r = s.pending_requests();
    let a = somes(s.outgoing_pub);
    let b = numbers(positions(s.outgoing_rel));
    assert forall|id: int| 0 <= id <= s.upper_limit implies (
    #[trigger] s.outgoing_pub[id] matches Some(p) ==> r.contains(RequestModel::Publish(p))) by {
        if s.outgoing_pub[id] is Some {
            let k = a.index_of(s.outgoing_pub[id]->0);
            assert(r[k] == RequestModel::Publish(s.outgoing_pub[id]->0));
        }
    }
    assert forall|id: int| 0 <= id <= s.upper_limit && #[trigger] s.outgoing_rel[id] implies exists|
        i: int,
    |
        0 <= i < r.len() && (#[trigger] r[i] matches RequestModel::PubRel(p) && p.pkid == id) by {
        let k = b.index_of(id as u16);
        assert(r[a.len() + k] is PubRel);
    }
}

/// A clean start forgets every exchange, in both directions, all aliases, and nothing else: the
/// publication that waits for an identifier, the reports, the limits and the place where
/// identifiers go on stay.
pub proof fn clean_start_forgets_exchanges(s: StateModel)
    requires
        s.wf(),
    ensures
        ({
            let t = s.cleaned();
            &&& forall|id: int|
                0 <= id <= s.upper_limit ==> (#[trigger] t.outgoing_pub[id]) is None
            &&& forall|id: int| 0 <= id <= s.upper_limit ==> !(#[trigger] t.outgoing_rel[id])
            &&& forall|id: int| 0 <= id <= s.upper_limit ==> !(#[trigger] t.resume_sent[id])
            &&& forall|id: u16| !(#[trigger] t.outgoing_unsub.contains_key(id))
            &&& forall|id: u16| !(#[trigger] t.outgoing_sub.contains_key(id))
            &&& forall|id: u16| !(#[trigger] t.transmission_flags.contains_key(id))
            &&& forall|id: u16| !(#[trigger] t.topic_aliases.contains_key(id))
            &&& forall|id: u16| !(#[trigger] t.outgoing_aliases.contains_key(id))
            &&& forall|id: u16| !(#[trigger] t.expiring.contains_key(id))
            &&& forall|id: usize| !(#[trigger] t.incoming_done.contains_key(id))
            &&& forall|id: int| 0 <= id < 65536 ==> !(#[trigger] t.incoming_pub[id])
            &&& forall|id: int| 0 <= id < 65536 ==> !(#[trigger] t.incoming_ack[id])
            &&& forall|id: int| 0 <= id < 65536 ==> !(#[trigger] t.incoming_rec[id])
            &&& t.resume_queue.len() == 0
            &&& t.inflight == 0
            &&& !t.await_pingresp
            &&& t.collision_ping_count == 0
            &&& t.upper_limit == s.upper_limit
            &&& t.max_outgoing_inflight == s.max_outgoing_inflight
            &&& t.broker_topic_alias_max == s.broker_topic_alias_max
            &&& t.receive_maximum == s.receive_maximum
            &&& t.receive_alias_maximum == s.receive_alias_maximum
            &&& t.alias_bytes_maximum == s.alias_bytes_maximum
            &&& t.defer_write_completion == s.defer_write_completion
            &&& t.next_completion == s.next_completion
            &&& t.last_pkid == s.last_pkid
            &&& t.collision == s.collision
            &&& t.events == s.events
            &&& t.manual_acks == s.manual_acks
        }),
{
}

/// Whether the queue holds `n` releases, ascending, and then publications, ascending.
pub open spec fn in_two_parts(s: StateModel, n: int) -> bool {
    let queue = s.resume_queue;
    &&& 0 <= n <= queue.len()
    &&& forall|i: int| 0 <= i < n ==> s.outgoing_rel[(#[trigger] queue[i]) as int]
    &&& forall|i: int|
        n <= i < queue.len() ==> s.outgoing_pub[(#[trigger] queue[i]) as int] is Some
    &&& forall|i: int, j: int|
        0 <= i < j < queue.len() && (i < n <==> j < n) ==> (#[trigger] queue[i]) < (
        #[trigger] queue[j])
}

/// A new connection of the same session keeps every exchange but the subscriptions, their removals
/// and the publications that never entered the writer. What belongs to the old connection starts
/// over: aliases, the limits of the broker, the reports. What is kept is queued to be sent again:
/// the releases, ascending, then the publications, ascending, each once.
pub proof fn resumption_queues_what_is_kept(s: StateModel, unsent: Set<u16>)
    requires
        s.wf(),
    ensures
        ({
            let t = s.resumed(unsent);
            let queue = t.resume_queue;
            &&& forall|id: int|
                0 <= id <= s.upper_limit ==> (#[trigger] t.outgoing_pub[id]) == if unsent.contains(
                    id as u16,
                ) {
                    None
                } else {
                    s.outgoing_pub[id]
                }
            &&& t == (StateModel {
                transmission_flags: t.transmission_flags,
                outgoing_pub: t.outgoing_pub,
                inflight: t.inflight,
                expiring: t.expiring,
                await_pingresp: false,
                collision_ping_count: 0,
                events: t.events,
                topic_aliases: t.topic_aliases,
                outgoing_aliases: t.outgoing_aliases,
                broker_topic_alias_max: 0,
                max_outgoing_inflight: s.upper_limit,
                resume_sent: t.resume_sent,
                resume_queue: queue,
                outgoing_sub: t.outgoing_sub,
                outgoing_unsub: t.outgoing_unsub,
                ..s
            })
            &&& t.events.len() == 0
            &&& forall|id: u16| !(#[trigger] t.topic_aliases.contains_key(id))
            &&& forall|id: u16| !(#[trigger] t.outgoing_aliases.contains_key(id))
            &&& forall|id: u16| !(#[trigger] t.outgoing_sub.contains_key(id))
            &&& forall|id: u16| !(#[trigger] t.outgoing_unsub.contains_key(id))
            &&& forall|id: int| 0 <= id <= s.upper_limit ==> !(#[trigger] t.resume_sent[id])
            &&& forall|id: u16| #[trigger]
                t.transmission_flags.contains_key(id) <==> (s.transmission_flags.contains_key(id)
                    && !unsent.contains(id) && id <= s.upper_limit && s.outgoing_pub[id as int]
                    is Some)
            &&& forall|id: u16| #[trigger]
                t.transmission_flags.contains_key(id) ==> t.transmission_flags[id]
                    == s.transmission_flags[id]
            &&& forall|id: u16| #[trigger]
                t.expiring.contains_key(id) <==> (s.expiring.contains_key(id) && !unsent.contains(
                    id,
                ) && id <= s.upper_limit && s.outgoing_pub[id as int] is Some)
            &&& forall|id: u16| #[trigger]
                t.expiring.contains_key(id) ==> t.expiring[id] == s.expiring[id]
            &&& forall|i: int|
                0 <= i < queue.len() ==> (#[trigger] queue[i]) <= s.upper_limit && (
                t.outgoing_rel[queue[i] as int] || t.outgoing_pub[queue[i] as int] is Some)
            &&& forall|id: int|
                0 <= id <= s.upper_limit && (t.outgoing_rel[id] || (#[trigger] t.outgoing_pub[id])
                    is Some) ==> queue.contains(id as u16)
            &&& exists|n: int| #[trigger] in_two_parts(t, n)
        }),
{
    let t = s.resumed(unsent);
    set_numbers_ascend(t.outgoing_rel);
    set_numbers_ascend(taken(t.outgoing_pub));
    let a = numbers(positions(t.outgoing_rel));
    let b = numbers(positions(taken(t.outgoing_pub)));
    let queue = t.resume_queue;
    let n = a.len() as int;
    assert(queue =~= a + b);
    assert forall|i: int| n <= i < queue.len() implies t.outgoing_pub[(#[trigger] queue[i]) as int]
        is Some && queue[i] <= s.upper_limit by {
        assert(queue[i] == b[i - n]);
        assert(taken(t.outgoing_pub)[b[i - n] as int]);
    }
    assert forall|i: int| 0 <= i < n implies t.outgoing_rel[(#[trigger] queue[i]) as int]
        && queue[i] <= s.upper_limit by {
        assert(queue[i] == a[i]);
    }
    assert forall|id: int|
        0 <= id <= s.upper_limit && (t.outgoing_rel[id] || (#[trigger] t.outgoing_pub[id])
            is Some) implies queue.contains(id as u16) by {
        if t.outgoing_rel[id] {
            let k = a.index_of(id as u16);
            assert(queue[k] == id as u16);
        } else {
            assert(taken(t.outgoing_pub)[id]);
            let k = b.index_of(id as u16);
            assert(queue[n + k] == id as u16);
        }
    }
    assert forall|i: int, j: int| 0 <= i < j < queue.len() && (i < n <==> j < n) implies (
    #[trigger] queue[i]) < (#[trigger] queue[j]) by {
        if i < n {
            assert(queue[i] == a[i] && queue[j] == a[j]);
        } else {
            assert(queue[i] == b[i - n] && queue[j] == b[j - n]);
        }
    }
    assert(in_two_parts(t, n));
}

/// A new connection of the same session counts one exchange less for each publication that never
/// entered the writer, and no others.
pub proof fn resumption_counts_what_is_kept(s: StateModel, unsent: Set<u16>)
    requires
        s.wf(),
    ensures
        s.inflight - s.resumed(unsent).inflight == count(taken(s.outgoing_pub)) - count(
            taken(s.resumed(unsent).outgoing_pub),
        ),
        (forall|id: int|
            0 <= id <= s.upper_limit && unsent.contains(id as u16) ==> (
            #[trigger] s.outgoing_pub[id]) is None) ==> s.resumed(unsent).inflight == s.inflight,
{
    crate::v5::state::model::slots_without_shrink(s.outgoing_pub, unsent);
    let t = s.resumed(unsent);
    if forall|id: int|
        0 <= id <= s.upper_limit && unsent.contains(id as u16) ==> (#[trigger] s.outgoing_pub[id])
            is None {
        assert(t.outgoing_pub =~= s.outgoing_pub);
    }
}

/// Whether `p` is what is sent again for `kept`, `elapsed` seconds after it was accepted: marked as
/// repeated, without an alias, with the rest of its time, and otherwise as it is kept.
pub open spec fn is_repetition(p: PublishModel, kept: PublishModel, elapsed: u64) -> bool {
    &&& p.dup
    &&& p.qos == kept.qos
    &&& p.retain == kept.retain
    &&& p.topic == kept.topic
    &&& p.pkid == kept.pkid
    &&& p.payload == kept.payload
    &&& p.properties is Some <==> kept.properties is Some
    &&& kept.properties is Some ==> {
        let a = p.properties->0;
        let b = kept.properties->0;
        &&& a.topic_alias is None
        &&& a.message_expiry_interval is Some <==> b.message_expiry_interval is Some
        &&& b.message_expiry_interval is Some ==> a.message_expiry_interval->0
            == b.message_expiry_interval->0 - elapsed
        &&& a == (PublishPropertiesModel {
            topic_alias: a.topic_alias,
            message_expiry_interval: a.message_expiry_interval,
            ..b
        })
    }
}

/// What is sent again under an identifier: its release where one is kept, otherwise the publication
/// that is kept. A publication whose time is over is dropped instead.
pub proof fn kept_exchange_is_sent_again(s: StateModel, id: u16, elapsed: u64)
    requires
        s.wf(),
        id <= s.upper_limit,
    ensures
        ({
            let (packet, t) = s.resend(id, elapsed);
            if s.outgoing_rel[id as int] {
                &&& packet matches Some(PacketModel::PubRel(rel)) && rel.pkid == id && rel.reason
                    == PubRelReason::Success && rel.properties is None
                &&& t == s
            } else if s.outgoing_pub[id as int] is None {
                packet is None && t == s
            } else {
                let kept = s.outgoing_pub[id as int]->0;
                if kept.properties is Some && kept.properties->0.message_expiry_interval is Some
                    && elapsed >= kept.properties->0.message_expiry_interval->0 {
                    &&& packet is None
                    &&& t == (StateModel {
                        outgoing_pub: s.outgoing_pub.update(id as int, None),
                        inflight: t.inflight,
                        expiring: s.expiring.remove(id),
                        ..s
                    })
                    &&& t.inflight == s.inflight - 1
                } else {
                    &&& packet matches Some(PacketModel::Publish(p)) && is_repetition(
                        p,
                        kept,
                        elapsed,
                    )
                    &&& t == (StateModel {
                        resume_sent: s.resume_sent.update(id as int, true),
                        ..s
                    })
                }
            }
        }),
{
    if s.outgoing_pub[id as int] is Some {
        drop_keeps_wf(s, id);
    }
}

/// What is queued is sent again in turn: nothing where the queue is empty, or where the window of
/// the broker is full and a publication is next; otherwise what is next, or what follows where that
/// gives nothing. The time that has passed counts for a publication that can expire and whose start
/// is known.
pub proof fn queue_is_sent_in_turn(s: StateModel, told: Map<u16, u64>)
    requires
        s.wf(),
    ensures
        ({
            let next = s.next_resumed(told);
            let blocked = s.resume_queue.len() == 0 || !s.outgoing_rel[s.resume_queue[0] as int]
                && count(s.resume_sent) >= s.max_outgoing_inflight;
            &&& s.has_resumed() == !blocked
            &&& if blocked {
                next == Some((None::<PacketModel>, s))
            } else {
                let id = s.resume_queue[0];
                let rest = StateModel { resume_queue: s.resume_queue.drop_first(), ..s };
                let timed = !s.outgoing_rel[id as int] && s.outgoing_pub[id as int] is Some
                    && s.outgoing_pub[id as int]->0.properties is Some
                    && s.outgoing_pub[id as int]->0.properties->0.message_expiry_interval is Some
                    && s.expiring.contains_key(id);
                let elapsed = if timed {
                    told[id]
                } else {
                    0
                };
                let (packet, t) = rest.resend(id, elapsed);
                if timed && !told.contains_key(id) {
                    next is None
                } else if packet is Some {
                    next == Some((packet, t))
                } else {
                    next == t.next_resumed(told)
                }
            }
        }),
{
    if s.resume_queue.len() > 0 {
        assert(s.resume_queue[0] <= s.upper_limit);
        assert(s.resume_queue.drop_first() =~= s.resume_queue.skip(1));
    }
}

/// A publication that was accepted is sent again on a new connection with the payload, the quality
/// of service, the retain flag and the full topic of the request, unless it never entered the
/// writer or its time is over.
pub proof fn accepted_publication_is_sent_again(
    s: StateModel,
    p: PublishModel,
    moment: Instant,
    unsent: Set<u16>,
    elapsed: u64,
)
    requires
        s.wf(),
        p.qos != QoS::AtMostOnce,
        s.outgoing(RequestModel::Publish(p), moment).0 matches Ok(Some(_)),
        p.properties is Some && p.properties->0.message_expiry_interval is Some ==> elapsed
            < p.properties->0.message_expiry_interval->0,
    ensures
        s.outgoing(RequestModel::Publish(p), moment).0 matches Ok(Some(PacketModel::Publish(q)))
            && (!unsent.contains(q.pkid) ==> {
            let t = s.outgoing(RequestModel::Publish(p), moment).1.resumed(unsent);
            &&& t.resume_queue.contains(q.pkid)
            &&& t.resend(q.pkid, elapsed).0 matches Some(PacketModel::Publish(r)) && {
                &&& r.pkid == q.pkid
                &&& r.payload == p.payload
                &&& r.qos == p.qos
                &&& r.retain == p.retain
                &&& r.dup
                &&& r.topic == in_full(s.outgoing_aliases, p).topic
            }
        }),
{
    publication_is_handed_out_as_asked(s, p, moment);
    let t = s.outgoing(RequestModel::Publish(p), moment).1;
    crate::v5::state::model::outgoing_keeps_wf(s, RequestModel::Publish(p), moment);
    let q = s.outgoing(RequestModel::Publish(p), moment).0->Ok_0->0->Publish_0;
    if !unsent.contains(q.pkid) {
        resumption_queues_what_is_kept(t, unsent);
        crate::v5::state::model::resumed_is_wf(t, unsent);
        let u = t.resumed(unsent);
        assert(u.outgoing_pub[q.pkid as int] is Some);
        assert(!u.outgoing_rel[q.pkid as int]);
        kept_exchange_is_sent_again(u, q.pkid, elapsed);
    }
}

/// A new state has no exchange, waits for nothing and has nothing to report. Identifiers go from 1
/// up to the limit, no alias is allowed in either direction, and sixteen mebibytes of topics are.
pub proof fn new_state_is_empty(max_inflight: u16, manual_acks: bool)
    ensures
        ({
            let t = StateModel::initial(max_inflight, manual_acks);
            &&& t.upper_limit == max_inflight
            &&& t.max_outgoing_inflight == max_inflight
            &&& t.manual_acks == manual_acks
            &&& forall|id: int|
                1 <= id <= max_inflight ==> (#[trigger] unused(t, id))
            &&& max_inflight > 0 ==> nearest(t, 1)
            &&& forall|id: int|
                0 <= id < 65536 ==> !(#[trigger] t.incoming_pub[id]) && !t.incoming_ack[id]
                    && !t.incoming_rec[id]
            &&& t.incoming_pub.len() == 65536
            &&& t.outgoing_pub.len() == max_inflight + 1
            &&& t.inflight == 0
            &&& t.collision is None
            &&& t.collision_ping_count == 0
            &&& !t.await_pingresp
            &&& t.events.len() == 0
            &&& t.resume_queue.len() == 0
            &&& t.next_completion == 0
            &&& !t.defer_write_completion
            &&& t.broker_topic_alias_max == 0
            &&& t.receive_alias_maximum == 0
            &&& t.receive_maximum == 65535
            &&& t.alias_bytes_maximum == 16 * 1024 * 1024
            &&& forall|id: u16| !(#[trigger] t.topic_aliases.contains_key(id))
            &&& forall|id: u16| !(#[trigger] t.outgoing_aliases.contains_key(id))
            &&& forall|id: u16| !(#[trigger] t.expiring.contains_key(id))
            &&& forall|id: usize| !(#[trigger] t.incoming_done.contains_key(id))
            &&& t.transmission_flags.dom().is_empty()
        }),
{
}

/// Acknowledgements remain outstanding while some identifier is in use.
pub proof fn pending_while_an_identifier_is_used(s: StateModel)
    requires
        s.wf(),
    ensures
        s.pending() <==> s.inflight > 0 || (exists|id: u16| #[trigger]
            s.outgoing_sub.contains_key(id)) || (exists|id: u16| #[trigger]
            s.outgoing_unsub.contains_key(id)),
        (exists|id: int| 1 <= id <= s.upper_limit && !(#[trigger] unused(s, id))) ==> s.pending(),
{
    none_is_counted(taken(s.outgoing_pub));
    none_is_counted(s.outgoing_rel);
    if !s.outgoing_sub.is_empty() {
        let id = choose|id: u16| #[trigger] s.outgoing_sub.contains_key(id);
        assert(s.outgoing_sub.contains_key(id));
    }
    if !s.outgoing_unsub.is_empty() {
        let id = choose|id: u16| #[trigger] s.outgoing_unsub.contains_key(id);
        assert(s.outgoing_unsub.contains_key(id));
    }
    if exists|id: int| 1 <= id <= s.upper_limit && !(#[trigger] unused(s, id)) {
        let id = choose|id: int| 1 <= id <= s.upper_limit && !(#[trigger] unused(s, id));
        if s.outgoing_pub[id] is Some {
            assert(taken(s.outgoing_pub)[id]);
        } else if s.outgoing_rel[id] {
        } else {
            assert(s.outgoing_sub.contains_key(id as u16) || s.outgoing_unsub.contains_key(
                id as u16,
            ));
        }
    }
}

/// Each identifier of an incoming publication that is not settled counts once.
pub proof fn incoming_exchange_is_counted(s: StateModel, t: StateModel, id: u16)
    requires
        s.wf(),
        t.wf(),
        forall|i: int|
            0 <= i < 65536 && i != id ==> (#[trigger] t.incoming_ack[i]) == s.incoming_ack[i],
        forall|i: int|
            0 <= i < 65536 && i != id ==> (#[trigger] t.incoming_pub[i]) == s.incoming_pub[i],
    ensures
        t.incoming_inflight() - s.incoming_inflight() == (if t.incoming_ack[id as int]
            || t.incoming_pub[id as int] {
            1int
        } else {
            0
        }) - (if s.incoming_ack[id as int] || s.incoming_pub[id as int] {
            1int
        } else {
            0
        }),
        StateModel::initial(s.upper_limit, s.manual_acks).incoming_inflight() == 0,
{
    let i = id as int;
    assert(t.incoming_ack =~= s.incoming_ack.update(i, t.incoming_ack[i]));
    assert(t.incoming_pub =~= s.incoming_pub.update(i, t.incoming_pub[i]));
    count_update(s.incoming_ack, i, t.incoming_ack[i]);
    count_update(s.incoming_pub, i, t.incoming_pub[i]);
    count_clear(StateModel::initial(s.upper_limit, s.manual_acks).incoming_ack);
    count_clear(StateModel::initial(s.upper_limit, s.manual_acks).incoming_pub);
}

// Values -------------------------------------------------------------------------------------

/// A state shows its fields as they are.
pub proof fn state_shows_its_fields(state: MqttState)
    ensures
        state@.await_pingresp == state.await_pingresp,
        state@.collision_ping_count == state.collision_ping_count,
        state@.last_pkid == state.last_pkid,
        state@.inflight == state.inflight,
        state@.manual_acks == state.manual_acks,
        state@.broker_topic_alias_max == state.broker_topic_alias_max,
        state@.max_outgoing_inflight == state.max_outgoing_inflight,
        state@.outgoing_rel == bits(state.outgoing_rel),
        state@.incoming_pub == bits(state.incoming_pub),
        state@.outgoing_pub.len() == state.outgoing_pub@.len(),
        forall|i: int|
            0 <= i < state.outgoing_pub@.len() ==> ((#[trigger] state@.outgoing_pub[i]) is Some
                <==> state.outgoing_pub@[i] is Some),
        forall|i: int|
            0 <= i < state.outgoing_pub@.len() && state.outgoing_pub@[i] is Some ==> (
            #[trigger] state@.outgoing_pub[i])->0 == state.outgoing_pub@[i]->0@,
        state@.collision is Some <==> state.collision is Some,
        state.collision is Some ==> state@.collision->0 == state.collision->0@,
        state@.events.len() == state.events@.len(),
        forall|i: int|
            0 <= i < state.events@.len() ==> (#[trigger] state@.events[i]) == state.events@[i]@,
{
}

/// An outcome shows the packet that is returned, or why none is.
pub proof fn outcome_shows_what_is_returned(r: Result<Option<Packet>, StateError>, e: StateError)
    ensures
        outcome(r) is Ok <==> r is Ok,
        r is Err ==> outcome(r) == Err::<Option<PacketModel>, Refusal>(refusal(r->Err_0)),
        r matches Ok(None) ==> outcome(r) == Ok::<Option<PacketModel>, Refusal>(None),
        r matches Ok(Some(p)) ==> outcome(r) == Ok::<Option<PacketModel>, Refusal>(Some(p@)),
        e is InvalidState <==> refusal(e) is InvalidState,
        e is OutgoingCapacity <==> refusal(e) is OutgoingCapacity,
        e is AwaitPingResp <==> refusal(e) is AwaitPingResp,
        e is WrongPacket <==> refusal(e) is WrongPacket,
        e is CollisionTimeout <==> refusal(e) is CollisionTimeout,
        e is EmptySubscription <==> refusal(e) is EmptySubscription,
        refusal(e) matches Refusal::Unsolicited(id) ==> e == StateError::Unsolicited(id),
        refusal(e) matches Refusal::InvalidAlias { alias, max } ==> e == (StateError::InvalidAlias {
            alias,
            max,
        }),
        refusal(e) matches Refusal::ConnFail { reason } ==> e == (StateError::ConnFail { reason }),
        refusal(e) matches Refusal::ServerDisconnect {
            reason_code: code,
            reason_string: text,
        } ==> (e matches StateError::ServerDisconnect { reason_code, reason_string } && reason_code
            == code && (reason_string is Some <==> text is Some) && (text is Some
            ==> reason_string->0@ == text->0)),
{
}

/// A flag is kept for the identifier that it is given for, and nothing else changes.
pub proof fn flag_is_kept(s: StateModel, id: u16, flag: Arc<AtomicBool>, other: u16)
    ensures
        ({
            let t = s.flagged(id, flag);
            &&& t.transmission_flags.contains_key(id) && t.transmission_flags[id] == flag
            &&& other != id ==> (t.transmission_flags.contains_key(other)
                <==> s.transmission_flags.contains_key(other))
            &&& other != id && s.transmission_flags.contains_key(other)
                ==> t.transmission_flags[other] == s.transmission_flags[other]
            &&& t == (StateModel { transmission_flags: t.transmission_flags, ..s })
        }),
{
}

/// The token of an exchange is told exactly while its last acknowledgement is being written.
pub proof fn token_is_told_while_written(s: StateModel, id: u16)
    ensures
        token_of(s, id) is Some <==> s.incoming_done.contains_key(id as usize),
        s.incoming_done.contains_key(id as usize) ==> token_of(s, id) == Some(
            s.incoming_done[id as usize],
        ),
{
}

} // verus!
