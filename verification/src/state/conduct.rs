//! What requests and packets do, told from outside: what goes in, what comes out, and what is
//! different afterwards.
use std::sync::atomic::AtomicBool;
use std::sync::Arc;

use vstd::prelude::*;

use super::model::{
    found_id_is_free, room_for_one, somes, somes_contains, subscribed, taken_is_counted, StateModel,
};
use super::{outcome, MqttState, StateError};
use crate::bitset::{
    bits, count, count_clear, count_update, none_is_counted, positions, positions_ascend,
};
use crate::event::{Event, EventModel, Outgoing, Request, RequestModel};
use crate::mqttbytes::v4::{
    Packet, PacketModel, PubAck, PubComp, PubRec, PubRel, Publish, PublishModel, SubAck, Subscribe,
    SubscribeReasonCode, UnsubAck, Unsubscribe,
};
use crate::mqttbytes::QoS;
use crate::octets::octets;

verus! {

/// Whether nothing uses an identifier: no publication, no release, no subscription and no removal
/// of one.
pub open spec fn unused(s: StateModel, id: int) -> bool {
    &&& 1 <= id <= s.max_inflight
    &&& s.outgoing_pub[id] is None
    &&& !s.outgoing_rel[id]
    &&& !s.outgoing_sub.contains_key(id as u16)
    &&& !s.outgoing_unsub[id]
}

/// How many identifiers lie between the last one that was given out and `id`, around the end.
pub open spec fn distance(s: StateModel, id: int) -> int {
    if id > s.last_pkid {
        id - s.last_pkid
    } else {
        id - s.last_pkid + s.max_inflight
    }
}

/// Whether `id` is the nearest identifier behind the last one that nothing uses, around the end.
pub open spec fn nearest(s: StateModel, id: int) -> bool {
    &&& unused(s, id)
    &&& forall|other: int| #[trigger]
        unused(s, other) ==> distance(s, id) <= distance(s, other)
}

/// The identifier from which the next search starts once `id` was given out.
pub open spec fn behind(s: StateModel, id: u16) -> u16 {
    if id == s.max_inflight {
        0
    } else {
        id
    }
}

proof fn found_from_is_nearest(s: StateModel, k: int)
    requires
        s.wf(),
        0 <= k <= s.max_inflight,
        forall|id: int| #[trigger] unused(s, id) ==> distance(s, id) > k,
    ensures
        s.find_from(k) matches Some(id) ==> nearest(s, id as int),
        s.find_from(k) is None ==> forall|id: int| !(#[trigger] unused(s, id)),
    decreases s.max_inflight - k,
{
    assert forall|id: int| #[trigger] unused(s, id) implies distance(s, id) <= s.max_inflight by {}
    if k < s.max_inflight {
        let n = s.nth_id(k);
        assert(distance(s, n) == k + 1);
        assert(s.free(n) == unused(s, n));
        if !s.free(n) {
            assert forall|id: int| #[trigger] unused(s, id) implies distance(s, id) > k + 1 by {
                if distance(s, id) == k + 1 {
                    assert(id == n);
                }
            }
            found_from_is_nearest(s, k + 1);
        }
    }
}

/// A new identifier is the nearest one behind the last that nothing uses; none is found exactly
/// where all are in use. The search goes on behind it.
pub proof fn nearest_identifier_is_found(s: StateModel)
    requires
        s.wf(),
    ensures
        s.next_available().0 matches Ok(id) ==> nearest(s, id as int) && s.next_available().1 == (
        StateModel { last_pkid: behind(s, id), ..s }),
        s.next_available().0 matches Err(e) ==> e == StateError::InvalidState && (forall|id: int|
            !(#[trigger] unused(s, id))) && s.next_available().1 == s,
        s.find_id() matches Some(id) ==> nearest(s, id as int),
        s.find_id() is None ==> forall|id: int| !(#[trigger] unused(s, id)),
{
    found_from_is_nearest(s, 0);
}

// Requests -----------------------------------------------------------------------------------

/// A publication is handed out as it was asked for. Only an identifier is added, where one is
/// needed and none was brought. What is handed out and needs an acknowledgement is kept as it is,
/// and nothing else changes.
pub proof fn publication_is_handed_out_as_asked(s: StateModel, p: PublishModel)
    requires
        s.wf(),
    ensures
        s.outgoing(RequestModel::Publish(p)).0 matches Ok(Some(x)) ==> {
            let t = s.outgoing(RequestModel::Publish(p)).1;
            &&& x matches PacketModel::Publish(q) && {
                &&& q.dup == p.dup
                &&& q.qos == p.qos
                &&& q.retain == p.retain
                &&& q.topic == p.topic
                &&& q.payload == p.payload
                &&& p.pkid != 0 || p.qos == QoS::AtMostOnce ==> q.pkid == p.pkid
                &&& p.pkid == 0 && p.qos != QoS::AtMostOnce ==> nearest(s, q.pkid as int)
                    && t.last_pkid == behind(s, q.pkid)
                &&& p.pkid != 0 || p.qos == QoS::AtMostOnce ==> t.last_pkid == s.last_pkid
                &&& t.events == s.events.push(EventModel::Outgoing(Outgoing::Publish(q.pkid)))
                &&& p.qos == QoS::AtMostOnce ==> t.outgoing_pub == s.outgoing_pub && t.inflight
                    == s.inflight
                &&& p.qos != QoS::AtMostOnce ==> {
                    &&& unused(s, q.pkid as int)
                    &&& t.outgoing_pub[q.pkid as int] == Some(q)
                    &&& t.outgoing_pub.len() == s.outgoing_pub.len()
                    &&& forall|i: int|
                        0 <= i <= s.max_inflight && i != q.pkid ==> t.outgoing_pub[i]
                            == s.outgoing_pub[i]
                    &&& t.inflight == s.inflight + 1
                }
                &&& t == (StateModel {
                    last_pkid: t.last_pkid,
                    outgoing_pub: t.outgoing_pub,
                    inflight: t.inflight,
                    events: t.events,
                    ..s
                })
            }
        },
{
    nearest_identifier_is_found(s);
    found_id_is_free(s);
    if let Some(id) = s.find_id() {
        room_for_one(s, id as int);
    }
    if 0 < p.pkid <= s.max_inflight && s.outgoing_pub[p.pkid as int] is None
        && !s.outgoing_rel[p.pkid as int] {
        room_for_one(s, p.pkid as int);
    }
}

/// A publication is refused exactly where it cannot get an identifier, or brings one that is out
/// of range or in use by another kind of exchange. It waits exactly where its identifier still
/// belongs to a publication. All others are handed out.
pub proof fn publication_is_owed(s: StateModel, p: PublishModel)
    requires
        s.wf(),
    ensures
        ({
            let (o, t) = s.outgoing(RequestModel::Publish(p));
            let id = p.pkid as int;
            let taken = id <= s.max_inflight && s.outgoing_pub[id] is Some;
            let elsewhere = id <= s.max_inflight && (s.outgoing_rel[id]
                || s.outgoing_sub.contains_key(p.pkid) || s.outgoing_unsub[id]);
            if p.qos == QoS::AtMostOnce {
                o is Ok && o->Ok_0 is Some
            } else if id == 0 {
                if forall|i: int| !(#[trigger] unused(s, i)) {
                    o == Err::<Option<PacketModel>, StateError>(StateError::InvalidState) && t == s
                } else {
                    o is Ok && o->Ok_0 is Some
                }
            } else if elsewhere {
                o == Err::<Option<PacketModel>, StateError>(StateError::InvalidState) && t == s
            } else if id > s.max_inflight {
                o == Err::<Option<PacketModel>, StateError>(StateError::Unsolicited(p.pkid)) && t
                    == s
            } else if taken {
                &&& o == Ok::<Option<PacketModel>, StateError>(None)
                &&& t.collision == Some(p)
                &&& t.events == s.events.push(EventModel::Outgoing(Outgoing::AwaitAck(p.pkid)))
                &&& t == (StateModel { collision: t.collision, events: t.events, ..s })
            } else {
                o is Ok && o->Ok_0 is Some
            }
        }),
{
    nearest_identifier_is_found(s);
}

/// A subscription is handed out as it was asked for, under the nearest identifier that nothing
/// uses, and what it asks for is kept under that identifier. One without filters is refused, and
/// so is one that gets no identifier.
pub proof fn subscription_is_handed_out_as_asked(s: StateModel, p: Subscribe)
    requires
        s.wf(),
    ensures
        ({
            let (o, t) = s.outgoing(RequestModel::Subscribe(p));
            if p.filters@.len() == 0 {
                o == Err::<Option<PacketModel>, StateError>(StateError::EmptySubscription) && t == s
            } else if forall|i: int| !(#[trigger] unused(s, i)) {
                o == Err::<Option<PacketModel>, StateError>(StateError::InvalidState) && t == s
            } else {
                &&& o matches Ok(Some(PacketModel::Subscribe(q))) && {
                    &&& q.filters == p.filters
                    &&& nearest(s, q.pkid as int)
                    &&& t.last_pkid == behind(s, q.pkid)
                    &&& t.outgoing_sub.dom() == s.outgoing_sub.dom().insert(q.pkid)
                    &&& t.outgoing_sub[q.pkid].len() == p.filters@.len()
                    &&& forall|i: int|
                        0 <= i < p.filters@.len() ==> (#[trigger] t.outgoing_sub[q.pkid][i])
                            == p.filters@[i].qos
                    &&& forall|id: u16| #[trigger]
                        s.outgoing_sub.contains_key(id) ==> t.outgoing_sub[id]
                            == s.outgoing_sub[id]
                    &&& t.events == s.events.push(EventModel::Outgoing(Outgoing::Subscribe(q.pkid)))
                }
                &&& t == (StateModel {
                    last_pkid: t.last_pkid,
                    outgoing_sub: t.outgoing_sub,
                    events: t.events,
                    ..s
                })
            }
        }),
{
    nearest_identifier_is_found(s);
}

/// The removal of a subscription is handed out as it was asked for, under the nearest identifier
/// that nothing uses, which is then in use. One without topics is refused, and so is one that gets
/// no identifier.
pub proof fn removal_is_handed_out_as_asked(s: StateModel, p: Unsubscribe)
    requires
        s.wf(),
    ensures
        ({
            let (o, t) = s.outgoing(RequestModel::Unsubscribe(p));
            if p.topics@.len() == 0 {
                o == Err::<Option<PacketModel>, StateError>(StateError::EmptySubscription) && t == s
            } else if forall|i: int| !(#[trigger] unused(s, i)) {
                o == Err::<Option<PacketModel>, StateError>(StateError::InvalidState) && t == s
            } else {
                &&& o matches Ok(Some(PacketModel::Unsubscribe(q))) && {
                    &&& q.topics == p.topics
                    &&& nearest(s, q.pkid as int)
                    &&& t.last_pkid == behind(s, q.pkid)
                    &&& t.outgoing_unsub.len() == s.outgoing_unsub.len()
                    &&& forall|i: int|
                        0 <= i <= s.max_inflight ==> (#[trigger] t.outgoing_unsub[i] <==> (i
                            == q.pkid || s.outgoing_unsub[i]))
                    &&& t.events == s.events.push(
                        EventModel::Outgoing(Outgoing::Unsubscribe(q.pkid)),
                    )
                }
                &&& t == (StateModel {
                    last_pkid: t.last_pkid,
                    outgoing_unsub: t.outgoing_unsub,
                    events: t.events,
                    ..s
                })
            }
        }),
{
    nearest_identifier_is_found(s);
}

/// A release goes out under the identifier that was asked for, or under the nearest one that
/// nothing uses, and is marked. It is refused where its identifier is out of range or belongs to
/// another kind of exchange.
pub proof fn release_is_handed_out_as_asked(s: StateModel, p: PubRel)
    requires
        s.wf(),
    ensures
        ({
            let (o, t) = s.outgoing(RequestModel::PubRel(p));
            let asked = p.pkid as int;
            let refused = if asked == 0 {
                forall|i: int| !(#[trigger] unused(s, i))
            } else {
                asked > s.max_inflight || s.outgoing_pub[asked] is Some
                    || s.outgoing_sub.contains_key(p.pkid) || s.outgoing_unsub[asked]
            };
            if refused {
                o == Err::<Option<PacketModel>, StateError>(StateError::InvalidState) && t == s
            } else {
                &&& o matches Ok(Some(PacketModel::PubRel(q))) && {
                    &&& asked != 0 ==> q.pkid == asked && t.last_pkid == s.last_pkid
                    &&& asked == 0 ==> nearest(s, q.pkid as int) && t.last_pkid == behind(
                        s,
                        q.pkid,
                    )
                    &&& t.outgoing_rel.len() == s.outgoing_rel.len()
                    &&& forall|i: int|
                        0 <= i <= s.max_inflight ==> (#[trigger] t.outgoing_rel[i] <==> (i == q.pkid
                            || s.outgoing_rel[i]))
                    &&& t.inflight == s.inflight + if s.outgoing_rel[q.pkid as int] {
                        0int
                    } else {
                        1
                    }
                    &&& t.events == s.events.push(EventModel::Outgoing(Outgoing::PubRel(q.pkid)))
                }
                &&& t == (StateModel {
                    last_pkid: t.last_pkid,
                    outgoing_rel: t.outgoing_rel,
                    inflight: t.inflight,
                    events: t.events,
                    ..s
                })
            }
        }),
{
    nearest_identifier_is_found(s);
    found_id_is_free(s);
    if let Some(id) = s.find_id() {
        room_for_one(s, id as int);
    }
    if 0 < p.pkid <= s.max_inflight && s.outgoing_pub[p.pkid as int] is None
        && !s.outgoing_rel[p.pkid as int] {
        room_for_one(s, p.pkid as int);
    }
}

/// A ping goes out unless the last one was not answered, or it is the second one while a
/// publication waits for an identifier. From then on an answer is awaited.
pub proof fn ping_awaits_its_answer(s: StateModel)
    requires
        s.collision_ping_count < usize::MAX,
    ensures
        ({
            let (o, t) = s.outgoing(RequestModel::PingReq);
            let waiting = s.collision is Some;
            &&& t.collision_ping_count == s.collision_ping_count + if waiting {
                1int
            } else {
                0
            }
            &&& t == (StateModel {
                collision_ping_count: t.collision_ping_count,
                await_pingresp: t.await_pingresp,
                events: t.events,
                ..s
            })
            &&& if waiting && s.collision_ping_count >= 1 {
                &&& o == Err::<Option<PacketModel>, StateError>(StateError::CollisionTimeout)
                &&& t.await_pingresp == s.await_pingresp && t.events == s.events
            } else if s.await_pingresp {
                &&& o == Err::<Option<PacketModel>, StateError>(StateError::AwaitPingResp)
                &&& t.await_pingresp && t.events == s.events
            } else {
                &&& o == Ok::<Option<PacketModel>, StateError>(Some(PacketModel::PingReq))
                &&& t.await_pingresp
                &&& t.events == s.events.push(EventModel::Outgoing(Outgoing::PingReq))
            }
        }),
{
}

/// The end of the connection is always handed out, and reported.
pub proof fn disconnect_is_handed_out(s: StateModel)
    ensures
        s.outgoing(RequestModel::Disconnect).0 == Ok::<Option<PacketModel>, StateError>(
            Some(PacketModel::Disconnect),
        ),
        s.outgoing(RequestModel::Disconnect).1 == (StateModel {
            events: s.events.push(EventModel::Outgoing(Outgoing::Disconnect)),
            ..s
        }),
{
}

/// An acknowledgement of an incoming publication goes out under the identifier of that
/// publication, exactly where one is owed, and only that one ceases to be owed.
pub proof fn owed_acknowledgement_is_handed_out(s: StateModel, id: u16)
    requires
        s.wf(),
    ensures
        ({
            let (o, t) = s.outgoing(RequestModel::PubAck(PubAck { pkid: id }));
            if s.incoming_ack[id as int] {
                &&& o == Ok::<Option<PacketModel>, StateError>(
                    Some(PacketModel::PubAck(PubAck { pkid: id })),
                )
                &&& t.incoming_ack.len() == 65536
                &&& forall|i: int|
                    0 <= i < 65536 ==> (#[trigger] t.incoming_ack[i] <==> (s.incoming_ack[i] && i
                        != id))
                &&& t.events == s.events.push(EventModel::Outgoing(Outgoing::PubAck(id)))
                &&& t == (StateModel { incoming_ack: t.incoming_ack, events: t.events, ..s })
            } else {
                o == Err::<Option<PacketModel>, StateError>(StateError::Unsolicited(id)) && t == s
            }
        }),
        ({
            let (o, t) = s.outgoing(RequestModel::PubRec(PubRec { pkid: id }));
            if s.incoming_pub[id as int] {
                &&& o == Ok::<Option<PacketModel>, StateError>(
                    Some(PacketModel::PubRec(PubRec { pkid: id })),
                )
                &&& t.incoming_rec.len() == 65536
                &&& forall|i: int|
                    0 <= i < 65536 ==> (#[trigger] t.incoming_rec[i] <==> (s.incoming_rec[i] && i
                        != id))
                &&& t.events == s.events.push(EventModel::Outgoing(Outgoing::PubRec(id)))
                &&& t == (StateModel { incoming_rec: t.incoming_rec, events: t.events, ..s })
            } else {
                o == Err::<Option<PacketModel>, StateError>(StateError::Unsolicited(id)) && t == s
            }
        }),
        !s.manual_acks ==> s.acknowledgement(id) == Err::<RequestModel, StateError>(
            StateError::InvalidState,
        ),
        s.manual_acks && s.incoming_ack[id as int] ==> s.acknowledgement(id) == Ok::<
            RequestModel,
            StateError,
        >(RequestModel::PubAck(PubAck { pkid: id })),
        s.manual_acks && s.incoming_rec[id as int] ==> s.acknowledgement(id) == Ok::<
            RequestModel,
            StateError,
        >(RequestModel::PubRec(PubRec { pkid: id })),
        s.manual_acks && !s.incoming_ack[id as int] && !s.incoming_rec[id as int]
            ==> s.acknowledgement(id) == Err::<RequestModel, StateError>(
            StateError::Unsolicited(id),
        ),
{
}

/// What a client does not send is refused.
pub proof fn foreign_request_is_refused(s: StateModel, request: RequestModel)
    requires
        request is PubComp || request is PingResp || request is SubAck || request is UnsubAck,
    ensures
        s.outgoing(request).0 == Err::<Option<PacketModel>, StateError>(StateError::WrongPacket),
        s.outgoing(request).1 == s,
{
}

// Packets ------------------------------------------------------------------------------------

/// A packet that is accepted is reported once, as it came, behind all that was reported before and
/// in front of all that it gives rise to. The one exception is a publication of the highest
/// quality of service whose identifier is still held: it was reported before.
pub proof fn accepted_packet_is_delivered(s: StateModel, packet: PacketModel)
    requires
        s.wf(),
        s.incoming(packet).0 is Ok,
    ensures
        ({
            let t = s.incoming(packet).1;
            let n = s.events.len() as int;
            let held = packet matches PacketModel::Publish(p) && p.qos == QoS::ExactlyOnce
                && s.incoming_pub[p.pkid as int];
            &&& n <= t.events.len()
            &&& t.events.take(n) == s.events
            &&& !held ==> n < t.events.len() && t.events[n] == EventModel::Incoming(packet)
            &&& forall|i: int|
                n < i < t.events.len() ==> (#[trigger] t.events[i]) is Outgoing
            &&& held && n < t.events.len() ==> t.events[n] is Outgoing
            &&& t.events.len() <= n + 2
        }),
{
    let t = s.incoming(packet).1;
    assert(t.events.take(s.events.len() as int) =~= s.events);
}

/// A packet that is accepted leaves the flags of the publications that are still kept, and no
/// others.
pub proof fn accepted_packet_drops_dead_flags(s: StateModel, packet: PacketModel, id: u16)
    requires
        s.wf(),
        s.incoming(packet).0 is Ok,
    ensures
        ({
            let t = s.incoming(packet).1;
            &&& t.transmission_flags.contains_key(id) <==> (s.transmission_flags.contains_key(id)
                && id <= s.max_inflight && t.outgoing_pub[id as int] is Some)
            &&& t.transmission_flags.contains_key(id) ==> t.transmission_flags[id]
                == s.transmission_flags[id]
        }),
{
    crate::state::model::incoming_keeps_wf(s, packet);
}

/// A publication of the lowest quality of service is only delivered: no answer is owed for it.
pub proof fn plain_publication_is_delivered(s: StateModel, p: PublishModel)
    requires
        s.wf(),
        p.qos == QoS::AtMostOnce,
    ensures
        ({
            let packet = PacketModel::Publish(p);
            let (o, t) = s.incoming(packet);
            &&& o == Ok::<Option<PacketModel>, StateError>(None)
            &&& t.events == s.events.push(EventModel::Incoming(packet))
            &&& t == (StateModel {
                transmission_flags: t.transmission_flags,
                events: t.events,
                ..s
            })
        }),
{
}

/// A publication of the middle quality of service is delivered each time it comes. Its
/// acknowledgement names its identifier, and goes out at once or, where the application
/// acknowledges, is owed from then on. It is refused where it has no identifier, where its
/// identifier is held by a publication of the highest quality of service, and where it comes again
/// without being marked as repeated while its acknowledgement is owed.
pub proof fn acknowledged_publication_is_delivered(s: StateModel, p: PublishModel)
    requires
        s.wf(),
        p.qos == QoS::AtLeastOnce,
    ensures
        ({
            let packet = PacketModel::Publish(p);
            let (o, t) = s.incoming(packet);
            let id = p.pkid as int;
            if id == 0 || s.incoming_pub[id] || (s.incoming_ack[id] && !p.dup) {
                o == Err::<Option<PacketModel>, StateError>(StateError::WrongPacket) && t == s
            } else if s.manual_acks {
                &&& o == Ok::<Option<PacketModel>, StateError>(None)
                &&& t.events == s.events.push(EventModel::Incoming(packet))
                &&& t.incoming_ack.len() == 65536
                &&& forall|i: int|
                    0 <= i < 65536 ==> (#[trigger] t.incoming_ack[i] <==> (s.incoming_ack[i] || i
                        == id))
                &&& t == (StateModel {
                    transmission_flags: t.transmission_flags,
                    events: t.events,
                    incoming_ack: t.incoming_ack,
                    ..s
                })
            } else {
                &&& o == Ok::<Option<PacketModel>, StateError>(
                    Some(PacketModel::PubAck(PubAck { pkid: p.pkid })),
                )
                &&& t.events == s.events.push(EventModel::Incoming(packet)).push(
                    EventModel::Outgoing(Outgoing::PubAck(p.pkid)),
                )
                &&& t.incoming_ack.len() == 65536
                &&& forall|i: int|
                    0 <= i < 65536 ==> (#[trigger] t.incoming_ack[i] <==> (s.incoming_ack[i] && i
                        != id))
                &&& t == (StateModel {
                    transmission_flags: t.transmission_flags,
                    events: t.events,
                    incoming_ack: t.incoming_ack,
                    ..s
                })
            }
        }),
{
    let t = s.incoming(PacketModel::Publish(p)).1;
    if s.incoming(PacketModel::Publish(p)).0 is Ok && !s.manual_acks {
        assert(t.events =~= s.events.push(EventModel::Incoming(PacketModel::Publish(p))).push(
            EventModel::Outgoing(Outgoing::PubAck(p.pkid)),
        ));
    }
}

/// A publication of the highest quality of service is delivered when it comes first. Its receipt
/// names its identifier, and goes out at once or, where the application acknowledges, is owed from
/// then on. Its identifier is held until it is released; while it is held, the publication must be
/// marked as repeated, is not delivered again, and its receipt is repeated once it is no longer
/// owed. It is refused where it has no identifier, and where an acknowledgement of the middle
/// quality of service is owed under its identifier.
pub proof fn received_publication_is_delivered_once(s: StateModel, p: PublishModel)
    requires
        s.wf(),
        p.qos == QoS::ExactlyOnce,
    ensures
        ({
            let packet = PacketModel::Publish(p);
            let (o, t) = s.incoming(packet);
            let id = p.pkid as int;
            let receipt = Some(PacketModel::PubRec(PubRec { pkid: p.pkid }));
            if id == 0 || s.incoming_ack[id] || (s.incoming_pub[id] && !p.dup) {
                o == Err::<Option<PacketModel>, StateError>(StateError::WrongPacket) && t == s
            } else {
                &&& o == Ok::<Option<PacketModel>, StateError>(
                    if s.incoming_pub[id] && s.incoming_rec[id] || !s.incoming_pub[id]
                        && s.manual_acks {
                        None
                    } else {
                        receipt
                    },
                )
                &&& t.events == if s.incoming_pub[id] && s.incoming_rec[id] {
                    s.events
                } else if s.incoming_pub[id] {
                    s.events.push(EventModel::Outgoing(Outgoing::PubRec(p.pkid)))
                } else if s.manual_acks {
                    s.events.push(EventModel::Incoming(packet))
                } else {
                    s.events.push(EventModel::Incoming(packet)).push(
                        EventModel::Outgoing(Outgoing::PubRec(p.pkid)),
                    )
                }
                &&& t.incoming_pub.len() == 65536 && t.incoming_rec.len() == 65536
                &&& forall|i: int|
                    0 <= i < 65536 ==> (#[trigger] t.incoming_pub[i] <==> (s.incoming_pub[i] || i
                        == id))
                &&& forall|i: int|
                    0 <= i < 65536 && i != id ==> (#[trigger] t.incoming_rec[i])
                        == s.incoming_rec[i]
                &&& t.incoming_rec[id] == if s.incoming_pub[id] {
                    s.incoming_rec[id]
                } else {
                    s.manual_acks
                }
                &&& t == (StateModel {
                    transmission_flags: t.transmission_flags,
                    events: t.events,
                    incoming_pub: t.incoming_pub,
                    incoming_rec: t.incoming_rec,
                    ..s
                })
            }
        }),
{
    let packet = PacketModel::Publish(p);
    let t = s.incoming(packet).1;
    if s.incoming(packet).0 is Ok && !s.incoming_pub[p.pkid as int] && !s.manual_acks {
        assert(t.events =~= s.events.push(EventModel::Incoming(packet)).push(
            EventModel::Outgoing(Outgoing::PubRec(p.pkid)),
        ));
    }
}

/// A release is confirmed under its own identifier, which is then no longer held; no other is let
/// go. It is refused where it has no identifier, and where an acknowledgement or a receipt is owed
/// under it.
pub proof fn release_is_confirmed(s: StateModel, id: u16)
    requires
        s.wf(),
    ensures
        ({
            let packet = PacketModel::PubRel(PubRel { pkid: id });
            let (o, t) = s.incoming(packet);
            if id == 0 || s.incoming_ack[id as int] || s.incoming_rec[id as int] {
                o == Err::<Option<PacketModel>, StateError>(StateError::Unsolicited(id)) && t == s
            } else {
                &&& o == Ok::<Option<PacketModel>, StateError>(
                    Some(PacketModel::PubComp(PubComp { pkid: id })),
                )
                &&& t.events == s.events.push(EventModel::Incoming(packet)).push(
                    EventModel::Outgoing(Outgoing::PubComp(id)),
                )
                &&& t.incoming_pub.len() == 65536
                &&& forall|i: int|
                    0 <= i < 65536 ==> (#[trigger] t.incoming_pub[i] <==> (s.incoming_pub[i] && i
                        != id))
                &&& t == (StateModel {
                    transmission_flags: t.transmission_flags,
                    events: t.events,
                    incoming_pub: t.incoming_pub,
                    ..s
                })
            }
        }),
{
    let packet = PacketModel::PubRel(PubRel { pkid: id });
    let t = s.incoming(packet).1;
    if s.incoming(packet).0 is Ok {
        assert(t.events =~= s.events.push(EventModel::Incoming(packet)).push(
            EventModel::Outgoing(Outgoing::PubComp(id)),
        ));
    }
}

/// An acknowledgement ends the publication of the middle quality of service that has its
/// identifier, and no other. A publication that waited for the identifier takes its place and is
/// handed out as it was asked for. All other acknowledgements are refused.
pub proof fn acknowledgement_ends_publication(s: StateModel, id: u16)
    requires
        s.wf(),
    ensures
        ({
            let packet = PacketModel::PubAck(PubAck { pkid: id });
            let (o, t) = s.incoming(packet);
            let kept = id <= s.max_inflight && (s.outgoing_pub[id as int] matches Some(p) && p.qos
                == QoS::AtLeastOnce);
            if !kept {
                o == Err::<Option<PacketModel>, StateError>(StateError::Unsolicited(id)) && t == s
            } else {
                &&& t.last_puback == id
                &&& t.outgoing_pub.len() == s.outgoing_pub.len()
                &&& forall|i: int|
                    0 <= i <= s.max_inflight && i != id ==> (#[trigger] t.outgoing_pub[i])
                        == s.outgoing_pub[i]
                &&& t == (StateModel {
                    transmission_flags: t.transmission_flags,
                    events: t.events,
                    last_puback: id,
                    outgoing_pub: t.outgoing_pub,
                    inflight: t.inflight,
                    collision: t.collision,
                    collision_ping_count: t.collision_ping_count,
                    ..s
                })
                &&& if s.collision matches Some(p) && p.pkid == id {
                    let p = s.collision->0;
                    &&& o == Ok::<Option<PacketModel>, StateError>(Some(PacketModel::Publish(p)))
                    &&& t.outgoing_pub[id as int] == Some(p)
                    &&& t.inflight == s.inflight
                    &&& t.collision is None && t.collision_ping_count == 0
                    &&& t.events == s.events.push(EventModel::Incoming(packet)).push(
                        EventModel::Outgoing(Outgoing::Publish(id)),
                    )
                } else {
                    &&& o == Ok::<Option<PacketModel>, StateError>(None)
                    &&& t.outgoing_pub[id as int] is None
                    &&& t.inflight == s.inflight - 1
                    &&& t.collision == s.collision && t.collision_ping_count
                        == s.collision_ping_count
                    &&& t.events == s.events.push(EventModel::Incoming(packet))
                }
            }
        }),
{
    let packet = PacketModel::PubAck(PubAck { pkid: id });
    let t = s.incoming(packet).1;
    if s.incoming(packet).0 is Ok {
        taken_is_counted(s, id as int);
        if s.incoming(packet).0->Ok_0 is Some {
            assert(t.events =~= s.events.push(EventModel::Incoming(packet)).push(
                EventModel::Outgoing(Outgoing::Publish(id)),
            ));
        }
    }
}

/// A receipt is answered by a release of its own identifier. The publication of the highest quality
/// of service that has the identifier is no longer kept, and its release is; a receipt for a
/// release that is kept already changes nothing. All other receipts are refused.
pub proof fn receipt_is_answered_by_release(s: StateModel, id: u16)
    requires
        s.wf(),
    ensures
        ({
            let packet = PacketModel::PubRec(PubRec { pkid: id });
            let (o, t) = s.incoming(packet);
            let released = id <= s.max_inflight && s.outgoing_rel[id as int];
            let kept = id <= s.max_inflight && (s.outgoing_pub[id as int] matches Some(p) && p.qos
                == QoS::ExactlyOnce);
            if !released && !kept {
                o == Err::<Option<PacketModel>, StateError>(StateError::Unsolicited(id)) && t == s
            } else {
                &&& o == Ok::<Option<PacketModel>, StateError>(
                    Some(PacketModel::PubRel(PubRel { pkid: id })),
                )
                &&& t.events == s.events.push(EventModel::Incoming(packet)).push(
                    EventModel::Outgoing(Outgoing::PubRel(id)),
                )
                &&& t.outgoing_pub.len() == s.outgoing_pub.len()
                &&& t.outgoing_rel.len() == s.outgoing_rel.len()
                &&& t.outgoing_pub[id as int] is None
                &&& forall|i: int|
                    0 <= i <= s.max_inflight && i != id ==> (#[trigger] t.outgoing_pub[i])
                        == s.outgoing_pub[i]
                &&& forall|i: int|
                    0 <= i <= s.max_inflight ==> (#[trigger] t.outgoing_rel[i] <==> (
                    s.outgoing_rel[i] || i == id))
                &&& t == (StateModel {
                    transmission_flags: t.transmission_flags,
                    events: t.events,
                    outgoing_pub: t.outgoing_pub,
                    outgoing_rel: t.outgoing_rel,
                    ..s
                })
            }
        }),
{
    let packet = PacketModel::PubRec(PubRec { pkid: id });
    let t = s.incoming(packet).1;
    if s.incoming(packet).0 is Ok {
        assert(t.events =~= s.events.push(EventModel::Incoming(packet)).push(
            EventModel::Outgoing(Outgoing::PubRel(id)),
        ));
    }
}

/// A confirmation ends the release of its own identifier, and no other. A publication that waited
/// for the identifier is handed out as it was asked for, and kept. All other confirmations are
/// refused.
pub proof fn confirmation_ends_release(s: StateModel, id: u16)
    requires
        s.wf(),
    ensures
        ({
            let packet = PacketModel::PubComp(PubComp { pkid: id });
            let (o, t) = s.incoming(packet);
            if !(id <= s.max_inflight && s.outgoing_rel[id as int]) {
                o == Err::<Option<PacketModel>, StateError>(StateError::Unsolicited(id)) && t == s
            } else {
                &&& t.outgoing_rel.len() == s.outgoing_rel.len()
                &&& forall|i: int|
                    0 <= i <= s.max_inflight ==> (#[trigger] t.outgoing_rel[i] <==> (
                    s.outgoing_rel[i] && i != id))
                &&& t.outgoing_pub.len() == s.outgoing_pub.len()
                &&& forall|i: int|
                    0 <= i <= s.max_inflight && i != id ==> (#[trigger] t.outgoing_pub[i])
                        == s.outgoing_pub[i]
                &&& t == (StateModel {
                    transmission_flags: t.transmission_flags,
                    events: t.events,
                    outgoing_pub: t.outgoing_pub,
                    outgoing_rel: t.outgoing_rel,
                    inflight: t.inflight,
                    collision: t.collision,
                    collision_ping_count: t.collision_ping_count,
                    ..s
                })
                &&& if s.collision matches Some(p) && p.pkid == id {
                    let p = s.collision->0;
                    &&& o == Ok::<Option<PacketModel>, StateError>(Some(PacketModel::Publish(p)))
                    &&& t.outgoing_pub[id as int] == Some(p)
                    &&& t.inflight == s.inflight
                    &&& t.collision is None && t.collision_ping_count == 0
                    &&& t.events == s.events.push(EventModel::Incoming(packet)).push(
                        EventModel::Outgoing(Outgoing::Publish(id)),
                    )
                } else {
                    &&& o == Ok::<Option<PacketModel>, StateError>(None)
                    &&& t.outgoing_pub[id as int] is None
                    &&& t.inflight == s.inflight - 1
                    &&& t.collision == s.collision && t.collision_ping_count
                        == s.collision_ping_count
                    &&& t.events == s.events.push(EventModel::Incoming(packet))
                }
            }
        }),
{
    let packet = PacketModel::PubComp(PubComp { pkid: id });
    let t = s.incoming(packet).1;
    if s.incoming(packet).0 is Ok {
        taken_is_counted(s, id as int);
        assert(s.outgoing_pub[id as int] is None);
        if s.incoming(packet).0->Ok_0 is Some {
            assert(t.events =~= s.events.push(EventModel::Incoming(packet)).push(
                EventModel::Outgoing(Outgoing::Publish(id)),
            ));
        }
    }
}

/// The number that orders the qualities of service.
pub open spec fn rank(qos: QoS) -> int {
    match qos {
        QoS::AtMostOnce => 0,
        QoS::AtLeastOnce => 1,
        QoS::ExactlyOnce => 2,
    }
}

/// The answer to a subscription ends it, and no other. It must answer each filter, and grant no
/// higher quality of service than was asked for; otherwise it is refused.
pub proof fn answer_ends_subscription(s: StateModel, ack: SubAck)
    requires
        s.wf(),
    ensures
        ({
            let packet = PacketModel::SubAck(ack);
            let (o, t) = s.incoming(packet);
            let codes = ack.return_codes@;
            if !s.outgoing_sub.contains_key(ack.pkid) {
                o == Err::<Option<PacketModel>, StateError>(StateError::Unsolicited(ack.pkid)) && t
                    == s
            } else if codes.len() != s.outgoing_sub[ack.pkid].len() || exists|i: int|
                0 <= i < codes.len() && (#[trigger] codes[i] matches SubscribeReasonCode::Success(
                    qos,
                ) && rank(qos) > rank(s.outgoing_sub[ack.pkid][i])) {
                o == Err::<Option<PacketModel>, StateError>(StateError::WrongPacket) && t == s
            } else {
                &&& o == Ok::<Option<PacketModel>, StateError>(None)
                &&& t.events == s.events.push(EventModel::Incoming(packet))
                &&& forall|id: u16| #[trigger]
                    t.outgoing_sub.contains_key(id) <==> (s.outgoing_sub.contains_key(id) && id
                        != ack.pkid)
                &&& forall|id: u16| #[trigger]
                    t.outgoing_sub.contains_key(id) ==> t.outgoing_sub[id] == s.outgoing_sub[id]
                &&& t == (StateModel {
                    transmission_flags: t.transmission_flags,
                    events: t.events,
                    outgoing_sub: t.outgoing_sub,
                    ..s
                })
            }
        }),
{
}

/// The answer to the removal of a subscription ends it, and no other; one that nothing asked for is
/// refused.
pub proof fn answer_ends_removal(s: StateModel, id: u16)
    requires
        s.wf(),
    ensures
        ({
            let packet = PacketModel::UnsubAck(UnsubAck { pkid: id });
            let (o, t) = s.incoming(packet);
            if !(id <= s.max_inflight && s.outgoing_unsub[id as int]) {
                o == Err::<Option<PacketModel>, StateError>(StateError::Unsolicited(id)) && t == s
            } else {
                &&& o == Ok::<Option<PacketModel>, StateError>(None)
                &&& t.events == s.events.push(EventModel::Incoming(packet))
                &&& t.outgoing_unsub.len() == s.outgoing_unsub.len()
                &&& forall|i: int|
                    0 <= i <= s.max_inflight ==> (#[trigger] t.outgoing_unsub[i] <==> (
                    s.outgoing_unsub[i] && i != id))
                &&& t == (StateModel {
                    transmission_flags: t.transmission_flags,
                    events: t.events,
                    outgoing_unsub: t.outgoing_unsub,
                    ..s
                })
            }
        }),
{
}

/// The answer to a ping ends the wait for it; one that nothing asked for is refused, and so is what
/// a server does not send within a connection.
pub proof fn answer_ends_ping(s: StateModel, packet: PacketModel)
    requires
        s.wf(),
        packet is PingResp || packet is PingReq || packet is Connect || packet is ConnAck
            || packet is Subscribe || packet is Unsubscribe || packet is Disconnect,
    ensures
        ({
            let (o, t) = s.incoming(packet);
            if packet is PingResp && s.await_pingresp {
                &&& o == Ok::<Option<PacketModel>, StateError>(None)
                &&& t == (StateModel {
                    transmission_flags: t.transmission_flags,
                    events: s.events.push(EventModel::Incoming(packet)),
                    await_pingresp: false,
                    ..s
                })
            } else {
                o == Err::<Option<PacketModel>, StateError>(StateError::WrongPacket) && t == s
            }
        }),
{
}

// Sessions -----------------------------------------------------------------------------------

/// The places from which publications were taken.
proof fn places(s: Seq<Option<PublishModel>>) -> (r: Seq<int>)
    ensures
        r.len() == somes(s).len(),
        forall|i: int|
            0 <= i < r.len() ==> 0 <= (#[trigger] r[i]) < s.len() && s[r[i]] == Some(somes(s)[i]),
        forall|i: int, j: int| 0 <= i < j < r.len() ==> (#[trigger] r[i]) < (#[trigger] r[j]),
    decreases s.len(),
{
    if s.len() == 0 {
        Seq::empty()
    } else {
        let front = s.drop_last();
        let r = places(front);
        assert forall|i: int| 0 <= i < r.len() implies s[#[trigger] r[i]] == Some(
            somes(front)[i],
        ) by {
            assert(front[r[i]] == s[r[i]]);
        }
        if s.last() is Some {
            r.push(s.len() - 1)
        } else {
            r
        }
    }
}

/// When a publication is sent again: from behind the last one that was acknowledged, and around.
pub open spec fn turn(s: StateModel, id: u16) -> int {
    if id > s.last_puback {
        id - s.last_puback
    } else {
        id - s.last_puback + s.max_inflight + 1
    }
}

/// The publications are those that are kept, each once, in turn.
pub proof fn publications_are_in_turn(s: StateModel)
    requires
        s.wf(),
    ensures
        forall|i: int|
            0 <= i < s.publications().len() ==> {
                let p = #[trigger] s.publications()[i];
                0 < p.pkid <= s.max_inflight && s.outgoing_pub[p.pkid as int] == Some(p)
            },
        forall|i: int, j: int|
            0 <= i < j < s.publications().len() ==> turn(s, (#[trigger] s.publications()[i]).pkid)
                < turn(s, (#[trigger] s.publications()[j]).pkid),
        forall|id: int|
            0 <= id <= s.max_inflight ==> (#[trigger] s.outgoing_pub[id] matches Some(p)
                ==> s.publications().contains(p)),
{
    let k = s.last_puback + 1;
    let around = s.outgoing_pub.skip(k) + s.outgoing_pub.take(k);
    let n = s.max_inflight + 1;
    let at = places(around);
    assert forall|j: int| 0 <= j < n implies (#[trigger] around[j]) == s.outgoing_pub[if j < n - k {
        j + k
    } else {
        j + k - n
    }] by {}
    assert forall|i: int| 0 <= i < s.publications().len() implies {
        let p = #[trigger] s.publications()[i];
        0 < p.pkid <= s.max_inflight && s.outgoing_pub[p.pkid as int] == Some(p) && turn(s, p.pkid)
            == at[i] + 1
    } by {
        let j = at[i];
        assert(around[j] == Some(s.publications()[i]));
    }
    assert forall|i: int, j: int| 0 <= i < j < s.publications().len() implies turn(
        s,
        (#[trigger] s.publications()[i]).pkid,
    ) < turn(s, (#[trigger] s.publications()[j]).pkid) by {
        assert(at[i] < at[j]);
    }
    assert forall|id: int| 0 <= id <= s.max_inflight implies (
    #[trigger] s.outgoing_pub[id] matches Some(p) ==> s.publications().contains(p)) by {
        if s.outgoing_pub[id] is Some {
            let j = if id >= k {
                id - k
            } else {
                id - k + n
            };
            assert(around[j] == s.outgoing_pub[id]);
            somes_contains(around, j);
        }
    }
}

proof fn releases_ascend(s: StateModel)
    requires
        s.wf(),
    ensures
        forall|i: int|
            0 <= i < s.releases().len() ==> (#[trigger] s.releases()[i]) <= s.max_inflight
                && s.outgoing_rel[s.releases()[i] as int],
        forall|i: int, j: int|
            0 <= i < j < s.releases().len() ==> (#[trigger] s.releases()[i]) < (
            #[trigger] s.releases()[j]),
        forall|id: int|
            0 <= id <= s.max_inflight && #[trigger] s.outgoing_rel[id] ==> s.releases().contains(
                id as u16,
            ),
{
    positions_ascend(s.outgoing_rel);
    let p = positions(s.outgoing_rel);
    assert forall|i: int, j: int| 0 <= i < j < s.releases().len() implies (
    #[trigger] s.releases()[i]) < (#[trigger] s.releases()[j]) by {
        assert(p[i] < p[j] < s.outgoing_rel.len());
    }
    assert forall|id: int| 0 <= id <= s.max_inflight && #[trigger] s.outgoing_rel[id] implies
        s.releases().contains(id as u16) by {
        let k = p.index_of(id as usize);
        assert(s.releases()[k] == id as u16);
    }
}

/// What a clean start hands back are the publications that are kept, as they are, each once and in
/// turn; then the releases that are kept, each once and ascending; and nothing else.
pub proof fn handed_back_is_what_was_kept(s: StateModel)
    requires
        s.wf(),
    ensures
        ({
            let r = s.pending_requests();
            &&& forall|i: int|
                0 <= i < r.len() ==> match #[trigger] r[i] {
                    RequestModel::Publish(p) => p.pkid <= s.max_inflight
                        && s.outgoing_pub[p.pkid as int] == Some(p),
                    RequestModel::PubRel(p) => p.pkid <= s.max_inflight
                        && s.outgoing_rel[p.pkid as int],
                    _ => false,
                }
            &&& forall|i: int, j: int|
                0 <= i < j < r.len() ==> match (#[trigger] r[i], #[trigger] r[j]) {
                    (RequestModel::Publish(p), RequestModel::Publish(q)) => turn(s, p.pkid) < turn(
                        s,
                        q.pkid,
                    ),
                    (RequestModel::PubRel(p), RequestModel::PubRel(q)) => p.pkid < q.pkid,
                    (RequestModel::Publish(p), RequestModel::PubRel(q)) => true,
                    _ => false,
                }
            &&& forall|id: int|
                0 <= id <= s.max_inflight ==> (#[trigger] s.outgoing_pub[id] matches Some(p)
                    ==> r.contains(RequestModel::Publish(p)))
            &&& forall|id: int|
                0 <= id <= s.max_inflight && #[trigger] s.outgoing_rel[id] ==> r.contains(
                    RequestModel::PubRel(PubRel { pkid: id as u16 }),
                )
        }),
{
    publications_are_in_turn(s);
    releases_ascend(s);
    let r = s.pending_requests();
    let n = s.publications().len() as int;
    assert forall|id: int| 0 <= id <= s.max_inflight implies (
    #[trigger] s.outgoing_pub[id] matches Some(p) ==> r.contains(RequestModel::Publish(p))) by {
        if let Some(p) = s.outgoing_pub[id] {
            let k = s.publications().index_of(p);
            assert(r[k] == RequestModel::Publish(p));
        }
    }
    assert forall|id: int| 0 <= id <= s.max_inflight && #[trigger] s.outgoing_rel[id] implies
        r.contains(RequestModel::PubRel(PubRel { pkid: id as u16 })) by {
        let k = s.releases().index_of(id as u16);
        assert(r[n + k] == RequestModel::PubRel(PubRel { pkid: id as u16 }));
    }
}

/// What is sent again are the publications that are kept, marked as repeated and otherwise as they
/// are, each once and in turn; then the releases that are kept, each once and ascending; and
/// nothing else.
pub proof fn sent_again_is_what_was_kept(s: StateModel)
    requires
        s.wf(),
    ensures
        ({
            let r = s.retransmissions();
            &&& forall|i: int|
                0 <= i < r.len() ==> match #[trigger] r[i] {
                    PacketModel::Publish(p) => p.pkid <= s.max_inflight && p.dup && (
                    s.outgoing_pub[p.pkid as int] matches Some(q) && p.qos == q.qos && p.retain
                        == q.retain && p.topic == q.topic && p.payload == q.payload),
                    PacketModel::PubRel(p) => p.pkid <= s.max_inflight
                        && s.outgoing_rel[p.pkid as int],
                    _ => false,
                }
            &&& forall|i: int, j: int|
                0 <= i < j < r.len() ==> match (#[trigger] r[i], #[trigger] r[j]) {
                    (PacketModel::Publish(p), PacketModel::Publish(q)) => turn(s, p.pkid) < turn(
                        s,
                        q.pkid,
                    ),
                    (PacketModel::PubRel(p), PacketModel::PubRel(q)) => p.pkid < q.pkid,
                    (PacketModel::Publish(p), PacketModel::PubRel(q)) => true,
                    _ => false,
                }
            &&& forall|id: int|
                0 <= id <= s.max_inflight && (#[trigger] s.outgoing_pub[id]) is Some
                    ==> exists|i: int|
                    0 <= i < r.len() && (#[trigger] r[i] matches PacketModel::Publish(p) && p.pkid
                        == id)
            &&& forall|id: int|
                0 <= id <= s.max_inflight && #[trigger] s.outgoing_rel[id] ==> r.contains(
                    PacketModel::PubRel(PubRel { pkid: id as u16 }),
                )
        }),
{
    publications_are_in_turn(s);
    releases_ascend(s);
    let r = s.retransmissions();
    let n = s.publications().len() as int;
    assert forall|id: int|
        0 <= id <= s.max_inflight && (#[trigger] s.outgoing_pub[id]) is Some implies exists|i: int|
        0 <= i < r.len() && (#[trigger] r[i] matches PacketModel::Publish(p) && p.pkid == id) by {
        let p = s.outgoing_pub[id]->0;
        let k = s.publications().index_of(p);
        assert(r[k] is Publish);
    }
    assert forall|id: int| 0 <= id <= s.max_inflight && #[trigger] s.outgoing_rel[id] implies
        r.contains(PacketModel::PubRel(PubRel { pkid: id as u16 })) by {
        let k = s.releases().index_of(id as u16);
        assert(r[n + k] == PacketModel::PubRel(PubRel { pkid: id as u16 }));
    }
}

/// What is reported as interrupted are the identifiers of subscriptions, ascending, then those of
/// their removals, ascending; each once, and no others.
pub proof fn interrupted_is_what_was_asked(s: StateModel)
    requires
        s.wf(),
    ensures
        ({
            let r = s.interrupted();
            &&& forall|i: int|
                0 <= i < r.len() ==> (#[trigger] r[i]) <= s.max_inflight && (
                s.outgoing_sub.contains_key(r[i]) || s.outgoing_unsub[r[i] as int])
            &&& forall|i: int, j: int|
                0 <= i < j < r.len() ==> {
                    let a = #[trigger] r[i];
                    let b = #[trigger] r[j];
                    if s.outgoing_sub.contains_key(a) == s.outgoing_sub.contains_key(b) {
                        a < b
                    } else {
                        s.outgoing_sub.contains_key(a)
                    }
                }
            &&& forall|id: u16| #[trigger] s.outgoing_sub.contains_key(id) ==> r.contains(id)
            &&& forall|id: int|
                0 <= id <= s.max_inflight && #[trigger] s.outgoing_unsub[id] ==> r.contains(
                    id as u16,
                )
        }),
{
    let n = s.outgoing_pub.len();
    let marks = Seq::new(n, |i: int| s.outgoing_sub.contains_key(i as u16));
    positions_ascend(marks);
    positions_ascend(s.outgoing_unsub);
    let a = subscribed(s.outgoing_sub, n);
    let p = positions(marks);
    let q = positions(s.outgoing_unsub);
    let r = s.interrupted();
    assert forall|i: int| 0 <= i < a.len() implies (#[trigger] r[i]) <= s.max_inflight
        && s.outgoing_sub.contains_key(r[i]) && r[i] == p[i] by {
        assert(p[i] < n);
        assert(marks[p[i] as int]);
    }
    assert forall|i: int| a.len() <= i < r.len() implies (#[trigger] r[i]) <= s.max_inflight
        && s.outgoing_unsub[r[i] as int] && r[i] == q[i - a.len()] by {
        assert(q[i - a.len()] < n);
    }
    assert forall|id: u16| #[trigger] s.outgoing_sub.contains_key(id) implies r.contains(id) by {
        assert(marks[id as int]);
        let k = p.index_of(id as usize);
        assert(r[k] == id);
    }
    assert forall|id: int| 0 <= id <= s.max_inflight && #[trigger] s.outgoing_unsub[id] implies
        r.contains(id as u16) by {
        let k = q.index_of(id as usize);
        assert(r[a.len() + k] == id as u16);
    }
}

/// A clean start forgets every exchange, in both directions, and nothing else: the publication that
/// waits for an identifier, the reports and the place where identifiers go on stay.
pub proof fn clean_start_forgets_exchanges(s: StateModel)
    requires
        s.wf(),
    ensures
        ({
            let t = s.cleaned();
            &&& forall|id: int|
                0 <= id <= s.max_inflight ==> (#[trigger] t.outgoing_pub[id]) is None
            &&& forall|id: int| 0 <= id <= s.max_inflight ==> !(#[trigger] t.outgoing_rel[id])
            &&& forall|id: int| 0 <= id <= s.max_inflight ==> !(#[trigger] t.outgoing_unsub[id])
            &&& forall|id: u16| !(#[trigger] t.outgoing_sub.contains_key(id))
            &&& forall|id: u16| !(#[trigger] t.transmission_flags.contains_key(id))
            &&& forall|id: int| 0 <= id < 65536 ==> !(#[trigger] t.incoming_pub[id])
            &&& forall|id: int| 0 <= id < 65536 ==> !(#[trigger] t.incoming_ack[id])
            &&& forall|id: int| 0 <= id < 65536 ==> !(#[trigger] t.incoming_rec[id])
            &&& t.inflight == 0
            &&& !t.await_pingresp
            &&& t.collision_ping_count == 0
            &&& t.max_inflight == s.max_inflight
            &&& t.last_pkid == s.last_pkid
            &&& t.last_puback == s.last_puback
            &&& t.collision == s.collision
            &&& t.events == s.events
            &&& t.manual_acks == s.manual_acks
        }),
{
}

/// A new connection of the same session keeps every exchange but the subscriptions, their removals
/// and the publications that never entered the writer; nothing is awaited or reported any more.
pub proof fn resumption_keeps_exchanges(s: StateModel, unsent: Set<u16>)
    requires
        s.wf(),
    ensures
        ({
            let t = s.resumed(unsent);
            &&& forall|id: int|
                0 <= id <= s.max_inflight ==> (#[trigger] t.outgoing_pub[id]) == if unsent.contains(
                    id as u16,
                ) {
                    None
                } else {
                    s.outgoing_pub[id]
                }
            &&& t.outgoing_rel == s.outgoing_rel
            &&& t.incoming_pub == s.incoming_pub
            &&& t.incoming_ack == s.incoming_ack
            &&& t.incoming_rec == s.incoming_rec
            &&& t.max_inflight == s.max_inflight
            &&& t.last_pkid == s.last_pkid
            &&& t.last_puback == s.last_puback
            &&& t.collision == s.collision
            &&& t.manual_acks == s.manual_acks
            &&& !t.await_pingresp
            &&& t.collision_ping_count == 0
            &&& t.events.len() == 0
            &&& forall|id: u16| !(#[trigger] t.outgoing_sub.contains_key(id))
            &&& forall|id: int| 0 <= id <= s.max_inflight ==> !(#[trigger] t.outgoing_unsub[id])
            &&& forall|id: u16| #[trigger]
                t.transmission_flags.contains_key(id) <==> (s.transmission_flags.contains_key(id)
                    && !unsent.contains(id) && id <= s.max_inflight && s.outgoing_pub[id as int]
                    is Some)
            &&& forall|id: u16| #[trigger]
                t.transmission_flags.contains_key(id) ==> t.transmission_flags[id]
                    == s.transmission_flags[id]
        }),
{
}

/// A new state has no exchange, waits for nothing and has nothing to report. Identifiers go from 1
/// up to the limit.
pub proof fn new_state_is_empty(max_inflight: u16, manual_acks: bool)
    ensures
        ({
            let t = StateModel::initial(max_inflight, manual_acks);
            &&& t.max_inflight == max_inflight
            &&& t.manual_acks == manual_acks
            &&& forall|id: int|
                1 <= id <= max_inflight ==> (#[trigger] unused(t, id))
            &&& max_inflight > 0 ==> nearest(t, 1)
            &&& forall|id: int|
                0 <= id < 65536 ==> !(#[trigger] t.incoming_pub[id]) && !t.incoming_ack[id]
                    && !t.incoming_rec[id]
            &&& t.incoming_pub.len() == 65536
            &&& t.outgoing_pub.len() == max_inflight + 1
            &&& t.last_puback == 0
            &&& t.inflight == 0
            &&& t.collision is None
            &&& t.collision_ping_count == 0
            &&& !t.await_pingresp
            &&& t.events.len() == 0
            &&& t.transmission_flags.dom().is_empty()
        }),
{
}

/// Acknowledgements remain outstanding exactly while some identifier is in use.
pub proof fn pending_while_an_identifier_is_used(s: StateModel)
    requires
        s.wf(),
    ensures
        s.pending() <==> exists|id: int| 1 <= id <= s.max_inflight && !(#[trigger] unused(s, id)),
{
    none_is_counted(s.busy());
    none_is_counted(s.outgoing_unsub);
    if s.inflight != 0 {
        let id = choose|i: int| 0 <= i < s.busy().len() && #[trigger] s.busy()[i];
        assert(!unused(s, id));
    } else if !s.outgoing_sub.is_empty() {
        let id = choose|id: u16| #[trigger] s.outgoing_sub.contains_key(id);
        assert(s.outgoing_sub.contains_key(id));
        assert(!unused(s, id as int));
    } else if count(s.outgoing_unsub) != 0 {
        let id = choose|i: int| 0 <= i < s.outgoing_unsub.len() && #[trigger] s.outgoing_unsub[i];
        assert(!unused(s, id));
    } else {
        assert forall|id: int| 1 <= id <= s.max_inflight implies #[trigger] unused(s, id) by {
            assert(!s.busy()[id]);
            assert(!s.outgoing_unsub[id]);
            assert(!s.outgoing_sub.contains_key(id as u16));
        }
    }
}

/// Each identifier of an incoming publication that is not settled counts once.
pub proof fn incoming_exchange_is_counted(s: StateModel, t: StateModel, id: u16)
    requires
        s.wf(),
        t.wf(),
        forall|i: int|
            0 <= i < 65536 && i != id ==> (#[trigger] t.incoming_ack[i]) == s.incoming_ack[i],
        forall|i: int|
            0 <= i < 65536 && i != id ==> (#[trigger] t.incoming_pub[i]) == s.incoming_pub[i],
    ensures
        t.incoming_inflight() - s.incoming_inflight() == (if t.incoming_ack[id as int]
            || t.incoming_pub[id as int] {
            1int
        } else {
            0
        }) - (if s.incoming_ack[id as int] || s.incoming_pub[id as int] {
            1int
        } else {
            0
        }),
        StateModel::initial(s.max_inflight, s.manual_acks).incoming_inflight() == 0,
{
    let i = id as int;
    assert(t.incoming_ack =~= s.incoming_ack.update(i, t.incoming_ack[i]));
    assert(t.incoming_pub =~= s.incoming_pub.update(i, t.incoming_pub[i]));
    count_update(s.incoming_ack, i, t.incoming_ack[i]);
    count_update(s.incoming_pub, i, t.incoming_pub[i]);
    count_clear(StateModel::initial(s.max_inflight, s.manual_acks).incoming_ack);
    count_clear(StateModel::initial(s.max_inflight, s.manual_acks).incoming_pub);
}

// Values -------------------------------------------------------------------------------------

/// A publication shows its fields as they are; packets, requests and events show what they hold.
pub proof fn values_show_what_they_hold(
    publish: Publish,
    packet: Packet,
    request: Request,
    event: Event,
)
    ensures
        publish@.dup == publish.dup,
        publish@.qos == publish.qos,
        publish@.retain == publish.retain,
        publish@.topic == publish.topic@,
        publish@.pkid == publish.pkid,
        publish@.payload == octets(publish.payload),
        packet matches Packet::Connect(p) ==> packet@ == PacketModel::Connect(p),
        packet matches Packet::ConnAck(p) ==> packet@ == PacketModel::ConnAck(p),
        packet matches Packet::PubAck(p) ==> packet@ == PacketModel::PubAck(p),
        packet matches Packet::PubRec(p) ==> packet@ == PacketModel::PubRec(p),
        packet matches Packet::PubRel(p) ==> packet@ == PacketModel::PubRel(p),
        packet matches Packet::PubComp(p) ==> packet@ == PacketModel::PubComp(p),
        packet matches Packet::Subscribe(p) ==> packet@ == PacketModel::Subscribe(p),
        packet matches Packet::SubAck(p) ==> packet@ == PacketModel::SubAck(p),
        packet matches Packet::Unsubscribe(p) ==> packet@ == PacketModel::Unsubscribe(p),
        packet matches Packet::UnsubAck(p) ==> packet@ == PacketModel::UnsubAck(p),
        packet matches Packet::Publish(p) ==> packet@ == PacketModel::Publish(p@),
        packet is PingReq ==> packet@ is PingReq,
        packet is PingResp ==> packet@ is PingResp,
        packet is Disconnect ==> packet@ is Disconnect,
        request matches Request::PubAck(p) ==> request@ == RequestModel::PubAck(p),
        request matches Request::PubRec(p) ==> request@ == RequestModel::PubRec(p),
        request matches Request::PubComp(p) ==> request@ == RequestModel::PubComp(p),
        request matches Request::PubRel(p) ==> request@ == RequestModel::PubRel(p),
        request matches Request::Subscribe(p) ==> request@ == RequestModel::Subscribe(p),
        request matches Request::SubAck(p) ==> request@ == RequestModel::SubAck(p),
        request matches Request::Unsubscribe(p) ==> request@ == RequestModel::Unsubscribe(p),
        request matches Request::UnsubAck(p) ==> request@ == RequestModel::UnsubAck(p),
        request matches Request::Publish(p) ==> request@ == RequestModel::Publish(p@),
        request is PingReq ==> request@ is PingReq,
        request is PingResp ==> request@ is PingResp,
        request is Disconnect ==> request@ is Disconnect,
        event matches Event::Incoming(p) ==> event@ == EventModel::Incoming(p@),
        event matches Event::Outgoing(o) ==> event@ == EventModel::Outgoing(o),
{
}

/// A state shows its fields as they are.
pub proof fn state_shows_its_fields(state: MqttState)
    ensures
        state@.await_pingresp == state.await_pingresp,
        state@.collision_ping_count == state.collision_ping_count,
        state@.last_pkid == state.last_pkid,
        state@.last_puback == state.last_puback,
        state@.inflight == state.inflight,
        state@.max_inflight == state.max_inflight,
        state@.manual_acks == state.manual_acks,
        state@.outgoing_rel == bits(state.outgoing_rel),
        state@.incoming_pub == bits(state.incoming_pub),
        state@.outgoing_pub.len() == state.outgoing_pub@.len(),
        forall|i: int|
            0 <= i < state.outgoing_pub@.len() ==> ((#[trigger] state@.outgoing_pub[i]) is Some
                <==> state.outgoing_pub@[i] is Some),
        forall|i: int|
            0 <= i < state.outgoing_pub@.len() && state.outgoing_pub@[i] is Some ==> (
            #[trigger] state@.outgoing_pub[i])->0 == state.outgoing_pub@[i]->0@,
        state@.collision is Some <==> state.collision is Some,
        state.collision is Some ==> state@.collision->0 == state.collision->0@,
        state@.events.len() == state.events@.len(),
        forall|i: int|
            0 <= i < state.events@.len() ==> (#[trigger] state@.events[i]) == state.events@[i]@,
{
}

/// An outcome shows the packet or the error that is returned.
pub proof fn outcome_shows_what_is_returned(r: Result<Option<Packet>, StateError>)
    ensures
        outcome(r) is Ok <==> r is Ok,
        r is Err ==> outcome(r) == Err::<Option<PacketModel>, StateError>(r->Err_0),
        r matches Ok(None) ==> outcome(r) == Ok::<Option<PacketModel>, StateError>(None),
        r matches Ok(Some(p)) ==> outcome(r) == Ok::<Option<PacketModel>, StateError>(Some(p@)),
{
}

/// A flag is kept for the identifier that it is given for, and nothing else changes.
pub proof fn flag_is_kept(s: StateModel, id: u16, flag: Arc<AtomicBool>, other: u16)
    ensures
        ({
            let t = s.flagged(id, flag);
            &&& t.transmission_flags.contains_key(id) && t.transmission_flags[id] == flag
            &&& other != id ==> (t.transmission_flags.contains_key(other)
                <==> s.transmission_flags.contains_key(other))
            &&& other != id && s.transmission_flags.contains_key(other)
                ==> t.transmission_flags[other] == s.transmission_flags[other]
            &&& t == (StateModel { transmission_flags: t.transmission_flags, ..s })
        }),
{
}

} // verus!
