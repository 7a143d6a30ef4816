//! The properties of each packet: which field has which identifier, and in which order they are
//! written unless another one is asked for.
use bytes::Bytes;
use vstd::prelude::*;

use super::auth::AuthProperties;
use super::connack::ConnAckProperties;
use super::connect::{ConnectProperties, LastWillProperties};
use super::disconnect::DisconnectProperties;
use super::property::{joined, joined_push, Entry, Value};
use super::puback::PubAckProperties;
use super::pubcomp::PubCompProperties;
use super::publish::{PublishProperties, PublishPropertiesModel};
use super::pubrec::PubRecProperties;
use super::pubrel::PubRelProperties;
use super::suback::SubAckProperties;
use super::subscribe::SubscribeProperties;
use super::unsuback::UnsubAckProperties;
use super::unsubscribe::UnsubscribeProperties;
use crate::octets::octets;

verus! {

/// A property that is there or not.
pub open spec fn perhaps(there: bool, e: Entry) -> Seq<Entry> {
    if there {
        seq![e]
    } else {
        Seq::empty()
    }
}

pub open spec fn a_byte(id: u8, v: Option<u8>) -> Seq<Entry> {
    perhaps(v is Some, (id, Value::Byte(v->0)))
}

pub open spec fn a_short(id: u8, v: Option<u16>) -> Seq<Entry> {
    perhaps(v is Some, (id, Value::Short(v->0)))
}

pub open spec fn an_integer(id: u8, v: Option<u32>) -> Seq<Entry> {
    perhaps(v is Some, (id, Value::Integer(v->0)))
}

pub open spec fn a_length(id: u8, v: Option<usize>) -> Seq<Entry> {
    perhaps(v is Some, (id, Value::Variable(v->0)))
}

pub open spec fn a_text(id: u8, v: Option<String>) -> Seq<Entry> {
    perhaps(v is Some, (id, Value::Text(v->0@)))
}

pub open spec fn data(id: u8, v: Option<Bytes>) -> Seq<Entry> {
    perhaps(v is Some, (id, Value::Binary(octets(v->0))))
}

/// User properties, in order.
pub open spec fn users(v: Seq<(String, String)>) -> Seq<Entry> {
    Seq::new(v.len(), |i: int| (0x26u8, Value::Pair(v[i].0@, v[i].1@)))
}

/// The properties of an answer to a connection stand for their entries, in this order.
pub proof fn connack_properties_are_listed(p: ConnAckProperties)
    ensures
        p@ == an_integer(0x11, p.session_expiry_interval)
            + a_short(0x21, p.receive_max)
            + a_byte(0x24, p.max_qos)
            + a_byte(0x25, p.retain_available)
            + an_integer(0x27, p.max_packet_size)
            + a_text(0x12, p.assigned_client_identifier)
            + a_short(0x22, p.topic_alias_max)
            + a_text(0x1F, p.reason_string)
            + users(p.user_properties@)
            + a_byte(0x28, p.wildcard_subscription_available)
            + a_byte(0x29, p.subscription_identifiers_available)
            + a_byte(0x2A, p.shared_subscription_available)
            + a_short(0x13, p.server_keep_alive)
            + a_text(0x1A, p.response_information)
            + a_text(0x1C, p.server_reference)
            + a_text(0x15, p.authentication_method)
            + data(0x16, p.authentication_data),
{
    assert(users(p.user_properties@) =~= super::property::pairs(p.user_properties@));
    joined_in_turn(
        an_integer(0x11, p.session_expiry_interval),
        a_short(0x21, p.receive_max),
        a_byte(0x24, p.max_qos),
        a_byte(0x25, p.retain_available),
        an_integer(0x27, p.max_packet_size),
        a_text(0x12, p.assigned_client_identifier),
        a_short(0x22, p.topic_alias_max),
        a_text(0x1F, p.reason_string),
        users(p.user_properties@),
        a_byte(0x28, p.wildcard_subscription_available),
        a_byte(0x29, p.subscription_identifiers_available),
        a_byte(0x2A, p.shared_subscription_available),
        a_short(0x13, p.server_keep_alive),
        a_text(0x1A, p.response_information),
        a_text(0x1C, p.server_reference),
        a_text(0x15, p.authentication_method),
        data(0x16, p.authentication_data),
    );
}

proof fn joined_in_turn(
    a: Seq<Entry>,
    b: Seq<Entry>,
    c: Seq<Entry>,
    d: Seq<Entry>,
    e: Seq<Entry>,
    f: Seq<Entry>,
    g: Seq<Entry>,
    h: Seq<Entry>,
    i: Seq<Entry>,
    j: Seq<Entry>,
    k: Seq<Entry>,
    l: Seq<Entry>,
    m: Seq<Entry>,
    n: Seq<Entry>,
    o: Seq<Entry>,
    q: Seq<Entry>,
    r: Seq<Entry>,
)
    ensures
        joined(Seq::empty().push(a).push(b).push(c).push(d).push(e).push(f).push(g).push(h)
            .push(i).push(j).push(k).push(l).push(m).push(n).push(o).push(q).push(r)) == a + b
                + c + d + e + f + g + h + i + j + k + l + m + n + o + q + r,
{
    let none = Seq::<Seq<Entry>>::empty();
    super::property::joined_empty(none);
    let to_a = none.push(a);
    joined_push(none, a);
    let to_b = to_a.push(b);
    joined_push(to_a, b);
    let to_c = to_b.push(c);
    joined_push(to_b, c);
    let to_d = to_c.push(d);
    joined_push(to_c, d);
    let to_e = to_d.push(e);
    joined_push(to_d, e);
    let to_f = to_e.push(f);
    joined_push(to_e, f);
    let to_g = to_f.push(g);
    joined_push(to_f, g);
    let to_h = to_g.push(h);
    joined_push(to_g, h);
    let to_i = to_h.push(i);
    joined_push(to_h, i);
    let to_j = to_i.push(j);
    joined_push(to_i, j);
    let to_k = to_j.push(k);
    joined_push(to_j, k);
    let to_l = to_k.push(l);
    joined_push(to_k, l);
    let to_m = to_l.push(m);
    joined_push(to_l, m);
    let to_n = to_m.push(n);
    joined_push(to_m, n);
    let to_o = to_n.push(o);
    joined_push(to_n, o);
    let to_q = to_o.push(q);
    joined_push(to_o, q);
    let to_r = to_q.push(r);
    joined_push(to_q, r);
    assert(joined(to_a) =~= a);
}

/// The properties of a connection stand for their entries, in this order.
pub proof fn connect_properties_are_listed(p: ConnectProperties)
    ensures
        p@ == an_integer(0x11, p.session_expiry_interval)
            + a_short(0x21, p.receive_maximum)
            + an_integer(0x27, p.max_packet_size)
            + a_short(0x22, p.topic_alias_max)
            + a_byte(0x19, p.request_response_info)
            + a_byte(0x17, p.request_problem_info)
            + users(p.user_properties@)
            + a_text(0x15, p.authentication_method)
            + data(0x16, p.authentication_data),
{
    broadcast use super::property::joined_push, super::property::joined_empty;

    let listed = an_integer(0x11, p.session_expiry_interval)
            + a_short(0x21, p.receive_maximum)
            + an_integer(0x27, p.max_packet_size)
            + a_short(0x22, p.topic_alias_max)
            + a_byte(0x19, p.request_response_info)
            + a_byte(0x17, p.request_problem_info)
            + users(p.user_properties@)
            + a_text(0x15, p.authentication_method)
            + data(0x16, p.authentication_data);
    assert(users(p.user_properties@) =~= super::property::pairs(p.user_properties@));
    assert(joined(p.fields()) =~= listed);
}

/// The properties of a will stand for their entries, in this order.
pub proof fn last_will_properties_are_listed(p: LastWillProperties)
    ensures
        p@ == an_integer(0x18, p.delay_interval)
            + a_byte(0x01, p.payload_format_indicator)
            + an_integer(0x02, p.message_expiry_interval)
            + a_text(0x03, p.content_type)
            + a_text(0x08, p.response_topic)
            + data(0x09, p.correlation_data)
            + users(p.user_properties@),
{
    broadcast use super::property::joined_push, super::property::joined_empty;

    let listed = an_integer(0x18, p.delay_interval)
            + a_byte(0x01, p.payload_format_indicator)
            + an_integer(0x02, p.message_expiry_interval)
            + a_text(0x03, p.content_type)
            + a_text(0x08, p.response_topic)
            + data(0x09, p.correlation_data)
            + users(p.user_properties@);
    assert(users(p.user_properties@) =~= super::property::pairs(p.user_properties@));
    assert(joined(p.fields()) =~= listed);
}

/// The properties of an acknowledgement stand for their entries, in this order.
pub proof fn puback_properties_are_listed(p: PubAckProperties)
    ensures
        p@ == a_text(0x1F, p.reason_string)
            + users(p.user_properties@),
{
    broadcast use super::property::joined_push, super::property::joined_empty;

    let listed = a_text(0x1F, p.reason_string)
            + users(p.user_properties@);
    assert(users(p.user_properties@) =~= super::property::pairs(p.user_properties@));
    assert(joined(p.fields()) =~= listed);
}

/// The properties of a receipt stand for their entries, in this order.
pub proof fn pubrec_properties_are_listed(p: PubRecProperties)
    ensures
        p@ == a_text(0x1F, p.reason_string)
            + users(p.user_properties@),
{
    broadcast use super::property::joined_push, super::property::joined_empty;

    let listed = a_text(0x1F, p.reason_string)
            + users(p.user_properties@);
    assert(users(p.user_properties@) =~= super::property::pairs(p.user_properties@));
    assert(joined(p.fields()) =~= listed);
}

/// The properties of a release stand for their entries, in this order.
pub proof fn pubrel_properties_are_listed(p: PubRelProperties)
    ensures
        p@ == a_text(0x1F, p.reason_string)
            + users(p.user_properties@),
{
    broadcast use super::property::joined_push, super::property::joined_empty;

    let listed = a_text(0x1F, p.reason_string)
            + users(p.user_properties@);
    assert(users(p.user_properties@) =~= super::property::pairs(p.user_properties@));
    assert(joined(p.fields()) =~= listed);
}

/// The properties of a confirmation stand for their entries, in this order.
pub proof fn pubcomp_properties_are_listed(p: PubCompProperties)
    ensures
        p@ == a_text(0x1F, p.reason_string)
            + users(p.user_properties@),
{
    broadcast use super::property::joined_push, super::property::joined_empty;

    let listed = a_text(0x1F, p.reason_string)
            + users(p.user_properties@);
    assert(users(p.user_properties@) =~= super::property::pairs(p.user_properties@));
    assert(joined(p.fields()) =~= listed);
}

/// The properties of an answer to a subscription stand for their entries, in this order.
pub proof fn suback_properties_are_listed(p: SubAckProperties)
    ensures
        p@ == a_text(0x1F, p.reason_string)
            + users(p.user_properties@),
{
    broadcast use super::property::joined_push, super::property::joined_empty;

    let listed = a_text(0x1F, p.reason_string)
            + users(p.user_properties@);
    assert(users(p.user_properties@) =~= super::property::pairs(p.user_properties@));
    assert(joined(p.fields()) =~= listed);
}

/// The properties of an answer to the removal of subscriptions stand for their entries, in this
/// order.
pub proof fn unsuback_properties_are_listed(p: UnsubAckProperties)
    ensures
        p@ == a_text(0x1F, p.reason_string)
            + users(p.user_properties@),
{
    broadcast use super::property::joined_push, super::property::joined_empty;

    let listed = a_text(0x1F, p.reason_string)
            + users(p.user_properties@);
    assert(users(p.user_properties@) =~= super::property::pairs(p.user_properties@));
    assert(joined(p.fields()) =~= listed);
}

/// The properties of a subscription stand for their entries, in this order.
pub proof fn subscribe_properties_are_listed(p: SubscribeProperties)
    ensures
        p@ == a_length(0x0B, p.id)
            + users(p.user_properties@),
{
    broadcast use super::property::joined_push, super::property::joined_empty;

    let listed = a_length(0x0B, p.id)
            + users(p.user_properties@);
    assert(users(p.user_properties@) =~= super::property::pairs(p.user_properties@));
    assert(joined(p.fields()) =~= listed);
}

/// The properties of the removal of subscriptions stand for their entries, in this order.
pub proof fn unsubscribe_properties_are_listed(p: UnsubscribeProperties)
    ensures
        p@ == users(p.user_properties@),
{
    broadcast use super::property::joined_push, super::property::joined_empty;

    let listed = users(p.user_properties@);
    assert(users(p.user_properties@) =~= super::property::pairs(p.user_properties@));
    assert(joined(p.fields()) =~= listed);
}

/// The properties of the end of a connection stand for their entries, in this order.
pub proof fn disconnect_properties_are_listed(p: DisconnectProperties)
    ensures
        p@ == an_integer(0x11, p.session_expiry_interval)
            + a_text(0x1F, p.reason_string)
            + users(p.user_properties@)
            + a_text(0x1C, p.server_reference),
{
    broadcast use super::property::joined_push, super::property::joined_empty;

    let listed = an_integer(0x11, p.session_expiry_interval)
            + a_text(0x1F, p.reason_string)
            + users(p.user_properties@)
            + a_text(0x1C, p.server_reference);
    assert(users(p.user_properties@) =~= super::property::pairs(p.user_properties@));
    assert(joined(p.fields()) =~= listed);
}

/// The properties of an authentication stand for their entries, in this order.
pub proof fn auth_properties_are_listed(p: AuthProperties)
    ensures
        p@ == a_text(0x15, p.method)
            + data(0x16, p.data)
            + a_text(0x1F, p.reason)
            + users(p.user_properties@),
{
    broadcast use super::property::joined_push, super::property::joined_empty;

    let listed = a_text(0x15, p.method)
            + data(0x16, p.data)
            + a_text(0x1F, p.reason)
            + users(p.user_properties@);
    assert(users(p.user_properties@) =~= super::property::pairs(p.user_properties@));
    assert(joined(p.fields()) =~= listed);
}

/// The properties of a publication stand for their entries, in this order.
pub proof fn publish_properties_are_listed(p: PublishProperties, m: PublishPropertiesModel)
    ensures
        m.entries() == perhaps(
            m.payload_format_indicator is Some,
            (0x01u8, Value::Byte(m.payload_format_indicator->0)),
        ) + perhaps(
            m.message_expiry_interval is Some,
            (0x02u8, Value::Integer(m.message_expiry_interval->0)),
        ) + perhaps(m.topic_alias is Some, (0x23u8, Value::Short(m.topic_alias->0))) + perhaps(
            m.response_topic is Some,
            (0x08u8, Value::Text(m.response_topic->0)),
        ) + perhaps(
            m.correlation_data is Some,
            (0x09u8, Value::Binary(m.correlation_data->0)),
        ) + Seq::new(
            m.user_properties.len(),
            |i: int| (0x26u8, Value::Pair(m.user_properties[i].0, m.user_properties[i].1)),
        ) + Seq::new(
            m.subscription_identifiers.len(),
            |i: int| (0x0Bu8, Value::Variable(m.subscription_identifiers[i])),
        ) + perhaps(m.content_type is Some, (0x03u8, Value::Text(m.content_type->0))),
        p@.payload_format_indicator == p.payload_format_indicator,
        p@.message_expiry_interval == p.message_expiry_interval,
        p@.topic_alias == p.topic_alias,
        p@.response_topic is Some <==> p.response_topic is Some,
        p.response_topic is Some ==> p@.response_topic->0 == p.response_topic->0@,
        p@.correlation_data is Some <==> p.correlation_data is Some,
        p.correlation_data is Some ==> p@.correlation_data->0 == octets(p.correlation_data->0),
        p@.content_type is Some <==> p.content_type is Some,
        p.content_type is Some ==> p@.content_type->0 == p.content_type->0@,
        p@.subscription_identifiers == p.subscription_identifiers@,
        p@.user_properties.len() == p.user_properties@.len(),
        forall|i: int|
            0 <= i < p.user_properties@.len() ==> (#[trigger] p@.user_properties[i]) == (
                p.user_properties@[i].0@,
                p.user_properties@[i].1@,
            ),
{
    broadcast use super::property::joined_push, super::property::joined_empty;

    let pairs = Seq::new(
        m.user_properties.len(),
        |i: int| (0x26u8, Value::Pair(m.user_properties[i].0, m.user_properties[i].1)),
    );
    let identifiers = Seq::new(
        m.subscription_identifiers.len(),
        |i: int| (0x0Bu8, Value::Variable(m.subscription_identifiers[i])),
    );
    assert(pairs =~= super::property::pairs_of(m.user_properties));
    assert(identifiers =~= super::property::variables(11, m.subscription_identifiers));
    assert(joined(m.fields()) =~= perhaps(
        m.payload_format_indicator is Some,
        (0x01u8, Value::Byte(m.payload_format_indicator->0)),
    ) + perhaps(
        m.message_expiry_interval is Some,
        (0x02u8, Value::Integer(m.message_expiry_interval->0)),
    ) + perhaps(m.topic_alias is Some, (0x23u8, Value::Short(m.topic_alias->0))) + perhaps(
        m.response_topic is Some,
        (0x08u8, Value::Text(m.response_topic->0)),
    ) + perhaps(m.correlation_data is Some, (0x09u8, Value::Binary(m.correlation_data->0))) + pairs
        + identifiers + perhaps(m.content_type is Some, (0x03u8, Value::Text(m.content_type->0))));
}

} // verus!
