use bytes::{Buf, Bytes, BytesMut};
use vstd::prelude::*;

use crate::octets::{buffered, has_room, octets, put_u8};
use crate::v5::mqttbytes::Error;
use super::frame::{emitted, emitted_fields, frame_len, FixedHeader};
use super::ordered::{
    listed, order_of, push_binary, push_pairs, push_text, write_properties, Property,
};
use super::property::{
    are_fields, binary, binary_len, canonical, canonical_opt, entries_fit, entries_len,
    entries_len_add, fields_are_valid, group_joined, ids, ids_opt, is_field, joined, next_property,
    noted_ids, pairs, pairs_len, pairs_push, parse_end, parse_entries, parse_step, pick, pick_empty,
    pick_push, picks, properties_len, property, section_ids, section_len, section_octets, table,
    take_properties, text, text_len, tracks, tracks_nothing, valid_entries, writable,
    writable_section, written, written_round_trip, Entry, Owner, PropertyType, Value,
};
use super::wire::{
    group_take_shrinks, len_len, read_mqtt_bytes, read_mqtt_string, read_properties_section,
    read_u8, varint, varint_len, write_remaining_length,
};

verus! {

/// Auth packet reason code
#[derive(Debug, Clone, Copy, PartialEq, Eq, Structural)]
pub enum AuthReasonCode {
    Success,
    Continue,
    ReAuthenticate,
}

impl AuthReasonCode {
    /// The number that stands for the code on the wire.
    pub open spec fn number(self) -> u8 {
        match self {
            AuthReasonCode::Success => 0x00,
            AuthReasonCode::Continue => 0x18,
            AuthReasonCode::ReAuthenticate => 0x19,
        }
    }

    /// The code that a number on the wire stands for.
    pub open spec fn of(num: u8) -> Option<AuthReasonCode> {
        if num == 0x00 {
            Some(AuthReasonCode::Success)
        } else if num == 0x18 {
            Some(AuthReasonCode::Continue)
        } else if num == 0x19 {
            Some(AuthReasonCode::ReAuthenticate)
        } else {
            None
        }
    }

    fn read(bytes: &mut Bytes) -> (r: Result<Self, Error>)
        ensures
            ({
                let s = octets(*old(bytes));
                if s.len() == 0 || AuthReasonCode::of(s[0]) is None {
                    r == Err::<Self, Error>(Error::MalformedPacket)
                } else {
                    r == Ok::<Self, Error>(AuthReasonCode::of(s[0])->0) && octets(*final(bytes))
                        == s.skip(1)
                }
            }),
    {
        let reason_code: u8 = match read_u8(bytes) {
            Ok(v) => v,
            Err(e) => return Err(e),
        };
        let code = match reason_code {
            0x00 => AuthReasonCode::Success,
            0x18 => AuthReasonCode::Continue,
            0x19 => AuthReasonCode::ReAuthenticate,
            _ => return Err(Error::MalformedPacket),
        };
        Ok(code)
    }

    fn write(&self, buffer: &mut BytesMut)
        requires
            has_room(*old(buffer), 1),
        ensures
            buffered(*final(buffer)) == buffered(*old(buffer)).push(self.number()),
    {
        let reason_code: u8 = match self {
            AuthReasonCode::Success => 0x00,
            AuthReasonCode::Continue => 0x18,
            AuthReasonCode::ReAuthenticate => 0x19,
        };
        put_u8(buffer, reason_code);
    }
}

/// Used to perform extended authentication exchange
#[derive(Debug, Clone, PartialEq, Eq)]
pub struct Auth {
    pub code: AuthReasonCode,
    pub properties: Option<AuthProperties>,
}

/// What an auth packet holds. The entries of the properties stand in the order of the wire, or
/// in the order of the typed fields.
#[verifier::ext_equal]
pub struct AuthModel {
    pub code: AuthReasonCode,
    pub properties: Option<Seq<Entry>>,
}

impl AuthModel {
    /// The length of the fields behind the fixed header.
    pub open spec fn len(self) -> nat {
        if self.code == AuthReasonCode::Success && self.properties is None {
            0
        } else {
            1 + properties_len(self.properties)
        }
    }

    /// The packet that the octets behind a fixed header spell.
    pub open spec fn decode(body: Seq<u8>) -> Result<AuthModel, Error> {
        if body.len() == 0 {
            Ok(AuthModel { code: AuthReasonCode::Success, properties: None })
        } else {
            match AuthReasonCode::of(body[0]) {
                None => Err(Error::MalformedPacket),
                Some(code) => if body.len() == 1 {
                    Ok(AuthModel { code, properties: None })
                } else {
                    match take_properties(Owner::Auth, body.skip(1)) {
                        (Err(e), _) => Err(e),
                        (Ok(properties), rest) => if rest.len() > 0 {
                            Err(Error::MalformedPacket)
                        } else {
                            Ok(AuthModel { code, properties })
                        },
                    }
                },
            }
        }
    }

    /// The identifiers of properties that a reader of the octets behind the fixed header has noted
    /// when it ends or stops.
    pub open spec fn noted(body: Seq<u8>) -> Seq<u8> {
        if body.len() < 2 || AuthReasonCode::of(body[0]) is None {
            Seq::empty()
        } else {
            section_ids(Owner::Auth, body.skip(1))
        }
    }

    /// What a writer of the packet returns and appends.
    pub open spec fn encode(self, order: Option<Seq<u8>>) -> (Result<usize, Error>, Seq<u8>) {
        if self.len() == 0 {
            (Ok(2), seq![0xF0u8, 0u8])
        } else {
            emitted(
                0xF0,
                self.len(),
                seq![self.code.number()],
                writable_section(self.properties, order),
                Seq::empty(),
            )
        }
    }

    /// The packet with the entries in the order of the typed fields.
    pub open spec fn canonical(self) -> AuthModel {
        AuthModel { code: self.code, properties: canonical_opt(Owner::Auth, self.properties) }
    }

    /// The identifiers of the properties, in order.
    pub open spec fn order(self) -> Seq<u8> {
        ids_opt(self.properties)
    }
}

impl View for Auth {
    type V = AuthModel;

    open spec fn view(&self) -> AuthModel {
        AuthModel {
            code: self.code,
            properties: match self.properties {
                Some(p) => Some(p@),
                None => None,
            },
        }
    }
}

impl Auth {
    fn len(&self) -> (r: usize)
        requires
            self@.len() <= usize::MAX,
        ensures
            r == self@.len(),
    {
        if self.code == AuthReasonCode::Success && self.properties.is_none() {
            return 0;
        }
        let properties_len: usize = match &self.properties {
            Some(p) => p.len(),
            None => 0,
        };
        1 + len_len(properties_len) + properties_len
    }

    pub fn size(&self) -> (r: usize)
        requires
            frame_len(self@.len()) <= usize::MAX,
        ensures
            r == frame_len(self@.len()),
    {
        let len: usize = self.len();
        let remaining_len_size: usize = len_len(len);
        1 + remaining_len_size + len
    }

    pub fn read(fixed_header: FixedHeader, bytes: Bytes) -> (r: Result<Self, Error>)
        requires
            fixed_header.fixed_header_len <= octets(bytes).len(),
        ensures
            match AuthModel::decode(octets(bytes).skip(fixed_header.fixed_header_len as int)) {
                Ok(w) => r matches Ok(a) && a@ == w.canonical(),
                Err(e) => r == Err::<Self, Error>(e),
            },
    {
        let mut order: Vec<u8> = Vec::new();
        Self::read_traced(fixed_header, bytes, &mut order)
    }

    pub(crate) fn read_traced(
        fixed_header: FixedHeader,
        bytes: Bytes,
        order: &mut Vec<u8>,
    ) -> (r: Result<Self, Error>)
        requires
            fixed_header.fixed_header_len <= octets(bytes).len(),
        ensures
            match AuthModel::decode(octets(bytes).skip(fixed_header.fixed_header_len as int)) {
                Ok(w) => r matches Ok(a) && a@ == w.canonical() && final(order)@ == old(order)@
                    + w.order(),
                Err(e) => r == Err::<Self, Error>(e),
            },
            final(order)@ == old(order)@ + AuthModel::noted(
                octets(bytes).skip(fixed_header.fixed_header_len as int),
            ),
    {
        let mut bytes = bytes;
        let variable_header_index: usize = fixed_header.fixed_header_len;
        bytes.advance(variable_header_index);
        assert(order@ =~= old(order)@ + Seq::<u8>::empty());
        if bytes.is_empty() {
            return Ok(Auth { code: AuthReasonCode::Success, properties: None });
        }
        let code = match AuthReasonCode::read(&mut bytes) {
            Ok(code) => code,
            Err(e) => return Err(e),
        };
        let properties = if bytes.is_empty() {
            None
        } else {
            match AuthProperties::read_traced(&mut bytes, order) {
                Ok(p) => p,
                Err(e) => return Err(e),
            }
        };
        if !bytes.is_empty() {
            return Err(Error::MalformedPacket);
        }
        let auth = Auth { code, properties };
        Ok(auth)
    }

    pub fn write(&self, buffer: &mut BytesMut) -> (r: Result<usize, Error>)
        requires
            has_room(*old(buffer), frame_len(self@.len()) as int),
        ensures
            r == self@.encode(None).0,
            buffered(*final(buffer)) == buffered(*old(buffer)) + self@.encode(None).1,
    {
        self.write_ordered(buffer, None)
    }

    pub(crate) fn write_ordered(&self, buffer: &mut BytesMut, order: Option<&[u8]>) -> (r: Result<
        usize,
        Error,
    >)
        requires
            has_room(*old(buffer), frame_len(self@.len()) as int),
        ensures
            r == self@.encode(order_of(order)).0,
            buffered(*final(buffer)) == buffered(*old(buffer)) + self@.encode(order_of(order)).1,
    {
        let ghost start = buffered(*buffer);
        put_u8(buffer, 0xF0);
        assert(buffered(*buffer) =~= start + seq![0xF0u8]);
        let len: usize = self.len();
        let count: usize = match write_remaining_length(buffer, len) {
            Ok(count) => count,
            Err(e) => return Err(e),
        };
        if len == 0 {
            assert(buffered(*buffer) =~= start + seq![0xF0u8, 0u8]);
            return Ok(1 + count);
        }
        self.code.write(buffer);
        let ghost head = seq![0xF0u8] + varint(len as nat) + seq![self.code.number()];
        assert(buffered(*buffer) =~= start + head);
        if let Some(p) = &self.properties {
            if let Err(e) = p.write_ordered(buffer, order) {
                return Err(e);
            }
        } else {
            if let Err(e) = write_remaining_length(buffer, 0) {
                return Err(e);
            }
        }
        assert(buffered(*buffer) =~= start + self@.encode(order_of(order)).1);
        Ok(1 + count + len)
    }
}

#[derive(Debug, Clone, PartialEq, Eq)]
pub struct AuthProperties {
    pub method: Option<String>,
    pub data: Option<Bytes>,
    pub reason: Option<String>,
    pub user_properties: Vec<(String, String)>,
}

impl View for AuthProperties {
    type V = Seq<Entry>;

    /// The entries in the order in which they are written by default.
    open spec fn view(&self) -> Seq<Entry> {
        joined(self.fields())
    }
}

impl Default for AuthProperties {
    fn default() -> (r: Self)
        ensures
            r.method is None,
            r.data is None,
            r.reason is None,
            r.user_properties@.len() == 0,
    {
        AuthProperties {
            method: None,
            data: None,
            reason: None,
            user_properties: Vec::new(),
        }
    }
}

impl AuthProperties {
    /// The entries of each field.
    pub open spec fn fields(self) -> Seq<Seq<Entry>> {
        Seq::empty()
            .push(text(21, self.method))
            .push(binary(22, self.data))
            .push(text(31, self.reason))
            .push(pairs(self.user_properties@))
    }

    fn len(&self) -> (r: usize)
        requires
            entries_len(self@) <= usize::MAX,
        ensures
            r == entries_len(self@),
    {
        broadcast use {entries_len_add, group_joined};

        let mut len: usize = 0;
        len = len + text_len(21, &self.method);
        len = len + binary_len(22, &self.data);
        len = len + text_len(31, &self.reason);
        len = len + pairs_len(&self.user_properties);
        len
    }

    pub fn read(bytes: &mut Bytes) -> (r: Result<Option<AuthProperties>, Error>)
        ensures
            match take_properties(Owner::Auth, octets(*old(bytes))) {
                (Ok(None), rest) => r matches Ok(None) && octets(*final(bytes)) == rest,
                (Ok(Some(es)), rest) => r matches Ok(Some(p)) && p@ == canonical(Owner::Auth, es)
                    && octets(*final(bytes)) == rest,
                (Err(e), rest) => r == Err::<Option<AuthProperties>, Error>(e) && octets(
                    *final(bytes),
                ) == rest,
            },
    {
        let mut order: Vec<u8> = Vec::new();
        Self::read_traced(bytes, &mut order)
    }

    pub(crate) fn read_traced(bytes: &mut Bytes, order: &mut Vec<u8>) -> (r: Result<
        Option<AuthProperties>,
        Error,
    >)
        ensures
            match take_properties(Owner::Auth, octets(*old(bytes))) {
                (Ok(None), rest) => r matches Ok(None) && octets(*final(bytes)) == rest
                    && final(order)@ == old(order)@,
                (Ok(Some(es)), rest) => r matches Ok(Some(p)) && p@ == canonical(Owner::Auth, es)
                    && octets(*final(bytes)) == rest && final(order)@ == old(order)@ + ids(es),
                (Err(e), rest) => r == Err::<Option<AuthProperties>, Error>(e) && octets(
                    *final(bytes),
                ) == rest,
            },
            final(order)@ == old(order)@ + section_ids(Owner::Auth, octets(*old(bytes))),
    {
        proof {
            reveal(take_properties);
        }
        let section = match read_properties_section(bytes) {
            Ok(section) => section,
            Err(e) => return Err(e),
        };
        if section.is_empty() {
            proof {
                parse_end(Owner::Auth, octets(section), Seq::empty());
            }
            return Ok(None);
        }
        match Self::read_section(section, order) {
            Ok(props) => Ok(Some(props)),
            Err(e) => Err(e),
        }
    }

    /// Reads the entries of a section that was isolated.
    fn read_section(section: Bytes, order: &mut Vec<u8>) -> (r: Result<AuthProperties, Error>)
        ensures
            match parse_entries(Owner::Auth, octets(section), Seq::empty()) {
                Ok(es) => r matches Ok(p) && p@ == canonical(Owner::Auth, es) && final(order)@
                    == old(order)@ + ids(es),
                Err(e) => r == Err::<AuthProperties, Error>(e),
            },
            final(order)@ == old(order)@ + noted_ids(Owner::Auth, octets(section), Seq::empty()),
    {
        let mut rest = section;
        let ghost mut es: Seq<Entry> = Seq::empty();
        let mut props = AuthProperties::default();
        let mut seen: u64 = 0;
        let mut count: usize = 0;
        proof {
            broadcast use pick_empty;

            tracks_nothing();
            assert(order@ =~= old(order)@ + ids(es));
            assert(pairs(props.user_properties@) =~= Seq::<Entry>::empty());
        }
        while !rest.is_empty()
            invariant
                parse_entries(Owner::Auth, octets(section), Seq::empty()) == parse_entries(
                    Owner::Auth,
                    octets(rest),
                    es,
                ),
                noted_ids(Owner::Auth, octets(section), Seq::empty()) == noted_ids(
                    Owner::Auth,
                    octets(rest),
                    es,
                ),
                tracks(seen, count, es),
                es.len() <= 1024,
                order@ == old(order)@ + ids(es),
                text(21, props.method) == pick(es, 21),
                binary(22, props.data) == pick(es, 22),
                text(31, props.reason) == pick(es, 31),
                pairs(props.user_properties@) == pick(es, 38),
            decreases octets(rest).len(),
        {
            broadcast use {pick_push, group_take_shrinks};

            proof {
                parse_step(Owner::Auth, octets(rest), es);
            }
            let prop: u8 = match next_property(
                &mut rest,
                Owner::Auth,
                &mut seen,
                &mut count,
                order,
                Ghost(es),
            ) {
                Ok(prop) => prop,
                Err(e) => return Err(e),
            };
            assert(order@ =~= old(order)@ + ids(es).push(prop));
            let property = match property(prop) {
                Ok(property) => property,
                Err(e) => return Err(e),
            };
            match property {
                PropertyType::AuthenticationMethod => {
                    let value = match read_mqtt_string(&mut rest) {
                        Ok(v) => v,
                        Err(e) => return Err(e),
                    };
                    proof {
                        es = es.push((prop, Value::Text(value@)));
                    }
                    props.method = Some(value);
                },
                PropertyType::AuthenticationData => {
                    let value = match read_mqtt_bytes(&mut rest) {
                        Ok(v) => v,
                        Err(e) => return Err(e),
                    };
                    proof {
                        es = es.push((prop, Value::Binary(octets(value))));
                    }
                    props.data = Some(value);
                },
                PropertyType::ReasonString => {
                    let value = match read_mqtt_string(&mut rest) {
                        Ok(v) => v,
                        Err(e) => return Err(e),
                    };
                    proof {
                        es = es.push((prop, Value::Text(value@)));
                    }
                    props.reason = Some(value);
                },
                PropertyType::UserProperty => {
                    let key = match read_mqtt_string(&mut rest) {
                        Ok(v) => v,
                        Err(e) => return Err(e),
                    };
                    let value = match read_mqtt_string(&mut rest) {
                        Ok(v) => v,
                        Err(e) => return Err(e),
                    };
                    proof {
                        pairs_push(props.user_properties@, (key, value));
                        es = es.push((prop, Value::Pair(key@, value@)));
                    }
                    props.user_properties.push((key, value));
                },
                _ => return Err(Error::InvalidPropertyType(prop)),
            }
            assert(order@ =~= old(order)@ + ids(es));
        }
        proof {
            parse_end(Owner::Auth, octets(rest), es);
            auth_properties_are_picked(props, es);
        }
        Ok(props)
    }

    pub fn write(&self, buffer: &mut BytesMut) -> (r: Result<(), Error>)
        requires
            has_room(*old(buffer), section_len(self@) as int),
        ensures
            match writable(self@, None) {
                Some(es) => r is Ok && buffered(*final(buffer)) == buffered(*old(buffer))
                    + section_octets(es),
                None => r == Err::<(), Error>(Error::MalformedPacket) && buffered(*final(buffer))
                    == buffered(*old(buffer)),
            },
    {
        self.write_ordered(buffer, None)
    }

    pub(crate) fn write_ordered(&self, buffer: &mut BytesMut, order: Option<&[u8]>) -> (r: Result<
        (),
        Error,
    >)
        requires
            has_room(*old(buffer), section_len(self@) as int),
        ensures
            match writable(self@, order_of(order)) {
                Some(es) => r is Ok && buffered(*final(buffer)) == buffered(*old(buffer))
                    + section_octets(es),
                None => r == Err::<(), Error>(Error::MalformedPacket) && buffered(*final(buffer))
                    == buffered(*old(buffer)),
            },
    {
        let mut values: Vec<(u8, Property<'_>)> = Vec::new();
        broadcast use group_joined;

        assert(listed(values@) =~= Seq::<Entry>::empty());
        push_text(&mut values, 21, &self.method);
        push_binary(&mut values, 22, &self.data);
        push_text(&mut values, 31, &self.reason);
        push_pairs(&mut values, &self.user_properties);
        write_properties(buffer, &values, order)
    }
}

/// Typed auth properties whose fields hold the entries that were read, each its own.
proof fn auth_properties_are_picked(p: AuthProperties, es: Seq<Entry>)
    requires
        text(21, p.method) == pick(es, 21),
        binary(22, p.data) == pick(es, 22),
        text(31, p.reason) == pick(es, 31),
        pairs(p.user_properties@) == pick(es, 38),
    ensures
        p@ == canonical(Owner::Auth, es),
{
    let fields = p.fields();
    let keys = table(Owner::Auth);
    assert(keys.len() == 4);
    assert forall|i: int| 0 <= i < 4 implies #[trigger] fields[i] == pick(es, keys[i]) by {
        if i == 0 {
            assert(fields[0] == text(21, p.method) && keys[0] == 21);
        } else if i == 1 {
            assert(fields[1] == binary(22, p.data) && keys[1] == 22);
        } else if i == 2 {
            assert(fields[2] == text(31, p.reason) && keys[2] == 31);
        }
    }
    assert(fields =~= picks(es, keys));
}

/// Each field of typed auth properties holds the entries of its own property.
pub proof fn auth_properties_have_fields(p: AuthProperties)
    ensures
        are_fields(Owner::Auth, p.fields()),
{
    let fields = p.fields();
    let keys = table(Owner::Auth);
    assert forall|i: int| 0 <= i < keys.len() implies is_field(
        Owner::Auth,
        #[trigger] keys[i],
        fields[i],
    ) by {
        if i == 0 {
            assert(fields[0] == text(21, p.method) && keys[0] == 21);
        } else if i == 1 {
            assert(fields[1] == binary(22, p.data) && keys[1] == 22);
        } else if i == 2 {
            assert(fields[2] == text(31, p.reason) && keys[2] == 31);
        }
    }
}

/// The entries of typed auth properties may stand in a section where they can be written, and
/// they stand in the order of the typed fields.
proof fn auth_properties_are_valid(p: AuthProperties)
    requires
        entries_fit(p@),
    ensures
        valid_entries(Owner::Auth, p@),
        canonical(Owner::Auth, p@) == p@,
{
    auth_properties_have_fields(p);
    fields_are_valid(Owner::Auth, p.fields());
}

/// An auth packet that was written is read back: the fields behind the fixed header spell the
/// same packet, with the properties in the order in which they were written.
#[verifier::spinoff_prover]
#[verifier::rlimit(40)]
pub proof fn auth_round_trip(auth: Auth, order: Option<Seq<u8>>)
    requires
        auth@.encode(order).0 is Ok,
        auth.properties matches Some(p) ==> p@.len() > 0,
    ensures
        ({
            let (n, out) = auth@.encode(order);
            let body = out.skip(1 + varint_len(auth@.len() as int) as int);
            let w = AuthModel { code: auth.code, properties: written(auth@.properties, order) };
            &&& n == Ok::<usize, Error>(out.len() as usize)
            &&& out.len() == frame_len(auth@.len())
            &&& out == seq![0xF0u8] + varint(auth@.len()) + body
            &&& AuthModel::decode(body) == Ok::<AuthModel, Error>(w)
            &&& w.canonical() == auth@
            &&& order is Some && auth.properties is Some ==> w.order() == order->0
        }),
{
    let m = auth@;
    let (n, out) = m.encode(order);
    if m.len() == 0 {
        reveal_with_fuel(varint, 2);
        assert(out =~= seq![0xF0u8] + varint(0) + out.skip(2));
    } else {
        if let Some(p) = auth.properties {
            auth_properties_are_valid(p);
        }
        let head = seq![m.code.number()];
        let section = writable_section(m.properties, order)->0;
        written_round_trip(Owner::Auth, m.properties, order, Seq::empty());
        assert(section + Seq::<u8>::empty() =~= section);
        emitted_fields(0xF0, m.len(), head, section, Seq::empty());
        let body = head + section + Seq::<u8>::empty();
        assert(body.skip(1) =~= section);
    }
}

} // verus!
