# rumqttc

The protocol core of an MQTT client, verified with [Verus](https://github.com/verus-lang/verus):
the session state machines for MQTT 3.1.1 and MQTT 5, and the MQTT 5 packet codec. The library does
no I/O. A network loop hands it requests and packets and sends what it returns.

## Layout

- `src/state.rs`, `src/state/`: the MQTT 3.1.1 state machine. `model.rs` describes the state as a
  mathematical value, with each transition as a function on it, and proves what holds of every
  session. `session.rs` ends and resumes sessions, `memory.rs` estimates memory.
- `src/v5/state.rs`, `src/v5/state/`: the same for MQTT 5.
- `src/v5/mqttbytes/v5/`: the MQTT 5 packets. `wire.rs` holds the primitive fields, `property.rs`
  the property sections, `frame.rs` the fixed header, `ordered.rs` property sections in a chosen
  order, `packet.rs` whole packets. Every packet has its own file, with a specification of its
  octets and a proof that what is written is read back.
- `src/mqttbytes/`, `src/event.rs`, `src/v5/event.rs`: packet types, requests and events.
- `src/octets.rs`, `src/bitset.rs`, `src/text.rs`, `src/clock.rs`, `src/memory.rs`,
  `src/tables.rs`: what is believed of the `bytes` and `fixedbitset` crates and of the standard
  library, and what follows from it.
- `app/`: the errors of the state machines as `std::error::Error`.
- `tests/`: tests that run the library.
