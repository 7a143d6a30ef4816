pub mod bitset;
pub mod clock;
pub mod event;
pub mod memory;
pub mod mqttbytes;
pub mod octets;
pub mod state;
pub mod tables;
pub mod text;
pub mod v5;

pub use event::{Event, Incoming, Outgoing, Request};
pub use state::{MqttState, StateError};
