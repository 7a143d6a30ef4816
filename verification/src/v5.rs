pub mod event;
pub mod mqttbytes;
pub mod state;

pub use crate::event::Outgoing;
pub use event::{Event, Incoming, Request};
pub use state::{MqttState, StateError};
