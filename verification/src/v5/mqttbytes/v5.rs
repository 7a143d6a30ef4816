//! The packets of MQTT 5.

pub mod auth;
pub mod connack;
pub mod connect;
pub mod disconnect;
pub mod faults;
pub mod format;
pub mod frame;
pub mod layout;
pub mod listing;
pub mod ordered;
pub mod packet;
pub mod ping;
pub mod property;
pub mod puback;
pub mod pubcomp;
pub mod publish;
pub mod pubrec;
pub mod pubrel;
pub mod shown;
pub mod suback;
pub mod subscribe;
pub mod unsuback;
pub mod unsubscribe;
pub mod wire;

pub use self::auth::{Auth, AuthProperties, AuthReasonCode};
pub use self::connack::{ConnAck, ConnAckProperties, ConnectReturnCode};
pub use self::connect::{Connect, ConnectProperties, LastWill, LastWillProperties, Login};
pub use self::disconnect::{Disconnect, DisconnectProperties, DisconnectReasonCode};
pub use self::frame::{check, FixedHeader, PacketType};
pub use self::ordered::PropertyOrder;
pub use self::packet::{DecodedPacket, Packet};
pub use self::ping::{PingReq, PingResp};
pub use self::puback::{PubAck, PubAckProperties, PubAckReason};
pub use self::pubcomp::{PubComp, PubCompProperties, PubCompReason};
pub use self::publish::{Publish, PublishProperties};
pub use self::pubrec::{PubRec, PubRecProperties, PubRecReason};
pub use self::pubrel::{PubRel, PubRelProperties, PubRelReason};
pub use self::suback::{SubAck, SubAckProperties, SubscribeReasonCode};
pub use self::subscribe::{Filter, RetainForwardRule, Subscribe, SubscribeProperties};
pub use self::unsuback::{UnsubAck, UnsubAckProperties, UnsubAckReason};
pub use self::unsubscribe::{Unsubscribe, UnsubscribeProperties};
