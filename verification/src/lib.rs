//! Types and client-side protocol of Zeek's WebSocket API.
//!
//! [`value`] holds the values that the API carries and the order in which they sort, [`wire`]
//! their JSON form, [`message`] and [`frame`] the messages around them. [`protocol`] is the
//! protocol without I/O, and [`client`] what an event loop decides.
pub mod c_api;
pub mod client;
pub mod convert;
pub mod derive;
pub mod frame;
pub mod json;
pub mod message;
pub mod mock;
pub mod net;
pub mod order;
pub mod port;
pub mod protocol;
pub mod prune;
pub mod python;
pub mod python_laws;
pub mod python_value;
pub mod read;
pub mod record;
pub mod scalar;
pub mod scan;
pub mod sorted;
pub mod subscriptions;
pub mod text;
pub mod value;
pub mod wire;

pub use convert::ConversionError;
pub use frame::{DeserializationError, Frame};
pub use message::{Data, Event, Message};
pub use net::{IpAddr, IpNetwork};
pub use port::{ParseError, Port, Protocol};
pub use protocol::Binding;
pub use scalar::{Real, SerializationError, Timespan, Timestamp, UtcOffset};
pub use subscriptions::Subscriptions;
pub use value::{TableEntry, Value, ValueSet, ValueTable};
