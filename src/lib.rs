//! Domain Name System (DNS) communication protocol: a verified wire codec,
//! record catalog, address utilities and the decision logic of a stub
//! resolver.

pub mod address;
pub mod config;
pub mod hosts;
pub mod idna;
pub mod lemmas;
pub mod message;
pub mod record;
pub mod resolver;
pub mod socket;
pub mod text;

pub use address::address_name;
pub use config::DnsConfig;
pub use idna::{to_ascii, to_unicode};
pub use message::{DecodeError, EncodeError, Message, Question, Resource, MESSAGE_LIMIT};
pub use record::{Class, Record, RecordType};
pub use socket::Error;
