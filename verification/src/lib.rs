//! Protocol identification, routing and load balancing for a port
//! multiplexing reverse proxy: the first bytes of a connection tell which
//! protocol it carries, and the connection goes to a healthy backend of that
//! protocol's route.
pub mod commands;
pub mod config;
pub mod display;
pub mod engine;
pub mod errors;
pub mod protocols;
pub mod util;

pub use crate::engine::types;
pub use crate::engine::types::{ProtocolMatch, ProtocolRoute, Transport};
pub use crate::engine::builder::RefractiumBuilder;
pub use crate::engine::Refractium;
pub use crate::errors::{RefractiumError, Result};
pub use crate::protocols::dns::Dns;
pub use crate::protocols::ftp::Ftp;
pub use crate::protocols::http::Http;
pub use crate::protocols::https::Https;
pub use crate::protocols::ssh::Ssh;
pub use crate::protocols::{DynamicProtocol, ProtocolRegistry, RefractiumProtocol};
