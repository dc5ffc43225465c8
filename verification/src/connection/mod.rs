//! The parts of a peer's connection that do not touch the network: the
//! choice of a local port and the traits that a connection offers.
pub mod connection;
pub mod mocks;
pub mod traits;

pub use self::connection::random_port;
pub use self::traits::{Connectable, Sender};
