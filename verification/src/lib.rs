//! Voice chat over UDP: the message formats that travel between peers, the
//! relay rules of the server and the choices a client makes on what arrives.
pub mod wire;
pub mod messages;
pub mod codec;
pub mod connection;
pub mod server;
pub mod client;
