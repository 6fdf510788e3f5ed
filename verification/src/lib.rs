//! Multiplexing of HTTP connections over shared streams.
//!
//! A session ([`Mux`]) has one frontend connection, any number of backend connections, and the
//! streams that they share. A connection does no input or output itself: it is told what its socket
//! did and says what is to be done next, for HTTP/1 ([`ConnectionH1`]) and for HTTP/2
//! ([`ConnectionH2`]).

pub mod connection;
pub mod h1;
pub mod h2;
pub mod mux;
pub mod out;
pub mod parser;
pub mod ready;
pub mod serializer;
pub mod stream;

pub use connection::{Connection, Position};
pub use h1::ConnectionH1;
pub use h2::{ConnectionH2, H2State};
pub use mux::Mux;
pub use stream::{GenericHttpStream, Stream};
