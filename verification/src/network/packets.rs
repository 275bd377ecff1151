//! The packet types.

use vstd::prelude::*;

verus! {

/// Followed by one byte: the index of the ping, which goes up.
pub const PING: u16 = 0;

/// Followed by one byte: the index of the ping that is answered.
pub const PONG: u16 = 1;

/// From a client: one byte of index (zero for the first packet), then, in
/// the first packet, the user's name. From the server: one byte of token
/// for the client to send back, then a message if there is one. A client
/// sends two such packets and the server one to build a connection.
pub const CONNECT: u16 = 2;

} // verus!
