//! Whether the device is online, and what came of connecting it.
use vstd::prelude::*;

use crate::number::{push_signed, signed_decimal};

verus! {

/// `inkview::bindings::NET_CONNECTED`: the bits of the network state that tell a connection.
#[verifier::external_body]
fn net_connected() -> (r: u32)
    ensures
        r == 0xf00,
{
    inkview::bindings::NET_CONNECTED
}

/// Connecting to the network failed; carries the result code. A typed error rather than a message,
/// so that it can be rendered in the current language.
#[derive(Debug, Clone, Copy, PartialEq, Eq, Structural)]
pub struct ConnectError(pub i32);

impl ConnectError {
    /// The error in English.
    pub fn message(&self) -> (r: String)
        ensures
            r@ == "couldn't connect to the network (code "@ + signed_decimal(self.0 as int) + ")"@,
    {
        let mut out: String = "couldn't connect to the network (code ".to_string();
        push_signed(&mut out, self.0 as i64);
        out.append(")");
        out
    }
}

/// Whether a network state has an interface that is connected.
pub open spec fn online(state: i32) -> bool {
    state & 0xf00 != 0
}

/// What getting online takes.
#[derive(Debug, Clone, Copy, PartialEq, Eq, Structural)]
pub enum NetStep {
    /// Nothing: the device is online.
    Online,
    /// Connecting to the network last used.
    Connect,
}

/// What getting online takes in the given network state, a bit mask whose low bits tell only that
/// an interface exists.
pub fn ensure_online(state: i32) -> (r: NetStep)
    ensures
        r == if online(state) {
            NetStep::Online
        } else {
            NetStep::Connect
        },
{
    if state & net_connected() as i32 != 0 {
        NetStep::Online
    } else {
        NetStep::Connect
    }
}

/// What came of connecting, by its result code: zero is success.
pub fn connect_result(code: i32) -> (r: Result<(), ConnectError>)
    ensures
        r == if code == 0 {
            Ok(())
        } else {
            Err(ConnectError(code))
        },
{
    if code == 0 {
        Ok(())
    } else {
        Err(ConnectError(code))
    }
}

/// An interface that merely exists is no connection; one that is ready is.
pub proof fn presence_is_no_connection(state: i32)
    ensures
        0 <= state < 0x100 ==> !online(state),
        state & 0x100 != 0 || state & 0x200 != 0 || state & 0x400 != 0 ==> online(state),
{
    assert(0 <= state < 0x100 ==> state & 0xf00 == 0) by (bit_vector);
    assert(state & 0x100 != 0 || state & 0x200 != 0 || state & 0x400 != 0 ==> state & 0xf00 != 0)
        by (bit_vector);
}

} // verus!
