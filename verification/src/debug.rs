//! The connection between an interpreter and a debugger that watches it from another thread.

use vstd::prelude::*;
use std::sync::mpsc::{Sender, Receiver};
use std::collections::HashMap;
use std::time::Instant;
use crate::io::channel;

verus! {

#[verifier::external_type_specification]
#[verifier::external_body]
pub struct ExInstant(Instant);

/// The kind of message that says a global was defined.
pub const GLOBAL_DEFINED: &'static str = "GLOBAL_DEFINED";

/// The kind of message that says a global was removed.
pub const GLOBAL_UNDEFINED: &'static str = "GLOBAL_UNDEFINED";

/// A message between the interpreter and the debugger: named fields of text.
pub type DebugMessage = HashMap<String, String>;

/// The debugger's end of the connection.
pub struct UmbilicalHighEnd {
    pub to_low_end: Sender<DebugMessage>,
    pub from_low_end: Receiver<DebugMessage>,
}

/// The interpreter's end of the connection, with what it remembers of the session.
pub struct UmbilicalLowEnd {
    pub to_high_end: Sender<DebugMessage>,
    pub from_high_end: Receiver<DebugMessage>,
    pub last_memory_send: Instant,
    pub serial_number: usize,
    pub paused: bool,
    pub in_step: bool,
}

/// The present moment (std's `Instant::now`); nothing is stated of it.
#[verifier::external_body]
fn now() -> Instant {
    Instant::now()
}

/// A connected pair of ends: what one end sends, the other receives. The session starts with
/// serial number 0, neither paused nor stepping.
pub fn make_umbilical() -> (r: (UmbilicalHighEnd, UmbilicalLowEnd))
    ensures
        r.1.serial_number == 0,
        !r.1.paused,
        !r.1.in_step,
{
    let (high_to_low_tx, high_to_low_rx) = channel();
    let (low_to_high_tx, low_to_high_rx) = channel();
    let high = UmbilicalHighEnd {
        to_low_end: high_to_low_tx,
        from_low_end: low_to_high_rx,
    };
    let low = UmbilicalLowEnd {
        to_high_end: low_to_high_tx,
        from_high_end: high_to_low_rx,
        last_memory_send: now(),
        serial_number: 0,
        paused: false,
        in_step: false,
    };
    (high, low)
}

} // verus!
