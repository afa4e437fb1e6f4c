//! Session/event bridge for a single peer-to-peer endpoint: a codec that
//! renders transport events as JSON records, and a session store that owns at
//! most one live session and buffers its rendered events until they are polled.

use vstd::prelude::*;

pub mod codec;
pub mod session;

verus! {

} // verus!
