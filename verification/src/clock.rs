//! The wall clock and fresh identifiers, the two inputs of the game that
//! come from outside it.

use vstd::prelude::*;

verus! {

/// `SystemTime::now()` in whole seconds since the Unix epoch (a clock set
/// before the epoch reads as 0). Nothing is claimed of the value: it is
/// whatever the machine's clock says.
#[verifier::external_body]
pub(crate) fn now_unix_seconds() -> u64 {
    match std::time::SystemTime::now().duration_since(std::time::UNIX_EPOCH) {
        Ok(elapsed) => elapsed.as_secs(),
        Err(_) => 0,
    }
}

/// `uuid::Uuid::new_v4().to_string()`: a fresh random identifier. Nothing
/// is claimed of its text.
#[verifier::external_body]
pub(crate) fn new_uuid_string() -> String {
    uuid::Uuid::new_v4().to_string()
}

} // verus!
