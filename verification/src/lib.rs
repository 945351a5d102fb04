pub mod configuration;
pub mod form;
pub mod subscribe;
pub mod text;

use vstd::prelude::*;

verus! {

/// Status code of the liveness probe: always success, whatever the state of
/// the rest of the process. The probe takes no arguments at all, so it cannot
/// depend on the database pool or any other shared resource.
pub fn health_check() -> (status: u16)
    ensures
        status == 200,
{
    200
}

} // verus!
