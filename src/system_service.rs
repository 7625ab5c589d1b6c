//! The service that reports on the host. Reading the host is left to the
//! application; the library holds only the service value.
use vstd::prelude::*;

verus! {

pub struct SystemService;

impl SystemService {
    pub fn new() -> (r: Self) {
        SystemService
    }
}

} // verus!
