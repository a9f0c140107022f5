//! The services a device offers.

use vstd::prelude::*;

verus! {

/// One service of a device.
pub struct Service {}

impl Service {
    /// A service.
    pub fn new() -> (s: Service) {
        Service {  }
    }
}

/// The services of one device.
pub struct ServiceMgr {
    services: Vec<Service>,
}

impl ServiceMgr {
    /// How many services there are.
    pub closed spec fn service_count(&self) -> nat {
        self.services@.len()
    }

    /// No services.
    pub fn new() -> (m: ServiceMgr)
        ensures
            m.service_count() == 0,
    {
        ServiceMgr { services: Vec::new() }
    }
}

} // verus!
