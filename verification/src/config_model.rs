//! The gateway's listen addresses.  Reading and writing the
//! configuration file is plumbing outside the crate; the defaults live
//! here.

use vstd::prelude::*;

verus! {

/// The three listen addresses: device-facing, HTTP control, and
/// forwarding-facing.
#[derive(Debug)]
pub struct ConfigModel {
    pub address_device: String,
    pub address_http: String,
    pub address_forward: String,
}

impl ConfigModel {
    /// The addresses used when no configuration file exists yet.
    pub fn default() -> (r: ConfigModel)
        ensures
            r.address_device@ == "127.0.0.1:20888"@,
            r.address_http@ == "127.0.0.1:20889"@,
            r.address_forward@ == "127.0.0.1:20890"@,
    {
        ConfigModel {
            address_device: "127.0.0.1:20888".to_owned(),
            address_http: "127.0.0.1:20889".to_owned(),
            address_forward: "127.0.0.1:20890".to_owned(),
        }
    }
}

} // verus!
