//! Body of the services endpoint.

use vstd::prelude::*;

verus! {

/// The names of the services that have sent logs.
#[derive(Debug, PartialEq)]
pub struct ServicesResponse {
    pub services: Vec<String>,
}

} // verus!
