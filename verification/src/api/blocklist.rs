//! Request bodies of the blocklist endpoints.

use vstd::prelude::*;

verus! {

#[derive(Debug)]
pub struct SetEnabledRequest {
    pub enabled: bool,
}

#[derive(Debug)]
pub struct AddSourceRequest {
    pub url: String,
}

} // verus!
