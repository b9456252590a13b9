//! Settings of the connection to the update stream.

use vstd::prelude::*;

verus! {

/// Where the update stream is read from.
#[derive(Debug, Clone)]
pub struct RedisOpt {
    pub redis_url: String,
}

} // verus!
