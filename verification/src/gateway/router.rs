//! Failure modes of building a shard router.

use crate::shard_map::ShardMapError;
use vstd::prelude::*;

verus! {

/// Why a router could not be built.
#[derive(Debug, Clone, Copy, PartialEq, Eq, Structural)]
pub enum RouterError {
    /// The routing table was refused.
    ShardMap(ShardMapError),
}

impl From<ShardMapError> for RouterError {
    fn from(e: ShardMapError) -> (r: Self) {
        RouterError::ShardMap(e)
    }
}

impl vstd::std_specs::convert::FromSpecImpl<ShardMapError> for RouterError {
    open spec fn obeys_from_spec() -> bool {
        true
    }

    open spec fn from_spec(e: ShardMapError) -> RouterError {
        RouterError::ShardMap(e)
    }
}

} // verus!
