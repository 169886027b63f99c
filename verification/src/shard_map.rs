//! Static instrument-to-shard routing table.
//!
//! The default mapping is `instrument_id % shard_count`; an override table
//! pins chosen instruments to a specific shard.

use crate::commands::InstrumentId;
use crate::shard::ShardId;
use std::collections::HashMap;
use vstd::prelude::*;
use vstd::std_specs::iter::IteratorSpec;

verus! {

broadcast use vstd::std_specs::hash::group_hash_axioms;

#[derive(Debug, Clone, Copy, PartialEq, Eq, Structural)]
pub enum ShardMapError {
    /// At least one shard is required.
    ZeroShardCount,
    /// An override named a shard id beyond the configured count.
    OverrideOutOfRange { shard_id: ShardId, shard_count: u16 },
}

/// A routing table: how many shards there are, and the pinned instruments.
pub struct RoutingTable {
    pub shard_count: u16,
    pub overrides: Map<InstrumentId, ShardId>,
}

impl RoutingTable {
    /// Every pin names an existing shard, and there is at least one shard.
    pub open spec fn valid(self) -> bool {
        &&& self.shard_count > 0
        &&& forall|id: InstrumentId| #[trigger]
            self.overrides.contains_key(id) ==> self.overrides[id] < self.shard_count
    }

    /// The shard owning `instrument_id`: its pin, else `instrument_id % shard_count`.
    pub open spec fn shard_for(self, instrument_id: InstrumentId) -> ShardId {
        if self.overrides.contains_key(instrument_id) {
            self.overrides[instrument_id]
        } else {
            (instrument_id % (self.shard_count as u32)) as u16
        }
    }
}

/// `overrides` pinned one after the other into `pins`.
pub open spec fn pin_all(pins: Map<InstrumentId, ShardId>, overrides: Seq<(InstrumentId, ShardId)>) -> Map<
    InstrumentId,
    ShardId,
>
    decreases overrides.len(),
{
    if overrides.len() == 0 {
        pins
    } else {
        let (id, shard) = overrides.last();
        pin_all(pins, overrides.drop_last()).insert(id, shard)
    }
}

/// The index of the first override naming a shard beyond `shard_count`, if any.
pub open spec fn first_out_of_range(overrides: Seq<(InstrumentId, ShardId)>, shard_count: u16) -> Option<int> {
    if exists|i: int| 0 <= i < overrides.len() && (#[trigger] overrides[i]).1 >= shard_count {
        Some(
            choose|i: int|
                0 <= i < overrides.len() && (#[trigger] overrides[i]).1 >= shard_count && forall|
                    j: int,
                | 0 <= j < i ==> (#[trigger] overrides[j]).1 < shard_count,
        )
    } else {
        None
    }
}

/// Maps an instrument to the shard that owns it.
#[derive(Debug)]
pub struct ShardMap {
    shard_count: u16,
    overrides: HashMap<InstrumentId, ShardId>,
}

impl View for ShardMap {
    type V = RoutingTable;

    closed spec fn view(&self) -> RoutingTable {
        RoutingTable { shard_count: self.shard_count, overrides: self.overrides@ }
    }
}

impl Clone for ShardMap {
    fn clone(&self) -> (r: Self)
        ensures
            r@ == self@,
    {
        proof {
            use_type_invariant(self);
        }
        ShardMap { shard_count: self.shard_count, overrides: self.overrides.clone() }
    }
}

impl ShardMap {
    /// At least one shard, and every pin names an existing shard.
    #[verifier::type_invariant]
    spec fn table_is_valid(self) -> bool {
        self@.valid()
    }

    /// A map with `shard_count` shards and the plain modulo mapping.
    pub fn new(shard_count: u16) -> (r: Result<Self, ShardMapError>)
        ensures
            shard_count == 0 ==> r == Err::<Self, ShardMapError>(ShardMapError::ZeroShardCount),
            shard_count > 0 ==> r is Ok && r->Ok_0@ == (RoutingTable {
                shard_count,
                overrides: Map::empty(),
            }) && r->Ok_0@.valid(),
    {
        if shard_count == 0 {
            return Err(ShardMapError::ZeroShardCount);
        }
        let m = Self { shard_count, overrides: HashMap::new() };
        assert(m@.overrides =~= Map::<InstrumentId, ShardId>::empty());
        Ok(m)
    }

    /// A map with `shard_count` shards and the given pins applied in order;
    /// refused on a zero count or at the first pin to a shard out of range.
    pub fn with_overrides(shard_count: u16, overrides: &[(InstrumentId, ShardId)]) -> (r: Result<
        Self,
        ShardMapError,
    >)
        ensures
            shard_count == 0 ==> r == Err::<Self, ShardMapError>(ShardMapError::ZeroShardCount),
            shard_count > 0 ==> match first_out_of_range(overrides@, shard_count) {
                Some(i) => r == Err::<Self, ShardMapError>(
                    ShardMapError::OverrideOutOfRange { shard_id: overrides@[i].1, shard_count },
                ),
                None => r is Ok && r->Ok_0@ == (RoutingTable {
                    shard_count,
                    overrides: pin_all(Map::empty(), overrides@),
                }) && r->Ok_0@.valid(),
            },
    {
        let mut map = match Self::new(shard_count) {
            Ok(m) => m,
            Err(e) => return Err(e),
        };
        let mut i: usize = 0;
        while i < overrides.len()
            invariant
                0 <= i <= overrides.len(),
                shard_count > 0,
                map@.shard_count == shard_count,
                map@.valid(),
                map@.overrides == pin_all(Map::empty(), overrides@.take(i as int)),
                forall|j: int| 0 <= j < i ==> (#[trigger] overrides@[j]).1 < shard_count,
            decreases overrides.len() - i,
        {
            let (instrument_id, shard_id) = overrides[i];
            proof {
                assert(overrides@.take(i + 1).drop_last() =~= overrides@.take(i as int));
            }
            match map.add_override(instrument_id, shard_id) {
                Ok(()) => {},
                Err(e) => {
                    proof {
                        assert(overrides@[i as int].1 >= shard_count);
                        let k = choose|k: int|
                            0 <= k < overrides@.len() && (#[trigger] overrides@[k]).1 >= shard_count
                                && forall|j: int| 0 <= j < k ==> (#[trigger] overrides@[j]).1 < shard_count;
                        if k < i {
                        } else if k > i {
                            assert(overrides@[i as int].1 < shard_count);
                        }
                    }
                    return Err(e);
                },
            }
            i = i + 1;
        }
        proof {
            assert(overrides@.take(overrides@.len() as int) =~= overrides@);
        }
        Ok(map)
    }

    /// Number of configured shards; never zero.
    pub fn shard_count(&self) -> (r: u16)
        ensures
            r == self@.shard_count,
    {
        self.shard_count
    }

    /// The shard owning `instrument_id`: its pin if it has one, else
    /// `instrument_id % shard_count`. Every instrument maps to some shard.
    pub fn shard_for(&self, instrument_id: InstrumentId) -> (r: ShardId)
        ensures
            r == self@.shard_for(instrument_id),
            r < self@.shard_count,
    {
        proof {
            use_type_invariant(self);
        }
        if let Some(shard_id) = self.overrides.get(&instrument_id) {
            return *shard_id;
        }
        let count = self.shard_count as u32;
        (instrument_id % count) as u16
    }

    /// Pin `instrument_id` to `shard_id`, replacing any earlier pin.
    pub fn add_override(&mut self, instrument_id: InstrumentId, shard_id: ShardId) -> (r: Result<
        (),
        ShardMapError,
    >)
        ensures
            final(self)@.valid(),
            shard_id >= old(self)@.shard_count ==> r == Err::<(), ShardMapError>(
                ShardMapError::OverrideOutOfRange {
                    shard_id,
                    shard_count: old(self)@.shard_count,
                },
            ) && final(self)@ == old(self)@,
            shard_id < old(self)@.shard_count ==> r is Ok && final(self)@ == (RoutingTable {
                shard_count: old(self)@.shard_count,
                overrides: old(self)@.overrides.insert(instrument_id, shard_id),
            }),
    {
        proof {
            use_type_invariant(&*self);
        }
        if shard_id >= self.shard_count {
            return Err(
                ShardMapError::OverrideOutOfRange { shard_id, shard_count: self.shard_count },
            );
        }
        let mut pins: HashMap<InstrumentId, ShardId> = HashMap::new();
        std::mem::swap(&mut pins, &mut self.overrides);
        pins.insert(instrument_id, shard_id);
        self.overrides = pins;
        Ok(())
    }

    /// The configured pins, each once, in no particular order.
    pub fn overrides(&self) -> (r: Vec<(InstrumentId, ShardId)>)
        ensures
            r@.to_set() == self@.overrides.kv_pairs(),
            r@.no_duplicates(),
    {
        let ghost kvs = self.overrides.iter().remaining();
        let mut out: Vec<(InstrumentId, ShardId)> = Vec::new();
        for kv in it: self.overrides.iter()
            invariant
                it.seq() == kvs,
                out@.len() == it.index(),
                forall|i: int| 0 <= i < out@.len() ==> out@[i] == (*kvs[i].0, *kvs[i].1),
            ensures
                out@.len() == kvs.len(),
                forall|i: int| 0 <= i < out@.len() ==> out@[i] == (*kvs[i].0, *kvs[i].1),
        {
            let (k, v) = kv;
            out.push((*k, *v));
        }
        proof {
            assert(out@ =~= kvs.unref());
        }
        out
    }
}

} // verus!
