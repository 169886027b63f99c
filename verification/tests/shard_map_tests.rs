use engine::shard_map::{ShardMap, ShardMapError};

#[test]
fn shard_map_rejects_zero_shard_count() {
    assert_eq!(ShardMap::new(0).unwrap_err(), ShardMapError::ZeroShardCount);
}

#[test]
fn default_mapping_is_modulo() {
    let map = ShardMap::new(2).unwrap();
    assert_eq!(map.shard_count(), 2);
    assert_eq!(map.shard_for(0), 0);
    assert_eq!(map.shard_for(1), 1);
    assert_eq!(map.shard_for(2), 0);
    assert_eq!(map.shard_for(3), 1);
    assert_eq!(map.shard_for(1_000_000), 0);
    assert_eq!(map.shard_for(1_000_001), 1);
}

#[test]
fn shard_for_is_deterministic() {
    let map = ShardMap::new(4).unwrap();
    for instrument_id in [1u32, 7, 42, 100, u32::MAX] {
        assert_eq!(map.shard_for(instrument_id), map.shard_for(instrument_id));
    }
}

#[test]
fn override_takes_precedence_over_modulo() {
    // Without override, 7 % 2 = 1.
    let map = ShardMap::with_overrides(2, &[(7u32, 0u16)]).unwrap();
    assert_eq!(map.shard_for(7), 0);
    // Other instruments still go through modulo.
    assert_eq!(map.shard_for(8), 0);
    assert_eq!(map.shard_for(9), 1);
}

#[test]
fn override_out_of_range_is_rejected() {
    let err = ShardMap::with_overrides(2, &[(1u32, 5u16)]).unwrap_err();
    assert_eq!(
        err,
        ShardMapError::OverrideOutOfRange {
            shard_id: 5,
            shard_count: 2,
        }
    );
}

#[test]
fn add_override_replaces_existing_pin() {
    let mut map = ShardMap::new(4).unwrap();
    map.add_override(42, 0).unwrap();
    assert_eq!(map.shard_for(42), 0);
    map.add_override(42, 3).unwrap();
    assert_eq!(map.shard_for(42), 3);
}

#[test]
fn overrides_iter_matches_add_calls() {
    let mut map = ShardMap::new(2).unwrap();
    map.add_override(5, 0).unwrap();
    map.add_override(6, 1).unwrap();
    let mut overrides: Vec<_> = map.overrides();
    overrides.sort();
    assert_eq!(overrides, vec![(5, 0), (6, 1)]);
}
