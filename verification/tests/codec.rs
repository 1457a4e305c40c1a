//! The cache of codecs.
use lightweight_shred::error::ErasureError;
use lightweight_shred::ReedSolomonCache;

#[test]
fn numbers_of_shards() {
    let cache = ReedSolomonCache::default();
    for _ in 0..2 {
        assert!(cache.get(32, 32).is_ok());
        assert!(cache.get(1, 255).is_ok());
        assert_eq!(cache.get(0, 32).err(), Some(ErasureError::TooFewDataShards));
        assert_eq!(cache.get(0, 0).err(), Some(ErasureError::TooFewDataShards));
        assert_eq!(cache.get(32, 0).err(), Some(ErasureError::TooFewParityShards));
        assert_eq!(cache.get(1, 256).err(), Some(ErasureError::TooManyShards));
        assert_eq!(cache.get(65535, 65535).err(), Some(ErasureError::TooManyShards));
    }
}

#[test]
fn more_codecs_than_the_cache_keeps() {
    let cache = ReedSolomonCache::default();
    assert_eq!(ReedSolomonCache::CAPACITY, 128);
    for _ in 0..2 {
        for parity in 1..=255 {
            assert!(cache.get(1, parity).is_ok());
        }
        for data in 300..400 {
            assert_eq!(cache.get(data, 1).err(), Some(ErasureError::TooManyShards));
        }
    }
}

fn can_be_shared<T: Send + Sync>(_: &T) -> bool {
    true
}

#[test]
fn one_cache_for_many_threads() {
    assert!(can_be_shared(&ReedSolomonCache::default()));
}
