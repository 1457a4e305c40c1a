//! The erasure code and a cache of its codecs.
//!
//! The code itself is that of the crate `reed_solomon_erasure`, the cache that of `lazy_lru`.
use crate::DATA_SHREDS_PER_FEC_BLOCK;
use crate::error::ErasureError;
use lazy_lru::LruCache;
use reed_solomon_erasure::galois_8::ReedSolomon;
use std::sync::Arc;
use vstd::prelude::*;
use vstd::rwlock::{RwLock, RwLockPredicate};

verus! {

/// A codec of `reed_solomon_erasure`, which can be shared. Its type cannot be declared to Verus: its
/// parameter is bound by a trait of that crate.
#[verifier::external_body]
pub struct Codec {
    codec: Arc<ReedSolomon>,
}

/// Least recently used codecs in a cache of `lazy_lru`, by numbers of data and of parity shards.
/// The type of the cache cannot be declared to Verus: its hasher is not known there.
#[verifier::external_body]
pub struct CodecLru {
    lru: LruCache<(usize, usize), Result<Codec, ErasureError>>,
}

/// Numbers of data and of parity shards that a codec was made for.
pub uninterp spec fn codec_shards(codec: Codec) -> (usize, usize);

/// The entries of a cache: for a key, the numbers that the codec was made for, or the error.
pub uninterp spec fn cached(lru: CodecLru) -> Map<
    (usize, usize),
    Result<(usize, usize), ErasureError>,
>;

/// The number of entries that a cache keeps when it drops some.
pub uninterp spec fn lru_capacity(lru: CodecLru) -> usize;

/// All shards, after those that were missing have been computed from `data` or more others.
pub uninterp spec fn reconstructed(
    data: usize,
    parity: usize,
    shards: Seq<(Seq<u8>, bool)>,
) -> Seq<Seq<u8>>;

/// The entries of an empty cache.
pub open spec fn no_codecs() -> Map<(usize, usize), Result<(usize, usize), ErasureError>> {
    Map::empty()
}

/// What making a codec gives: it takes at least one data shard, at least one parity shard, and at
/// most 256 shards in all.
pub open spec fn codec_for(data: usize, parity: usize) -> Result<(usize, usize), ErasureError> {
    if data == 0 {
        Err(ErasureError::TooFewDataShards)
    } else if parity == 0 {
        Err(ErasureError::TooFewParityShards)
    } else if data + parity > 256 {
        Err(ErasureError::TooManyShards)
    } else {
        Ok((data, parity))
    }
}

/// The numbers that a codec was made for, or the error in its place.
pub open spec fn codec_or_error(codec: Result<Codec, ErasureError>) -> Result<
    (usize, usize),
    ErasureError,
> {
    match codec {
        Ok(codec) => Ok(codec_shards(codec)),
        Err(e) => Err(e),
    }
}

/// The bytes of shards, each with whether it is present.
pub open spec fn shards_of(shards: Seq<(Vec<u8>, bool)>) -> Seq<(Seq<u8>, bool)> {
    shards.map_values(|shard: (Vec<u8>, bool)| (shard.0@, shard.1))
}

/// The one length that all shards that are present have, if there are any; an error if one is empty
/// or they differ.
pub open spec fn present_len(shards: Seq<(Seq<u8>, bool)>) -> Result<Option<nat>, ErasureError>
    decreases shards.len(),
{
    if shards.len() == 0 {
        Ok(None)
    } else {
        let (shard, present) = shards.last();
        match present_len(shards.drop_last()) {
            Err(e) => Err(e),
            Ok(len) => if !present {
                Ok(len)
            } else if shard.len() == 0 {
                Err(ErasureError::EmptyShard)
            } else if len is Some && len != Some(shard.len()) {
                Err(ErasureError::IncorrectShardSize)
            } else {
                Ok(Some(shard.len()))
            },
        }
    }
}

/// The number of shards that are present.
pub open spec fn num_present(shards: Seq<(Seq<u8>, bool)>) -> nat {
    shards.filter(|shard: (Seq<u8>, bool)| shard.1).len()
}

/// Whether shards can be reconstructed: their number is that of the codec, those that are present
/// are of one length, there are enough of them unless none is missing, and those that are missing
/// have room.
pub open spec fn reconstruct_result(
    data: usize,
    parity: usize,
    shards: Seq<(Seq<u8>, bool)>,
) -> Result<(), ErasureError> {
    if shards.len() < data + parity {
        Err(ErasureError::TooFewShards)
    } else if shards.len() > data + parity {
        Err(ErasureError::TooManyShards)
    } else {
        match present_len(shards) {
            Err(e) => Err(e),
            Ok(len) => if num_present(shards) == data + parity {
                Ok(())
            } else if num_present(shards) < data {
                Err(ErasureError::TooFewShardsPresent)
            } else if forall|i: int|
                0 <= i < shards.len() ==> (#[trigger] shards[i]).1 || Some(shards[i].0.len())
                    == len {
                Ok(())
            } else {
                Err(ErasureError::IncorrectShardSize)
            },
        }
    }
}

/// Whether `full` holds data shards and the parity shards that the code computes from them.
pub open spec fn encodes(data: usize, parity: usize, full: Seq<Seq<u8>>) -> bool {
    let data_only = Seq::new(full.len(), |j: int| (full[j], j < data));
    &&& codec_for(data, parity) is Ok
    &&& full.len() == data + parity
    &&& full[0].len() > 0
    &&& forall|i: int| 0 <= i < full.len() ==> (#[trigger] full[i]).len() == full[0].len()
    &&& forall|i: int|
        data <= i < full.len() ==> #[trigger] full[i] == reconstructed(data, parity, data_only)[i]
}

/// Whether the shards that are present are those of `full`.
pub open spec fn agrees(shards: Seq<(Seq<u8>, bool)>, full: Seq<Seq<u8>>) -> bool {
    &&& shards.len() == full.len()
    &&& forall|i: int| 0 <= i < shards.len() && (#[trigger] shards[i]).1 ==> shards[i].0 == full[i]
}

/// Calls `reed_solomon_erasure::ReedSolomon::new`, which checks the numbers of shards and builds the
/// matrix of the code.
#[verifier::external_body]
fn new_codec(data: usize, parity: usize) -> (codec: Result<Codec, ErasureError>)
    requires
        data + parity <= usize::MAX,
    ensures
        codec_or_error(codec) == codec_for(data, parity),
{
    match ReedSolomon::new(data, parity) {
        Ok(codec) => Ok(Codec { codec: Arc::new(codec) }),
        Err(reed_solomon_erasure::Error::TooFewDataShards) => Err(ErasureError::TooFewDataShards),
        Err(reed_solomon_erasure::Error::TooFewParityShards) => Err(ErasureError::TooFewParityShards),
        Err(_) => Err(ErasureError::TooManyShards),
    }
}

/// Calls `Arc::clone`, which shares the codec.
#[verifier::external_body]
fn codec_clone(codec: &Codec) -> (shared: Codec)
    ensures
        codec_shards(shared) == codec_shards(*codec),
{
    Codec { codec: Arc::clone(&codec.codec) }
}

/// Calls `reed_solomon_erasure::ReedSolomon::reconstruct`, which computes the shards that are missing
/// from those that are present, in place. If it returns an error, nothing was written. What the
/// missing shards become is a function of the numbers of shards and of the shards alone, and is left
/// without a definition; they keep their lengths. If the shards that are present are some of data
/// shards and the parity shards computed from them, the missing ones become the others: any `data` of
/// the shards determine the rest.
#[verifier::external_body]
pub(crate) fn reconstruct(codec: &Codec, shards: &mut Vec<(Vec<u8>, bool)>) -> (done: Result<
    (),
    ErasureError,
>)
    ensures
        done == reconstruct_result(
            codec_shards(*codec).0,
            codec_shards(*codec).1,
            shards_of(old(shards)@),
        ),
        done is Err ==> shards_of(final(shards)@) == shards_of(old(shards)@),
        final(shards)@.len() == old(shards)@.len(),
        forall|i: int|
            #![trigger final(shards)@[i]]
            0 <= i < final(shards)@.len() ==> {
                let before = shards_of(old(shards)@);
                let (data, parity) = codec_shards(*codec);
                &&& final(shards)@[i].1 == before[i].1
                &&& final(shards)@[i].0@.len() == before[i].0.len()
                &&& before[i].1 ==> final(shards)@[i].0@ == before[i].0
                &&& done is Ok && !before[i].1 ==> final(shards)@[i].0@ == reconstructed(
                    data,
                    parity,
                    before,
                )[i]
            },
        forall|full: Seq<Seq<u8>>, i: int|
            #![trigger full[i], final(shards)@[i]]
            done is Ok && encodes(codec_shards(*codec).0, codec_shards(*codec).1, full) && agrees(
                shards_of(old(shards)@),
                full,
            ) && 0 <= i < full.len() ==> final(shards)@[i].0@ == full[i],
{
    match codec.codec.reconstruct(shards) {
        Ok(()) => Ok(()),
        Err(reed_solomon_erasure::Error::TooFewShards) => Err(ErasureError::TooFewShards),
        Err(reed_solomon_erasure::Error::TooManyShards) => Err(ErasureError::TooManyShards),
        Err(reed_solomon_erasure::Error::EmptyShard) => Err(ErasureError::EmptyShard),
        Err(reed_solomon_erasure::Error::TooFewShardsPresent) => Err(ErasureError::TooFewShardsPresent),
        Err(_) => Err(ErasureError::IncorrectShardSize),
    }
}

/// Calls `lazy_lru::LruCache::new`, which holds no entry.
#[verifier::external_body]
fn lru_new(capacity: usize) -> (lru: CodecLru)
    requires
        capacity <= 0x1_0000,
    ensures
        cached(lru) == no_codecs(),
        lru_capacity(lru) == capacity,
{
    CodecLru { lru: LruCache::new(capacity) }
}

/// Calls `lazy_lru::LruCache::get`, which gives the entry of a key if there is one, and shares the
/// codec in it.
#[verifier::external_body]
fn lru_get(lru: &CodecLru, key: (usize, usize)) -> (entry: Option<Result<Codec, ErasureError>>)
    ensures
        match entry {
            Some(entry) => cached(*lru).dom().contains(key) && codec_or_error(entry) == cached(
                *lru,
            )[key],
            None => !cached(*lru).dom().contains(key),
        },
{
    match lru.lru.get(&key) {
        Some(Ok(codec)) => Some(Ok(Codec { codec: Arc::clone(&codec.codec) })),
        Some(Err(e)) => Some(Err(*e)),
        None => None,
    }
}

/// Calls `lazy_lru::LruCache::put`, which sets the entry of a key. When there are then twice as many
/// entries as the capacity or more, as many as the capacity are kept, those that were used last. The
/// new entry is one of them; which ones the others are is left unsaid.
#[verifier::external_body]
fn lru_put(lru: &mut CodecLru, key: (usize, usize), entry: Result<Codec, ErasureError>)
    requires
        lru_capacity(*old(lru)) <= 0x1_0000,
    ensures
        lru_capacity(*final(lru)) == lru_capacity(*old(lru)),
        cached(*final(lru)).submap_of(cached(*old(lru)).insert(key, codec_or_error(entry))),
        ({
            let all = cached(*old(lru)).insert(key, codec_or_error(entry));
            let num_kept = cached(*final(lru)).dom().len();
            let capacity = lru_capacity(*old(lru));
            num_kept == if all.dom().len() < 2 * capacity {
                all.dom().len()
            } else {
                capacity as nat
            }
        }),
        lru_capacity(*old(lru)) > 0 ==> cached(*final(lru)).dom().contains(key),
{
    lru.lru.put(key, entry);
}

/// Every entry of the cache is what making the codec of its key gives.
pub struct CachePredicate;

impl RwLockPredicate<CodecLru> for CachePredicate {
    open spec fn inv(self, lru: CodecLru) -> bool {
        &&& lru_capacity(lru) == ReedSolomonCache::CAPACITY
        &&& forall|key: (usize, usize)| #[trigger]
            cached(lru).dom().contains(key) ==> cached(lru)[key] == codec_for(key.0, key.1)
    }
}

/// The codec of a key that is cached; if none is, the one that was made, which is cached from then on.
pub fn keep_codec(
    lru: &mut CodecLru,
    key: (usize, usize),
    made: Result<Codec, ErasureError>,
) -> (codec: Result<Codec, ErasureError>)
    requires
        CachePredicate.inv(*old(lru)),
        codec_or_error(made) == codec_for(key.0, key.1),
    ensures
        CachePredicate.inv(*final(lru)),
        cached(*final(lru)).dom().contains(key),
        cached(*old(lru)).dom().contains(key) ==> cached(*final(lru)) == cached(*old(lru)),
        cached(*final(lru)).submap_of(cached(*old(lru)).insert(key, codec_for(key.0, key.1))),
        codec_or_error(codec) == codec_for(key.0, key.1),
{
    if let Some(entry) = lru_get(lru, key) {
        return entry;
    }
    let shared = match &made {
        Ok(codec) => Ok(codec_clone(codec)),
        Err(e) => Err(*e),
    };
    let ghost all = cached(*lru).insert(key, codec_or_error(shared));
    lru_put(lru, key, shared);
    assert(cached(*lru).submap_of(all));
    assert forall|k: (usize, usize)| #[trigger] cached(*lru).dom().contains(k) implies cached(
        *lru,
    )[k] == codec_for(k.0, k.1) by {
        assert(all.dom().contains(k));
        assert(all[k] == cached(*lru)[k]);
    }
    made
}

/// Codecs that were made before.
pub struct ReedSolomonCache {
    cache: RwLock<CodecLru, CachePredicate>,
}

impl Default for ReedSolomonCache {
    fn default() -> ReedSolomonCache {
        let lru = lru_new(Self::CAPACITY);
        ReedSolomonCache { cache: RwLock::new(lru, Ghost(CachePredicate)) }
    }
}

impl ReedSolomonCache {
    pub const CAPACITY: usize = 4 * DATA_SHREDS_PER_FEC_BLOCK;

    /// The codec for the given numbers of shards.
    pub fn get(&self, data_shards: usize, parity_shards: usize) -> (codec: Result<
        Codec,
        ErasureError,
    >)
        requires
            data_shards + parity_shards <= usize::MAX,
        ensures
            codec_or_error(codec) == codec_for(data_shards, parity_shards),
            match codec {
                Ok(codec) => data_shards > 0 && parity_shards > 0 && data_shards + parity_shards
                    <= 256 && codec_shards(codec) == (data_shards, parity_shards),
                Err(e) => {
                    &&& data_shards == 0 ==> e == ErasureError::TooFewDataShards
                    &&& data_shards > 0 && parity_shards == 0 ==> e
                        == ErasureError::TooFewParityShards
                    &&& data_shards > 0 && parity_shards > 0 ==> data_shards + parity_shards > 256
                        && e == ErasureError::TooManyShards
                },
            },
    {
        let key = (data_shards, parity_shards);
        // Read from the cache with a shared lock.
        let handle = self.cache.acquire_read();
        let entry = lru_get(handle.borrow(), key);
        handle.release_read();
        if let Some(entry) = entry {
            return entry;
        }
        // Make the codec outside the locks, and keep it unless another thread has been faster.

        let made = new_codec(data_shards, parity_shards);
        let (mut lru, handle) = self.cache.acquire_write();
        let codec = keep_codec(&mut lru, key, made);
        handle.release_write(lru);
        codec
    }
}

} // verus!
