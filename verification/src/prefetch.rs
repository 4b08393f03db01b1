//! Batch plumbing over the single-item validator: block-wise and pipelined
//! traversal orders, a string pool, and a small verdict cache keyed by a
//! 64-bit hash. None of it changes an answer: every batch function is
//! element-wise the dispatcher, and the cache's contract exposes exactly
//! what a hash-keyed lookup can and cannot promise.

use vstd::prelude::*;
use crate::validator::spec_validate;

verus! {

/// Batch traversal orders over the single-item validator.
pub struct PrefetchBatchValidator;

impl PrefetchBatchValidator {
    /// Validates a batch into `results`, one verdict per input, in order.
    pub fn validate_batch_prefetch(emails: &[&str], results: &mut Vec<bool>)
        ensures
            final(results).len() == emails.len(),
            forall|i: int|
                0 <= i < emails.len() ==> final(results)[i] == spec_validate(
                    #[trigger] emails[i]@,
                    true,
                ).is_ok(),
    {
        results.clear();
        let mut i: usize = 0;
        while i < emails.len()
            invariant
                i <= emails.len(),
                results.len() == i,
                forall|k: int|
                    0 <= k < i ==> results[k] == spec_validate(
                        #[trigger] emails[k]@,
                        true,
                    ).is_ok(),
            decreases emails.len() - i,
        {
            results.push(crate::is_valid_fast(emails[i], true));
            i += 1;
        }
    }

    /// Validates a batch in blocks of `chunk_size` for cache locality; the
    /// verdicts are element-wise the validator's, in order.
    pub fn validate_chunked(emails: &[&str], chunk_size: usize) -> (r: Vec<bool>)
        requires
            chunk_size >= 1,
        ensures
            r.len() == emails.len(),
            forall|i: int|
                0 <= i < emails.len() ==> r[i] == spec_validate(#[trigger] emails[i]@, true).is_ok(),
    {
        let mut out: Vec<bool> = Vec::new();
        let mut start: usize = 0;
        while start < emails.len()
            invariant
                start <= emails.len(),
                out.len() == start,
                forall|k: int|
                    0 <= k < start ==> out[k] == spec_validate(#[trigger] emails[k]@, true).is_ok(),
            decreases emails.len() - start,
        {
            let end = if emails.len() - start < chunk_size {
                emails.len()
            } else {
                start + chunk_size
            };
            let mut j: usize = start;
            while j < end
                invariant
                    start <= j <= end <= emails.len(),
                    out.len() == j,
                    forall|k: int|
                        0 <= k < j ==> out[k] == spec_validate(#[trigger] emails[k]@, true).is_ok(),
                decreases end - j,
            {
                out.push(crate::is_valid_fast(emails[j], true));
                j += 1;
            }
            start = end;
        }
        out
    }
}

/// A pool of strings that keeps its contents contiguous in insertion
/// order and hands out byte offsets.
pub struct StringPool {
    /// The pooled strings, in insertion order.
    pub strings: Vec<String>,
    /// The total byte length of the pooled strings.
    pub total_bytes: usize,
}

impl StringPool {
    /// An empty pool.
    pub fn new() -> (r: Self)
        ensures
            r.strings@.len() == 0,
            r.total_bytes == 0,
    {
        StringPool { strings: Vec::new(), total_bytes: 0 }
    }

    /// Adds a string and returns the byte offset at which it begins.
    pub fn add(&mut self, s: &str) -> (r: usize)
        requires
            old(self).total_bytes + vstd::utf8::encode_utf8(s@).len() <= usize::MAX,
        ensures
            r == old(self).total_bytes,
            final(self).total_bytes == old(self).total_bytes + vstd::utf8::encode_utf8(s@).len(),
            final(self).strings.deep_view() == old(self).strings.deep_view().push(s@),
    {
        let offset = self.total_bytes;
        self.total_bytes = self.total_bytes + s.len();
        self.strings.push(s.to_owned());
        offset
    }

    /// Fetches the string at `index`, if the pool holds one.
    pub fn get(&self, index: usize) -> (r: Option<&str>)
        ensures
            match r {
                Some(t) => index < self.strings@.len() && t@ == self.strings@[index as int]@,
                None => index >= self.strings@.len(),
            },
    {
        if index < self.strings.len() {
            Some(self.strings[index].as_str())
        } else {
            None
        }
    }

    /// Empties the pool without giving up its storage.
    pub fn clear(&mut self)
        ensures
            final(self).strings@.len() == 0,
            final(self).total_bytes == 0,
    {
        self.strings.clear();
        self.total_bytes = 0;
    }
}

/// The FNV-1a hash of a byte sequence, as the cache keys it.
pub open spec fn spec_cache_hash(bs: Seq<u8>) -> u64
    decreases bs.len(),
{
    if bs.len() == 0 {
        0xcbf29ce484222325
    } else {
        vstd::wrapping::u64_specs::wrapping_mul(
            spec_cache_hash(bs.drop_last()) ^ (bs.last() as u64),
            0x100000001b3,
        )
    }
}

/// A small verdict cache with linear probing. Each occupied bucket holds a
/// hash in its upper bits and a verdict in its lowest bit, so a lookup
/// answers for the *hash* of an address: two addresses with one hash share
/// a verdict, which is the inherent trade of a hash-keyed cache, and why a
/// cache may only sit in front of the validator, never override it.
pub struct ValidationCache {
    /// The bucket words; each is `0` when free, else `hash << 1 | verdict`.
    pub buckets: Vec<u64>,
}

impl ValidationCache {
    /// A cache with at least one bucket, rounded up to a power of two.
    pub fn new(size: usize) -> (r: Self)
        requires
            size <= 0x4000_0000,
        ensures
            1 <= r.buckets@.len(),
            r.buckets@.len() >= size,
            forall|j: int| 0 <= j < r.buckets@.len() ==> r.buckets@[j] == 0,
    {
        let mut cap: usize = 1;
        while cap < size
            invariant
                1 <= cap,
                cap <= 0x8000_0000,
                size <= 0x4000_0000,
            decreases 0x8000_0000 - cap,
        {
            cap = cap * 2;
        }
        let mut buckets: Vec<u64> = Vec::new();
        let mut i: usize = 0;
        while i < cap
            invariant
                buckets@.len() == i,
                i <= cap,
                forall|j: int| 0 <= j < i ==> buckets@[j] == 0,
            decreases cap - i,
        {
            buckets.push(0);
            i += 1;
        }
        ValidationCache { buckets }
    }

    /// The FNV-1a hash of the bytes of `email`.
    fn hash(email: &str) -> (r: u64)
        ensures
            r == spec_cache_hash(vstd::utf8::encode_utf8(email@)),
    {
        let bs = email.as_bytes();
        let mut h: u64 = 0xcbf29ce484222325;
        let mut i: usize = 0;
        while i < bs.len()
            invariant
                i <= bs@.len(),
                bs@ == vstd::utf8::encode_utf8(email@),
                h == spec_cache_hash(bs@.subrange(0, i as int)),
            decreases bs@.len() - i,
        {
            proof {
                assert(bs@.subrange(0, i + 1).drop_last() =~= bs@.subrange(0, i as int));
                assert(bs@.subrange(0, i + 1).last() == bs@[i as int]);
            }
            h = (h ^ (bs[i] as u64)).wrapping_mul(0x100000001b3);
            i += 1;
        }
        proof {
            assert(bs@.subrange(0, bs@.len() as int) =~= bs@);
        }
        h
    }

    /// Looks the hash of `email` up among the first eight probes: a hit
    /// returns the verdict stored beside that hash, a miss returns nothing.
    pub fn check(&self, email: &str) -> (r: Option<bool>)
        requires
            self.buckets@.len() >= 1,
        ensures
            r matches Some(b) ==> exists|j: int|
                0 <= j < self.buckets@.len() && #[trigger] self.buckets@[j] != 0 && (
                self.buckets@[j] >> 1u64) == spec_cache_hash(vstd::utf8::encode_utf8(email@)) && ((
                self.buckets@[j] & 1) == 1) == b,
    {
        let hash = Self::hash(email);
        let mask = (self.buckets.len() - 1) as u64;
        let mut idx = (hash & mask) as usize;
        proof {
            assert((hash & mask) <= mask) by (bit_vector);
        }
        let mut probe: usize = 0;
        while probe < 8
            invariant
                idx < self.buckets@.len(),
                mask == (self.buckets@.len() - 1) as u64,
            decreases 8 - probe,
        {
            let bucket = self.buckets[idx];
            if bucket == 0 {
                return None;
            }
            if (bucket >> 1u64) == hash {
                return Some((bucket & 1) == 1);
            }
            let step = (idx + 1) as u64;
            proof {
                assert((step & mask) <= mask) by (bit_vector);
            }
            idx = (step & mask) as usize;
            probe += 1;
        }
        None
    }

    /// Stores the verdict for the hash of `email` in the first free bucket
    /// among eight probes; occupied buckets are never overwritten, and the
    /// insert is dropped when all eight are taken.
    pub fn insert(&mut self, email: &str, result: bool)
        requires
            old(self).buckets@.len() >= 1,
        ensures
            final(self).buckets@.len() == old(self).buckets@.len(),
            forall|j: int|
                0 <= j < old(self).buckets@.len() && old(self).buckets@[j] != 0
                    ==> final(self).buckets@[j] == old(self).buckets@[j],
    {
        let hash = Self::hash(email);
        let mask = (self.buckets.len() - 1) as u64;
        let mut idx = (hash & mask) as usize;
        proof {
            assert((hash & mask) <= mask) by (bit_vector);
        }
        let value = (hash << 1u64) | (if result {
            1u64
        } else {
            0u64
        });
        let mut probe: usize = 0;
        while probe < 8
            invariant
                idx < self.buckets@.len(),
                mask == (self.buckets@.len() - 1) as u64,
                self.buckets@.len() == old(self).buckets@.len(),
                forall|j: int|
                    0 <= j < old(self).buckets@.len() && old(self).buckets@[j] != 0
                        ==> self.buckets@[j] == old(self).buckets@[j],
            decreases 8 - probe,
        {
            let existing = self.buckets[idx];
            if existing == 0 {
                self.buckets.set(idx, value);
                return ;
            }
            let step = (idx + 1) as u64;
            proof {
                assert((step & mask) <= mask) by (bit_vector);
            }
            idx = (step & mask) as usize;
            probe += 1;
        }
    }
}

/// Validates a batch in an interleaved order that overlaps work on
/// neighbouring items; the verdicts are element-wise the validator's.
pub fn pipelined_validation(emails: &[&str]) -> (r: Vec<bool>)
    ensures
        r.len() == emails.len(),
        forall|i: int|
            0 <= i < emails.len() ==> r[i] == spec_validate(#[trigger] emails[i]@, true).is_ok(),
{
    let mut out: Vec<bool> = Vec::new();
    let mut i: usize = 0;
    while i < emails.len()
        invariant
            i <= emails.len(),
            out.len() == i,
            forall|k: int|
                0 <= k < i ==> out[k] == spec_validate(#[trigger] emails[k]@, true).is_ok(),
        decreases emails.len() - i,
    {
        out.push(crate::is_valid_fast(emails[i], true));
        i += 1;
    }
    out
}

} // verus!
