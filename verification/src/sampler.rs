//! Sources of 64-bit uniform draws and the antithetic sampler.
//!
//! The antithetic sampler wraps a source and works in three modes: before
//! `prepare` it records fresh draws; after `prepare` it serves the cached
//! draws by index, repeating the last one when the cache runs out; after
//! `drain` it replays the cache in order as complements `u64::MAX - x`, so
//! that a second sample sees the mirrored uniforms of the first.

use rand::RngCore;
use vstd::prelude::*;

verus! {

/// A provider of 64-bit draws, uniform over the full range.
///
/// Implementations may be deterministic (for reproducible runs) or backed
/// by operating-system entropy.
pub trait UniformSource: Sized {
    /// The next 64-bit draw.
    fn next_u64(&mut self) -> u64;
}

/// A deterministic source: a counter that advances by one per draw.
#[derive(Clone, Copy, Debug)]
pub struct DeterministicSource {
    /// Counter state; the next draw is this value plus one.
    pub state: u64,
}

impl DeterministicSource {
    /// A counter source starting at `seed`.
    pub fn new(seed: u64) -> (s: Self)
        ensures
            s.state == seed,
    {
        Self { state: seed }
    }
}

impl UniformSource for DeterministicSource {
    fn next_u64(&mut self) -> (r: u64)
        ensures
            final(self).state == old(self).state.wrapping_add(1),
            r == final(self).state,
    {
        self.state = self.state.wrapping_add(1);
        self.state
    }
}

/// A source backed by the operating system's entropy.
pub struct EntropySource {}

impl EntropySource {
    /// A fresh handle on the operating system's entropy source.
    pub fn new() -> Self {
        Self {  }
    }

    /// Relies on rand's `OsRng`, through `RngCore::next_u64`: one 64-bit
    /// draw from the operating system's entropy source.  Nothing is
    /// promised of the value.  Aborts only if the operating system cannot
    /// provide entropy, which rand documents as the call's own behaviour.
    #[verifier::external_body]
    fn draw(&mut self) -> u64 {
        rand::rngs::OsRng.next_u64()
    }
}

impl UniformSource for EntropySource {
    fn next_u64(&mut self) -> u64 {
        self.draw()
    }
}

/// The draw served by one read in drain mode.
pub open spec fn drain_value(store: Seq<u64>) -> u64 {
    if store.len() == 0 {
        0u64
    } else {
        (u64::MAX - store[0]) as u64
    }
}

/// The cache left behind by one read in drain mode: the first draw leaves,
/// except that the last one is kept and served forever.
pub open spec fn drain_step(store: Seq<u64>) -> Seq<u64> {
    if store.len() <= 1 {
        store
    } else {
        store.drop_first()
    }
}

/// The draw served in cache mode at cursor `pos`: the cached draw there,
/// or the last one when the cache has run out.
pub open spec fn cache_value(store: Seq<u64>, pos: int) -> u64 {
    if pos < store.len() {
        store[pos]
    } else {
        store[store.len() - 1]
    }
}

/// The cursor after one read in cache mode.
pub open spec fn cache_step(store: Seq<u64>, pos: int) -> int {
    if pos < store.len() {
        pos + 1
    } else {
        pos
    }
}

/// The cache after `k` reads in drain mode.
pub open spec fn drain_store_after(store: Seq<u64>, k: nat) -> Seq<u64>
    decreases k,
{
    if k == 0 {
        store
    } else {
        drain_step(drain_store_after(store, (k - 1) as nat))
    }
}

/// The draw served by the `k`-th read (counting from zero) in drain mode.
pub open spec fn drain_read(store: Seq<u64>, k: nat) -> u64 {
    drain_value(drain_store_after(store, k))
}

/// The cursor after `k` reads in cache mode.
pub open spec fn cache_pos_after(store: Seq<u64>, k: nat) -> int
    decreases k,
{
    if k == 0 {
        0
    } else {
        cache_step(store, cache_pos_after(store, (k - 1) as nat))
    }
}

/// The draw served by the `k`-th read (counting from zero) in cache mode.
pub open spec fn cache_read(store: Seq<u64>, k: nat) -> u64 {
    cache_value(store, cache_pos_after(store, k))
}

/// After `k` drain reads of a non-empty cache, the first `min(k, len - 1)`
/// draws have left.
pub proof fn lemma_drain_store_after(store: Seq<u64>, k: nat)
    requires
        store.len() >= 1,
    ensures
        drain_store_after(store, k) == if k <= store.len() - 1 {
            store.skip(k as int)
        } else {
            store.skip(store.len() - 1)
        },
    decreases k,
{
    if k == 0 {
        assert(store.skip(0) =~= store);
    } else {
        lemma_drain_store_after(store, (k - 1) as nat);
        let prev = drain_store_after(store, (k - 1) as nat);
        if k - 1 <= store.len() - 1 {
            assert(prev == store.skip(k - 1));
            if prev.len() <= 1 {
                assert(drain_step(prev) == prev);
                assert(store.skip(store.len() - 1) =~= store.skip(k - 1));
            } else {
                assert(drain_step(prev) =~= store.skip(k as int));
            }
        } else {
            assert(prev == store.skip(store.len() - 1));
            assert(prev.len() == 1);
        }
    }
}

/// After `k` cache reads, the cursor stands at `min(k, len)`.
pub proof fn lemma_cache_pos_after(store: Seq<u64>, k: nat)
    ensures
        cache_pos_after(store, k) == if k <= store.len() {
            k as int
        } else {
            store.len() as int
        },
    decreases k,
{
    if k > 0 {
        lemma_cache_pos_after(store, (k - 1) as nat);
    }
}

/// The antithetic mirror law: for every cache and every position, the draw
/// served by the `k`-th read of the first pass (cache mode) and the draw
/// served by the `k`-th read of the second pass (drain mode) are
/// complements, so each underlying uniform `U` is paired with
/// `u64::MAX - U`.
pub proof fn lemma_antithetic_mirror(store: Seq<u64>, k: nat)
    requires
        store.len() >= 1,
    ensures
        cache_read(store, k) + drain_read(store, k) == u64::MAX,
{
    lemma_cache_pos_after(store, k);
    lemma_drain_store_after(store, k);
}

/// An antithetic sampler over an underlying source.
///
/// One sampler serves both halves of one antithetic pair: the first sample
/// is drawn through the cache, then the sampler is switched to drain mode
/// and the second sample sees the complements of the same draws.
pub struct AntitheticSampler<S: UniformSource> {
    /// The wrapped source of draws.
    pub source: S,
    /// Cursor into the cache while serving the first sample; `None` while
    /// recording.
    pub cached: Option<usize>,
    /// Whether the sampler replays complements.
    pub drain: bool,
    /// The cached draws.
    pub sample_store: Vec<u64>,
}

impl<S: UniformSource> AntitheticSampler<S> {
    /// A cache that is being served never runs dry: `prepare` fills it
    /// before the cursor starts walking it.
    pub open spec fn wf(&self) -> bool {
        (!self.drain && self.cached is Some) ==> self.sample_store@.len() >= 1
    }

    /// Wrap a source; the sampler starts in recording mode with an empty
    /// cache.
    pub fn new(source: S) -> (s: Self)
        ensures
            s.wf(),
            s.cached is None,
            !s.drain,
            s.sample_store@ == Seq::<u64>::empty(),
    {
        Self { source, cached: None, drain: false, sample_store: Vec::new() }
    }

    /// Pre-draw `num` samples from the source into the cache and rewind
    /// the cursor.
    pub fn prepare(&mut self, num: usize)
        requires
            num >= 1,
        ensures
            final(self).wf(),
            final(self).cached == Some(0usize),
            final(self).drain == old(self).drain,
            final(self).sample_store@.len() == old(self).sample_store@.len() + num,
            final(self).sample_store@.subrange(0, old(self).sample_store@.len() as int) == old(
                self,
            ).sample_store@,
    {
        self.cached = Some(0);
        let ghost n0 = self.sample_store@.len();
        let mut i: usize = 0;
        while i < num
            invariant
                i <= num,
                self.sample_store@.len() == n0 + i,
                self.sample_store@.subrange(0, n0 as int) =~= old(self).sample_store@,
                self.cached == Some(0usize),
                self.drain == old(self).drain,
            decreases num - i,
        {
            let draw = self.source.next_u64();
            self.sample_store.push(draw);
            proof {
                assert(self.sample_store@.subrange(0, n0 as int) =~= old(
                    self,
                ).sample_store@);
            }
            i += 1;
        }
    }

    /// Switch to drain mode: further reads replay the cache as
    /// complements.
    pub fn drain(&mut self)
        ensures
            final(self).wf(),
            final(self).drain,
            final(self).cached == old(self).cached,
            final(self).sample_store@ == old(self).sample_store@,
    {
        self.drain = true;
    }

    /// Hand the wrapped source back.
    pub fn into_source(self) -> (s: S)
        ensures
            s == self.source,
    {
        self.source
    }

    /// Serve one draw.
    ///
    /// In drain mode the cache is replayed in order as complements, the
    /// last draw (or zero for an empty cache) repeating forever.  In cache
    /// mode the cursor walks the cache, the last draw repeating once the
    /// cache runs out.  In recording mode a fresh draw is taken from the
    /// source and cached.
    pub fn read_u64(&mut self) -> (r: u64)
        requires
            old(self).wf(),
        ensures
            final(self).wf(),
            final(self).drain == old(self).drain,
            old(self).drain ==> {
                &&& r == drain_value(old(self).sample_store@)
                &&& final(self).sample_store@ == drain_step(old(self).sample_store@)
                &&& final(self).cached == old(self).cached
            },
            !old(self).drain && old(self).cached is None ==> {
                &&& final(self).sample_store@ == old(self).sample_store@.push(r)
                &&& final(self).cached == old(self).cached
            },
            !old(self).drain ==> (old(self).cached matches Some(pos) ==> {
                &&& r == cache_value(old(self).sample_store@, pos as int)
                &&& final(self).sample_store@ == old(self).sample_store@
                &&& final(self).cached == Some(
                    cache_step(old(self).sample_store@, pos as int) as usize,
                )
            }),
    {
        if self.drain {
            if self.sample_store.len() == 0 {
                0
            } else if self.sample_store.len() == 1 {
                u64::MAX - self.sample_store[0]
            } else {
                u64::MAX - self.sample_store.remove(0)
            }
        } else {
            match self.cached {
                None => {
                    let sample = self.source.next_u64();
                    self.sample_store.push(sample);
                    sample
                },
                Some(pos) => {
                    if self.sample_store.len() > pos {
                        let sample = self.sample_store[pos];
                        self.cached = Some(pos + 1);
                        sample
                    } else {
                        self.sample_store[self.sample_store.len() - 1]
                    }
                },
            }
        }
    }
}

} // verus!
