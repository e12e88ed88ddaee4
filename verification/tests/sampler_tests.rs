//! Tests for the sources and the antithetic sampler, including its use
//! under real distributions.

use probability::distribution::{Distribution, Exponential, Gaussian, Sample, Uniform};
use simulator::sampler::{AntitheticSampler, DeterministicSource, UniformSource};

/// A source that always serves the same draw.
struct MockSource(u64);

impl probability::source::Source for MockSource {
    fn read_u64(&mut self) -> u64 {
        self.0
    }
}

/// Adapter so the probability crate's distributions can draw from the
/// antithetic sampler.
struct SamplerSource<'a, S: UniformSource>(&'a mut AntitheticSampler<S>);

impl<S: UniformSource> probability::source::Source for SamplerSource<'_, S> {
    fn read_u64(&mut self) -> u64 {
        self.0.read_u64()
    }
}

/// A deterministic source with well-spread bits, for distributions that
/// reject and redraw: a plain counter's complements make the Gaussian
/// sampler reject forever.
struct ScrambledSource(u64);

impl UniformSource for ScrambledSource {
    fn next_u64(&mut self) -> u64 {
        self.0 = self.0.wrapping_add(0x9E3779B97F4A7C15);
        let mut z = self.0;
        z = (z ^ (z >> 30)).wrapping_mul(0xBF58476D1CE4E5B9);
        z = (z ^ (z >> 27)).wrapping_mul(0x94D049BB133111EB);
        z ^ (z >> 31)
    }
}

#[test]
fn test_deterministic_source_counts() {
    let mut src = DeterministicSource::new(5);
    assert_eq!(src.next_u64(), 6);
    assert_eq!(src.next_u64(), 7);
    assert_eq!(src.next_u64(), 8);
}

/// The second pass serves the complements of the first pass's draws, in
/// order.
#[test]
fn test_antithetic_sampler_mirror() {
    let mut sampler = AntitheticSampler::new(DeterministicSource::new(100));
    sampler.prepare(3);
    let a: Vec<u64> = (0..3).map(|_| sampler.read_u64()).collect();
    assert_eq!(a, vec![101, 102, 103]);
    sampler.drain();
    let b: Vec<u64> = (0..3).map(|_| sampler.read_u64()).collect();
    assert_eq!(b, vec![u64::MAX - 101, u64::MAX - 102, u64::MAX - 103]);
}

/// A consumer that outruns the cache is served the last draw again, in
/// both passes.
#[test]
fn test_antithetic_sampler_cache_fallback() {
    let mut sampler = AntitheticSampler::new(DeterministicSource::new(0));
    sampler.prepare(2);
    assert_eq!(sampler.read_u64(), 1);
    assert_eq!(sampler.read_u64(), 2);
    assert_eq!(sampler.read_u64(), 2);
    assert_eq!(sampler.read_u64(), 2);
    sampler.drain();
    assert_eq!(sampler.read_u64(), u64::MAX - 1);
    assert_eq!(sampler.read_u64(), u64::MAX - 2);
    assert_eq!(sampler.read_u64(), u64::MAX - 2);
    assert_eq!(sampler.read_u64(), u64::MAX - 2);
}

#[test]
fn test_antithetic_iter() {
    // for uniform antithetic pairs, the average within a pair should be
    // around the midpoint of the range
    let uniform = Uniform::new(0.0, 10.0);
    let mut source = DeterministicSource::new(42);
    let mut sum = 0.0;
    let pairs = 1000;
    for _ in 0..pairs {
        let mut sampler = AntitheticSampler::new(source);
        sampler.prepare(10);
        let a = uniform.sample(&mut SamplerSource(&mut sampler));
        sampler.drain();
        let b = uniform.sample(&mut SamplerSource(&mut sampler));
        source = sampler.into_source();
        sum += (a + b) / 2.0;
    }
    let avg = sum / pairs as f64;
    println!("average: {}", avg);
    assert!((avg - 5.0).abs() < 0.2);
}

#[test]
fn test_asd() {
    let exp_dist = Exponential::new(1.0 / 99.83189);
    let res = exp_dist.distribution(99.83189);

    println!("distribution: {}", res);

    let s = exp_dist.sample(&mut MockSource(u64::MAX / 2));

    println!("sample: {}", s);
}

/// Gaussian variates can consume several draws per sample; the sampler's
/// cache keeps the two halves of each pair on the same draw sequence.
#[test]
fn test_antihetic_gaussian_iter() {
    let gaussian = Gaussian::new(120.072, 9.0186);
    let mut source = ScrambledSource(10);
    for _ in 0..100 {
        let mut sampler = AntitheticSampler::new(source);
        sampler.prepare(10);
        let a = gaussian.sample(&mut SamplerSource(&mut sampler));
        sampler.drain();
        let b = gaussian.sample(&mut SamplerSource(&mut sampler));
        source = sampler.into_source();
        println!("next pair: {:?}", (a, b));
        assert!(a.is_finite() && b.is_finite());
    }
}
