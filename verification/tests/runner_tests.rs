//! Tests for the replication runner: determinism under a seeded source,
//! the reservation trade-off, and the executor framework.

use probability::distribution::{Exponential, Gaussian, Sample, Uniform};
use simulator::event::PerfMeasure;
use simulator::generator::CallSamples;
use simulator::runner::{run_replication, EventRunner};
use simulator::logic::{EventProcessor, Shared};
use simulator::sampler::{AntitheticSampler, DeterministicSource, UniformSource};
use simulator::sim_exec::{SimExecutor, SimStatus, ToEventIterator};

/// Adapter so the probability crate's distributions can draw from a
/// counter source.
#[derive(Clone)]
struct PlainSource(DeterministicSource);

impl probability::source::Source for PlainSource {
    fn read_u64(&mut self) -> u64 {
        self.0.next_u64()
    }
}

/// Adapter so the distributions can draw through the antithetic sampler.
struct MirrorSource<'a, S: UniformSource>(&'a mut AntitheticSampler<S>);

impl<S: UniformSource> probability::source::Source for MirrorSource<'_, S> {
    fn read_u64(&mut self) -> u64 {
        self.0.read_u64()
    }
}

/// A deterministic source with well-spread bits, for distributions that
/// reject and redraw: a plain counter's complements make the Gaussian
/// sampler reject forever.
struct ScrambledSource(u64);

impl UniformSource for ScrambledSource {
    fn next_u64(&mut self) -> u64 {
        self.0 = self.0.wrapping_add(0x9E3779B97F4A7C15);
        let mut z = self.0;
        z = (z ^ (z >> 30)).wrapping_mul(0xBF58476D1CE4E5B9);
        z = (z ^ (z >> 27)).wrapping_mul(0x94D049BB133111EB);
        z ^ (z >> 31)
    }
}

/// The call model of the simulator: shifted-exponential durations,
/// exponential inter-arrival gaps, and uniform or Gaussian variates for
/// the vehicle, converted to the library's scaled integers.
struct CallModel {
    duration: Exponential,
    duration_loc: f64,
    inter_arrival: Exponential,
    tower: Uniform,
    velocity: Gaussian,
    position: Uniform,
    direction: Uniform,
}

impl CallModel {
    fn baseline() -> Self {
        CallModel {
            duration: Exponential::new(1.0 / 99.83189),
            duration_loc: 10.004,
            inter_arrival: Exponential::new(1.0 / 1.36982),
            tower: Uniform::new(0.0, 20.0),
            velocity: Gaussian::new(120.072, 9.0186),
            position: Uniform::new(0.0, 2000.0),
            direction: Uniform::new(0.0, 1.0),
        }
    }

    fn to_samples(&self, raw: [f64; 6]) -> CallSamples {
        let clamp_ms = |seconds: f64| -> u64 { (seconds * 1000.0).clamp(0.0, 1.0e15) as u64 };
        CallSamples {
            call_duration_ms: clamp_ms(raw[0]),
            inter_arrival_ms: clamp_ms(raw[1]),
            tower_draw: (raw[2] * 1000.0).clamp(0.0, 19_999.0) as u64,
            velocity_mmh: (raw[3] * 1.0e6).clamp(1.0, 1.0e9) as u64,
            position_mm: (raw[4] * 1000.0).clamp(0.0, 2.0e6) as u64,
            direction_draw: (raw[5] * 1.0e6).clamp(0.0, 1.0e6) as u64,
        }
    }

    /// Draw one sample set per event from a plain source.
    fn sample_events(&self, seed: u64, n: usize) -> Vec<CallSamples> {
        let mut src = PlainSource(DeterministicSource::new(seed));
        (0..n)
            .map(|_| {
                let raw = [
                    self.sample_one(0, &mut src),
                    self.sample_one(1, &mut src),
                    self.sample_one(2, &mut src),
                    self.sample_one(3, &mut src),
                    self.sample_one(4, &mut src),
                    self.sample_one(5, &mut src),
                ];
                self.to_samples(raw)
            })
            .collect()
    }

    /// Draw one antithetic pair of sample sets per event.
    fn sample_event_pairs(&self, seed: u64, n: usize) -> (Vec<CallSamples>, Vec<CallSamples>) {
        let mut source = ScrambledSource(seed);
        let mut list_a = Vec::new();
        let mut list_b = Vec::new();
        for _ in 0..n {
            let mut raw_a = [0.0; 6];
            let mut raw_b = [0.0; 6];
            for v in 0..6 {
                let mut sampler = AntitheticSampler::new(source);
                sampler.prepare(10);
                raw_a[v] = self.sample_one(v, &mut MirrorSource(&mut sampler));
                sampler.drain();
                raw_b[v] = self.sample_one(v, &mut MirrorSource(&mut sampler));
                source = sampler.into_source();
            }
            list_a.push(self.to_samples(raw_a));
            list_b.push(self.to_samples(raw_b));
        }
        (list_a, list_b)
    }

    fn sample_one<S: probability::source::Source>(&self, which: usize, src: &mut S) -> f64 {
        match which {
            0 => self.duration.sample(src) + self.duration_loc,
            1 => self.inter_arrival.sample(src),
            2 => self.tower.sample(src),
            3 => self.velocity.sample(src),
            4 => self.position.sample(src),
            _ => self.direction.sample(src),
        }
    }
}

fn blocking_ratio(pm: &PerfMeasure) -> f64 {
    if pm.initiated == 0 {
        0.0
    } else {
        pm.blocked_calls as f64 / pm.initiated as f64
    }
}

fn dropping_ratio(pm: &PerfMeasure) -> f64 {
    if pm.initiated == 0 {
        0.0
    } else {
        pm.dropped_calls as f64 / pm.initiated as f64
    }
}

/// With a counter-based source, two invocations of the same replications
/// produce identical records and identical performance rows.
#[test]
fn test_determinism_across_invocations() {
    let model = CallModel::baseline();
    let runs = 10;
    let events = 2_000;

    let invoke = || -> (Vec<PerfMeasure>, Vec<String>) {
        let mut measures = Vec::new();
        let mut rows = Vec::new();
        for run in 1..=runs {
            let samples = model.sample_events(run as u64, events);
            let (records, pm) = run_replication(run, &samples, 0, 0).unwrap();
            rows.push(format!(
                "{},{}",
                blocking_ratio(&pm),
                dropping_ratio(&pm)
            ));
            // spot-check that the record log itself is reproducible
            if run == 1 {
                rows.push(format!("{:?}", records.first()));
                rows.push(format!("{:?}", records.last()));
                rows.push(records.len().to_string());
            }
            measures.push(pm);
        }
        (measures, rows)
    };

    let (pm1, rows1) = invoke();
    let (pm2, rows2) = invoke();
    assert_eq!(pm1, pm2);
    assert_eq!(rows1, rows2);
}

/// Two runs seeded differently generally differ.
#[test]
fn test_different_seeds_differ() {
    let model = CallModel::baseline();
    let a = model.sample_events(1, 500);
    let b = model.sample_events(2, 500);
    let (rec_a, _) = run_replication(1, &a, 0, 0).unwrap();
    let (rec_b, _) = run_replication(1, &b, 0, 0).unwrap();
    assert_ne!(rec_a, rec_b);
}

/// Record times never decrease over a full run.
#[test]
fn test_record_times_nondecreasing() {
    let model = CallModel::baseline();
    let samples = model.sample_events(7, 2_000);
    let (records, _) = run_replication(1, &samples, 0, 0).unwrap();
    assert!(records.len() >= 2_000);
    for pair in records.windows(2) {
        assert!(pair[0].time <= pair[1].time);
    }
}

/// A sample set whose clock cannot fit is rejected as a whole.
#[test]
fn test_replication_overflow_rejected() {
    let huge = CallSamples {
        call_duration_ms: u64::MAX,
        inter_arrival_ms: u64::MAX,
        tower_draw: 0,
        velocity_mmh: 1,
        position_mm: 0,
        direction_draw: 0,
    };
    assert!(run_replication(1, &vec![huge], 0, 0).is_none());
}

/// Reserving a guard band trades new calls for handovers: over paired
/// antithetic runs, blocking grows and dropping shrinks.
#[test]
fn test_paired_blocking_inequality() {
    let model = CallModel::baseline();
    let runs = 40;
    let events = 1_000;

    let mean_ratios = |reserve: usize| -> (f64, f64) {
        let mut blocked_sum = 0.0;
        let mut dropped_sum = 0.0;
        for run in 1..=runs {
            let (samples_a, samples_b) = model.sample_event_pairs(run as u64, events);
            let (_, pm_a) = run_replication(run, &samples_a, reserve, 0).unwrap();
            let (_, pm_b) = run_replication(run, &samples_b, reserve, 0).unwrap();
            blocked_sum += (blocking_ratio(&pm_a) + blocking_ratio(&pm_b)) / 2.0;
            dropped_sum += (dropping_ratio(&pm_a) + dropping_ratio(&pm_b)) / 2.0;
        }
        (blocked_sum / runs as f64, dropped_sum / runs as f64)
    };

    let (blocked_r0, dropped_r0) = mean_ratios(0);
    let (blocked_r1, dropped_r1) = mean_ratios(1);
    println!(
        "reserve 0: blocking {}, dropping {}; reserve 1: blocking {}, dropping {}",
        blocked_r0, dropped_r0, blocked_r1, dropped_r1
    );
    assert!(blocked_r1 > blocked_r0);
    assert!(dropped_r1 < dropped_r0);
}

#[test]
fn test_call_event_gen() {
    let model = CallModel::baseline();
    let num_events = 100000;
    println!("generating {} events", num_events);
    let (samples_a, samples_b) = model.sample_event_pairs(1, num_events);
    let generator = simulator::generator::CallEventGenerator::new(1);
    let mut pairs = generator.antithetic();
    let mut call_events = Vec::with_capacity(num_events);
    for (a, b) in samples_a.iter().zip(samples_b.iter()) {
        call_events.push(pairs.next_pair(a, b).unwrap());
    }
    assert_eq!(call_events.len(), num_events);
    println!("{} events generated", num_events);
}

/// Warm-up skips records, and the denominator counts the calls initiated
/// beyond the warm-up window.
#[test]
fn test_warmup_skips_records() {
    let model = CallModel::baseline();
    let samples = model.sample_events(11, 300);
    let (records, pm_all) = run_replication(1, &samples, 0, 0).unwrap();
    let (_, pm_skip) = run_replication(1, &samples, 0, 10).unwrap();
    // the largest call index is unchanged by skipping early records, so
    // the denominator shrinks by exactly the warm-up count
    let max_idx = records.iter().map(|r| r.idx).max().unwrap();
    assert_eq!(pm_all.initiated, max_idx);
    assert_eq!(pm_skip.initiated, max_idx - 10);
}

/// The executor framework drives a runner to completion.
#[test]
fn test_executor_runs_simulation() {
    let model = CallModel::baseline();
    let samples = model.sample_events(3, 200);

    // the same events, once through the executor and once directly
    let (records, _) = run_replication(1, &samples, 0, 0).unwrap();

    let mut generator = simulator::generator::CallEventGenerator::new(1);
    let mut events = Vec::new();
    for s in &samples {
        events.push(generator.next_event(s).unwrap());
    }
    let processor = EventProcessor::new(1, events);
    let runner = EventRunner::init(processor, Some(Shared::new(0)));
    let mut executor = SimExecutor::from_event(runner.to_event_iter());
    let status = executor.execute();
    assert!(matches!(status, SimStatus::Continue));
    assert_eq!(executor.iter.inner.into_results(), records);
}
