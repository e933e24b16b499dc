use sona::fixed::{SCALE, VALUE_LIMIT, WEIGHT_LIMIT};
use sona::lora::LowRankPair;
use sona::pattern::PatternMemory;
use sona::{CycleStatus, SonaConfig, WasmSonaEngine};

/// A small linear congruential generator, so that the runs repeat.
struct Lcg(u64);

impl Lcg {
    fn next(&mut self) -> u64 {
        self.0 = self.0.wrapping_mul(6364136223846793005).wrapping_add(1442695040888963407);
        self.0 >> 33
    }

    fn between(&mut self, lo: i64, hi: i64) -> i64 {
        lo + (self.next() % ((hi - lo + 1) as u64)) as i64
    }
}

fn div_toward_zero(a: i128, d: i128) -> i128 {
    if a >= 0 {
        a / d
    } else {
        -((-a) / d)
    }
}

fn reference_forward(pair: &LowRankPair, x: &[i64]) -> Vec<i64> {
    let s = SCALE as i128;
    let mut h = Vec::new();
    for j in 0..pair.rank {
        let mut acc: i128 = 0;
        for k in 0..pair.dim {
            acc += pair.down[j * pair.dim + k] as i128 * x[k] as i128;
        }
        h.push(div_toward_zero(acc, s));
    }
    let mut out = Vec::new();
    for i in 0..pair.dim {
        let mut acc: i128 = 0;
        for j in 0..pair.rank {
            acc += pair.up[i * pair.rank + j] as i128 * h[j];
        }
        let delta = div_toward_zero(pair.scale as i128 * div_toward_zero(acc, s), s);
        let v = (x[i] as i128 + delta).clamp(-(VALUE_LIMIT as i128), VALUE_LIMIT as i128);
        out.push(v as i64);
    }
    out
}

#[test]
fn forward_pass_agrees_with_a_plain_computation() {
    let mut rng = Lcg(7);
    for round in 0..60 {
        let dim = 1 + (rng.next() % 9) as usize;
        let rank = 1 + (rng.next() % 4) as usize;
        let mut pair = LowRankPair::new(dim, rank, (round as usize) % rank);
        let limit = if round % 3 == 0 { WEIGHT_LIMIT } else { 3 * SCALE };
        for p in 0..dim * rank {
            pair.up[p] = rng.between(-limit, limit);
            pair.down[p] = rng.between(-limit, limit);
        }
        let bound = if round % 2 == 0 { VALUE_LIMIT } else { 5 * SCALE };
        let x: Vec<i64> = (0..dim).map(|_| rng.between(-bound, bound)).collect();
        assert_eq!(pair.apply(&x), reference_forward(&pair, &x));
    }
}

#[test]
fn search_agrees_with_sorting_all_patterns() {
    let mut rng = Lcg(11);
    for _ in 0..40 {
        let capacity = 1 + (rng.next() % 12) as usize;
        let mut memory = PatternMemory::new(2, capacity, 200_000);
        let inserts = rng.next() % 40;
        for _ in 0..inserts {
            let x = vec![rng.between(-3, 3) * 150_000, rng.between(-3, 3) * 150_000];
            memory.insert(&x, rng.between(0, SCALE)).unwrap();
            assert!(memory.len() <= capacity);
        }
        for w in memory.patterns.windows(2) {
            assert!(w[0].id < w[1].id);
        }
        let total: u64 = memory.patterns.iter().map(|p| p.member_count).sum();
        assert!(total <= inserts);
        let q = vec![rng.between(-3, 3) * 150_000, rng.between(-3, 3) * 150_000];
        let k = (rng.next() % 15) as usize;
        let mut keys: Vec<(i128, u64, u64)> = memory
            .patterns
            .iter()
            .map(|p| {
                let d: i128 = p
                    .centroid
                    .iter()
                    .zip(q.iter())
                    .map(|(c, v)| (*c as i128 - *v as i128) * (*c as i128 - *v as i128))
                    .sum();
                (d, u64::MAX - p.member_count, p.id)
            })
            .collect();
        keys.sort();
        keys.truncate(k);
        let found = memory.find_similar(&q, k).unwrap();
        let got: Vec<(i128, u64, u64)> = found
            .iter()
            .map(|m| (m.distance_sq, u64::MAX - m.pattern.member_count, m.pattern.id))
            .collect();
        assert_eq!(got, keys);
    }
}

#[test]
fn every_trajectory_is_accounted_for() {
    let mut rng = Lcg(23);
    let mut config = SonaConfig::new(3);
    config.micro_lora_rank = 1;
    config.base_lora_rank = 2;
    config.base_layers = 2;
    config.trajectory_capacity = 5;
    config.pattern_clusters = 4;
    config.batch_size = 3;
    let mut engine = WasmSonaEngine::with_config(config).unwrap();
    let mut open: Vec<u64> = Vec::new();
    let mut begun: u64 = 0;
    let mut now: u64 = 0;
    for _ in 0..600 {
        now += rng.next() % 20_000;
        match rng.next() % 8 {
            0 | 1 | 2 => {
                let x = vec![rng.between(-SCALE, SCALE), rng.between(-SCALE, SCALE), rng.between(-SCALE, SCALE)];
                if let Ok(id) = engine.start_trajectory(x) {
                    begun += 1;
                    assert_eq!(id, begun);
                    open.push(id);
                }
            }
            3 | 4 => {
                if !open.is_empty() {
                    let id = open.remove((rng.next() as usize) % open.len());
                    assert!(engine.end_trajectory(id, rng.between(0, SCALE)).is_ok());
                    assert!(engine.end_trajectory(id, rng.between(0, SCALE)).is_err());
                }
            }
            5 => {
                if let Some(id) = open.first() {
                    engine.record_step(*id, 1, rng.between(0, SCALE), 5).unwrap();
                }
            }
            6 => {
                let buffered = engine.get_stats().trajectories_buffered;
                let version = engine.anchor.version;
                let ran = engine.tick(now);
                if ran {
                    let report = engine.get_stats().last_cycle;
                    assert_eq!(report.batch_size, buffered);
                    if report.status == CycleStatus::Completed {
                        assert_eq!(engine.get_stats().trajectories_buffered, 0);
                        assert_eq!(engine.anchor.version, version + 1);
                    } else {
                        assert_eq!(engine.anchor.version, version);
                    }
                }
            }
            _ => {
                if rng.next() % 8 == 0 {
                    engine.set_enabled(false);
                } else {
                    engine.set_enabled(true);
                    engine.run_instant_cycle();
                }
            }
        }
        let stats = engine.get_stats();
        assert_eq!(stats.trajectories_open, open.len());
        assert_eq!(
            begun,
            stats.trajectories_open as u64
                + stats.trajectories_buffered as u64
                + stats.trajectories_consumed
                + stats.trajectories_dropped
        );
        assert!(stats.trajectories_buffered <= 5);
        assert!(stats.patterns_learned <= 4);
        assert!(stats.cycles_run <= stats.trajectories_consumed);
        for layer in &engine.base.layers {
            assert!(layer.up.iter().all(|w| w.abs() <= WEIGHT_LIMIT));
        }
        assert!(engine.micro.pair.up.iter().all(|w| w.abs() <= WEIGHT_LIMIT));
        for (layer, held) in engine.base.layers.iter().zip(engine.anchor.layers.iter()) {
            assert_eq!(layer.up, held.weights);
        }
    }
    assert!(begun > 100);
    assert!(engine.get_stats().cycles_run > 0);
}
