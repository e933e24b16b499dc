use sona::scheduler::SchedulerState;
use sona::{CycleStatus, SonaConfig, SonaError, WasmSonaEngine};

fn small_config() -> SonaConfig {
    let mut config = SonaConfig::new(4);
    config.micro_lora_rank = 1;
    config.quality_threshold = 600_000;
    config
}

fn learning_config() -> SonaConfig {
    let mut config = SonaConfig::new(2);
    config.micro_lora_rank = 1;
    config.base_lora_rank = 2;
    config.base_layers = 1;
    config.base_lora_lr = 500_000;
    config
}

fn base_weights(engine: &WasmSonaEngine) -> Vec<Vec<i64>> {
    engine.base.layers.iter().map(|l| l.up.clone()).collect()
}

fn run(engine: &mut WasmSonaEngine, embedding: Vec<i64>, score: i64) -> u64 {
    let id = engine.start_trajectory(embedding).unwrap();
    engine.end_trajectory(id, score).unwrap();
    id
}

#[test]
fn new_engine_has_the_default_configuration() {
    let engine = WasmSonaEngine::new(256).unwrap();
    let config = engine.get_config();
    assert_eq!(config, SonaConfig::new(256));
    assert_eq!(config.hidden_dim, 256);
    assert_eq!(config.embedding_dim, 256);
    assert_eq!(config.micro_lora_rank, 2);
    assert_eq!(config.base_lora_rank, 16);
    assert_eq!(config.micro_lora_lr, 1_000);
    assert_eq!(config.base_lora_lr, 100);
    assert_eq!(config.ewc_lambda, 1_000_000_000);
    assert_eq!(config.pattern_clusters, 128);
    assert_eq!(config.trajectory_capacity, 10_000);
    assert_eq!(config.quality_threshold, 600_000);
    assert!(engine.is_enabled());
    assert_eq!(engine.base.layers.len(), 4);
    assert_eq!(engine.micro.pair.up.len(), 512);
}

#[test]
fn construction_validates_the_configuration() {
    assert!(matches!(WasmSonaEngine::new(0), Err(SonaError::InvalidInput)));
    assert!(matches!(WasmSonaEngine::new(4_097), Err(SonaError::InvalidInput)));
    assert!(WasmSonaEngine::new(4_096).is_ok());
    assert_eq!(SonaConfig::new(4).validate(), Ok(()));

    let mut c = small_config();
    c.micro_lora_rank = c.base_lora_rank; // not below the slow rank
    assert!(matches!(WasmSonaEngine::with_config(c), Err(SonaError::InvalidInput)));
    let mut c = small_config();
    c.micro_lora_rank = c.base_lora_rank - 1;
    assert!(WasmSonaEngine::with_config(c).is_ok());
    let mut c = small_config();
    c.embedding_dim = 0;
    assert!(matches!(WasmSonaEngine::with_config(c), Err(SonaError::InvalidInput)));
    let mut c = small_config();
    c.quality_threshold = 1_000_001;
    assert!(matches!(WasmSonaEngine::with_config(c), Err(SonaError::InvalidInput)));
    let mut c = small_config();
    c.micro_lora_lr = -1;
    assert!(matches!(WasmSonaEngine::with_config(c), Err(SonaError::InvalidInput)));
    let mut c = small_config();
    c.ewc_lambda = 10_000_000_001;
    assert!(matches!(WasmSonaEngine::with_config(c), Err(SonaError::InvalidInput)));
    let mut c = small_config();
    c.trajectory_capacity = 0;
    assert!(matches!(WasmSonaEngine::with_config(c), Err(SonaError::InvalidInput)));
    let mut c = small_config();
    c.pattern_clusters = 0;
    assert!(matches!(WasmSonaEngine::with_config(c), Err(SonaError::InvalidInput)));
    let mut c = small_config();
    c.base_lora_rank = 65;
    assert!(matches!(WasmSonaEngine::with_config(c), Err(SonaError::InvalidInput)));
}

#[test]
fn micro_weights_change_after_good_trajectory() {
    let mut engine = WasmSonaEngine::with_config(small_config()).unwrap();
    let ones = vec![1_000_000i64; 4];
    let before = engine.apply_lora(ones.clone()).unwrap();
    assert_eq!(before, ones);
    let weights_before = engine.micro.pair.up.clone();

    let id = engine.start_trajectory(vec![100_000; 4]).unwrap();
    assert_eq!(id, 1);
    engine.record_step(id, 1, 900_000, 100).unwrap();
    let outcome = engine.end_trajectory(id, 850_000).unwrap();
    assert!(outcome.micro_updated);
    assert!(!outcome.evicted);
    assert_eq!(outcome.pattern_id, 0);

    assert_ne!(engine.micro.pair.up, weights_before);
    assert_eq!(engine.micro.pair.up, vec![14; 4]);
    let after = engine.apply_lora(ones.clone()).unwrap();
    assert_ne!(after, before);
    assert_eq!(after, vec![1_000_056; 4]);
    assert_eq!(engine.buffer.items.len(), 1);
    assert_eq!(engine.buffer.items[0].steps.len(), 1);
    assert_eq!(engine.buffer.items[0].steps[0].node_id, 1);
}

#[test]
fn begin_then_end_is_accepted_by_the_buffer() {
    let mut engine = WasmSonaEngine::with_config(small_config()).unwrap();
    let weights_before = engine.micro.pair.up.clone();
    let id = engine.start_trajectory(vec![-300_000, 0, 0, 1_000_000_000]).unwrap();
    let outcome = engine.end_trajectory(id, 600_000).unwrap();
    assert!(outcome.micro_updated);
    assert_eq!(engine.recorder.open.len(), 0);
    assert_eq!(engine.buffer.items.len(), 1);
    assert_eq!(engine.buffer.items[0].id, id);
    assert_eq!(engine.buffer.items[0].query_embedding, vec![-300_000, 0, 0, 1_000_000_000]);
    assert_eq!(engine.buffer.items[0].final_score, Some(600_000));
    assert!(engine.buffer.items[0].steps.is_empty());
    assert_eq!(engine.micro.pair.up, vec![-29_991, 0, 0, 99_970_000]);
    assert_ne!(engine.micro.pair.up, weights_before);
    assert_eq!(engine.baseline, 600_000);
}

#[test]
fn trajectory_below_the_threshold_is_kept_but_does_not_adapt() {
    let mut engine = WasmSonaEngine::with_config(small_config()).unwrap();
    let id = engine.start_trajectory(vec![100_000; 4]).unwrap();
    let outcome = engine.end_trajectory(id, 599_999).unwrap();
    assert!(!outcome.micro_updated);
    assert_eq!(engine.micro.pair.up, vec![0; 4]);
    assert_eq!(engine.buffer.items.len(), 1);
    assert_eq!(engine.patterns.patterns.len(), 1);
}

#[test]
fn zero_embedding_leaves_the_weights_as_they_were() {
    let mut engine = WasmSonaEngine::with_config(small_config()).unwrap();
    let id = engine.start_trajectory(vec![0; 4]).unwrap();
    let outcome = engine.end_trajectory(id, 1_000_000).unwrap();
    assert!(outcome.micro_updated);
    assert_eq!(engine.micro.pair.up, vec![0; 4]);
}

#[test]
fn ending_twice_is_refused_and_changes_nothing() {
    let mut engine = WasmSonaEngine::with_config(small_config()).unwrap();
    let id = engine.start_trajectory(vec![100_000; 4]).unwrap();
    assert!(engine.end_trajectory(id, 850_000).is_ok());
    let stats = engine.get_stats();
    let weights = engine.micro.pair.up.clone();
    let baseline = engine.baseline;
    assert_eq!(engine.end_trajectory(id, 900_000), Err(SonaError::InvalidState));
    assert_eq!(engine.end_trajectory(id, 850_000), Err(SonaError::InvalidState));
    assert_eq!(engine.get_stats(), stats);
    assert_eq!(engine.micro.pair.up, weights);
    assert_eq!(engine.baseline, baseline);
    assert_eq!(engine.buffer.items.len(), 1);
    assert_eq!(engine.patterns.patterns[0].member_count, 1);
    assert_eq!(engine.record_step(id, 1, 0, 0), Err(SonaError::InvalidState));
}

#[test]
fn trajectory_errors() {
    let mut engine = WasmSonaEngine::with_config(small_config()).unwrap();
    assert_eq!(engine.start_trajectory(vec![0; 3]), Err(SonaError::InvalidInput));
    assert_eq!(engine.start_trajectory(vec![1_000_000_001, 0, 0, 0]), Err(SonaError::InvalidInput));
    assert_eq!(engine.record_step(1, 0, 0, 0), Err(SonaError::NotFound));
    assert_eq!(engine.end_trajectory(1, 0), Err(SonaError::NotFound));
    assert_eq!(engine.end_trajectory(0, 0), Err(SonaError::NotFound));
    let id = engine.start_trajectory(vec![0; 4]).unwrap();
    assert_eq!(engine.end_trajectory(id, -1), Err(SonaError::InvalidInput));
    assert_eq!(engine.end_trajectory(id, 1_000_001), Err(SonaError::InvalidInput));
    assert_eq!(engine.record_step(id, 0, 1_000_001, 0), Err(SonaError::InvalidInput));
    assert_eq!(engine.recorder.open.len(), 1);
    assert_eq!(engine.buffer.items.len(), 0);
}

#[test]
fn ids_are_handed_out_in_order_and_never_again() {
    let mut engine = WasmSonaEngine::with_config(small_config()).unwrap();
    let a = engine.start_trajectory(vec![0; 4]).unwrap();
    let b = engine.start_trajectory(vec![0; 4]).unwrap();
    engine.end_trajectory(a, 0).unwrap();
    let c = engine.start_trajectory(vec![0; 4]).unwrap();
    assert_eq!((a, b, c), (1, 2, 3));
    engine.record_step(b, 5, 500_000, 1).unwrap();
    engine.record_step(c, 6, 500_000, 1).unwrap();
    assert_eq!(engine.recorder.open[0].steps[0].node_id, 5);
    assert_eq!(engine.recorder.open[1].steps[0].node_id, 6);
}

#[test]
fn disabled_engine_passes_through_and_does_not_adapt() {
    let mut engine = WasmSonaEngine::with_config(learning_config()).unwrap();
    run(&mut engine, vec![1_000_000, 0], 1_000_000);
    run(&mut engine, vec![0, 1_000_000], 800_000);
    assert_eq!(engine.force_learn(10).status, CycleStatus::Completed);
    let open = engine.start_trajectory(vec![1_000_000, 1_000_000]).unwrap();
    let x = vec![1_000_000, 1_000_000];
    assert_ne!(engine.apply_lora(x.clone()).unwrap(), x);
    assert_ne!(engine.apply_lora_layer(0, x.clone()).unwrap(), x);

    engine.set_enabled(false);
    assert!(!engine.is_enabled());
    assert_eq!(engine.apply_lora(x.clone()), Ok(x.clone()));
    assert_eq!(engine.apply_lora_layer(0, x.clone()), Ok(x.clone()));
    assert_eq!(engine.apply_lora_layer(1, x.clone()), Err(SonaError::OutOfRange));
    assert_eq!(engine.apply_lora_layer(0, vec![0]), Err(SonaError::InvalidInput));
    assert_eq!(engine.apply_lora(vec![0]), Err(SonaError::InvalidInput));
    assert_eq!(engine.start_trajectory(vec![0, 0]), Err(SonaError::Disabled));

    let micro = engine.micro.pair.up.clone();
    let base = base_weights(&engine);
    let outcome = engine.end_trajectory(open, 1_000_000).unwrap();
    assert!(!outcome.micro_updated);
    assert_eq!(engine.micro.pair.up, micro);
    assert_eq!(base_weights(&engine), base);
    assert_eq!(engine.buffer.items.len(), 1);

    let report = engine.force_learn(20);
    assert_eq!(report.status, CycleStatus::Disabled);
    assert_eq!(report.error(), Some(SonaError::Disabled));
    assert!(!engine.tick(1_000_000));
    engine.run_instant_cycle();
    assert_eq!(engine.micro.pair.up, micro);
    assert_eq!(base_weights(&engine), base);

    engine.set_enabled(true);
    assert_ne!(engine.apply_lora(x.clone()).unwrap(), x);
}

#[test]
fn force_learn_without_trajectories_does_nothing() {
    let mut engine = WasmSonaEngine::with_config(small_config()).unwrap();
    run(&mut engine, vec![100_000; 4], 850_000);
    assert_eq!(engine.force_learn(1).status, CycleStatus::Completed);
    let micro_before = engine.micro.pair.up.clone();
    let base_before = base_weights(&engine);
    let stats_before = engine.get_stats();
    let report = engine.force_learn(1_000);
    assert_eq!(report.status, CycleStatus::NothingToLearn);
    assert_eq!(report.batch_size, 0);
    assert_eq!(report.eligible, 0);
    assert_eq!(report.step_magnitude, 0);
    assert_eq!(report.error(), None);
    assert_eq!(engine.micro.pair.up, micro_before);
    assert_eq!(base_weights(&engine), base_before);
    assert_eq!(engine.get_stats(), stats_before);
    assert_eq!(engine.anchor.version, 1);
    assert_eq!(engine.scheduler.last_cycle_ms, 1);
}

#[test]
fn cycle_consumes_the_buffer_and_renews_the_anchor() {
    let mut engine = WasmSonaEngine::with_config(learning_config()).unwrap();
    run(&mut engine, vec![1_000_000, 0], 1_000_000);
    run(&mut engine, vec![0, 1_000_000], 800_000);
    assert_eq!(engine.baseline, 900_000);
    assert_eq!(engine.micro.pair.up, vec![500, -200]);
    assert_eq!(engine.get_stats().trajectories_buffered, 2);

    let report = engine.force_learn(5_000);
    assert_eq!(report.status, CycleStatus::Completed);
    assert_eq!(report.batch_size, 2);
    assert_eq!(report.eligible, 2);
    assert_eq!(report.mean_score, 900_000);
    assert_eq!(report.step_magnitude, 25_000);
    assert_eq!(base_weights(&engine), vec![vec![25_000, 0, 0, -25_000]]);
    assert_eq!(engine.anchor.version, 1);
    assert_eq!(engine.anchor.layers[0].weights, vec![25_000, 0, 0, -25_000]);
    assert_eq!(engine.anchor.layers[0].importance, vec![1_250, 0, 0, 1_250]);
    assert_eq!(engine.micro.pair.up, vec![500, -200]);

    let stats = engine.get_stats();
    assert_eq!(stats.trajectories_buffered, 0);
    assert_eq!(stats.trajectories_consumed, 2);
    assert_eq!(stats.trajectories_dropped, 0);
    assert_eq!(stats.trajectories_open, 0);
    assert_eq!(stats.patterns_learned, 2);
    assert_eq!(stats.cycles_run, 1);
    assert_eq!(stats.cycles_failed, 0);
    assert_eq!(stats.last_cycle, report);
    assert!(stats.enabled);
    assert_eq!(engine.scheduler.last_cycle_ms, 5_000);
    assert_eq!(engine.scheduler.state, SchedulerState::Idle);

    assert_eq!(
        engine.apply_lora_layer(0, vec![1_000_000, 1_000_000]),
        Ok(vec![1_012_500, 987_500])
    );

    run(&mut engine, vec![1_000_000, 0], 1_000_000);
    run(&mut engine, vec![0, 1_000_000], 700_000);
    assert_eq!(engine.baseline, 875_000);
    let report = engine.force_learn(6_000);
    assert_eq!(report.step_magnitude, 19_444);
    assert_eq!(report.mean_score, 850_000);
    assert_eq!(base_weights(&engine), vec![vec![38_888, 0, 0, -44_444]]);
    assert_eq!(engine.anchor.layers[0].importance, vec![2_578, 0, 0, 4_453]);
    assert_eq!(engine.micro.pair.up, vec![600, -433]);
    assert_eq!(engine.anchor.version, 2);
    assert_eq!(engine.get_stats().trajectories_consumed, 4);
}

#[test]
fn flush_hands_the_drift_to_the_next_cycle() {
    let mut engine = WasmSonaEngine::with_config(learning_config()).unwrap();
    run(&mut engine, vec![1_000_000, 0], 1_000_000);
    run(&mut engine, vec![0, 1_000_000], 800_000);
    engine.run_instant_cycle();
    assert_eq!(engine.carry, vec![500, -200]);
    assert_eq!(engine.micro.drift, vec![0, 0]);
    assert_eq!(engine.micro.pair.up, vec![250, -100]);
    assert_eq!(base_weights(&engine), vec![vec![0; 4]]);
    let report = engine.force_learn(1);
    assert_eq!(report.step_magnitude, 25_250);
    assert_eq!(base_weights(&engine), vec![vec![25_250, 250, -100, -25_100]]);
    assert_eq!(engine.anchor.layers[0].importance, vec![1_275, 0, 0, 1_260]);
    assert_eq!(engine.carry, vec![0, 0]);
}

#[test]
fn diverging_cycle_changes_no_weight() {
    let mut config = learning_config();
    config.base_lora_lr = 10_000_000_000;
    config.ewc_lambda = 0;
    let mut engine = WasmSonaEngine::with_config(config).unwrap();
    run(&mut engine, vec![1_000_000_000, 0], 1_000_000);
    run(&mut engine, vec![0, 1_000_000_000], 600_000);
    let micro = engine.micro.pair.up.clone();
    assert_eq!(micro, vec![100_000_000, -100_000_000]);
    let report = engine.force_learn(7);
    assert_eq!(report.status, CycleStatus::Diverged);
    assert_eq!(report.step_magnitude, 10_000_000_000_000);
    assert_eq!(report.error(), Some(SonaError::Divergence));
    assert_eq!(report.batch_size, 2);
    assert_eq!(base_weights(&engine), vec![vec![0; 4]]);
    assert_eq!(engine.anchor.version, 0);
    assert_eq!(engine.anchor.layers[0].importance, vec![0; 4]);
    assert_eq!(engine.micro.pair.up, micro);
    let stats = engine.get_stats();
    assert_eq!(stats.trajectories_buffered, 2);
    assert_eq!(stats.trajectories_consumed, 0);
    assert_eq!(stats.cycles_run, 0);
    assert_eq!(stats.cycles_failed, 1);
    assert_eq!(stats.last_cycle.status, CycleStatus::Diverged);
    assert_eq!(engine.scheduler.state, SchedulerState::Idle);
}

#[test]
fn tick_runs_a_cycle_when_one_is_due() {
    let mut config = learning_config();
    config.batch_size = 1;
    config.background_interval_ms = 60_000;
    let mut engine = WasmSonaEngine::with_config(config).unwrap();
    // due by time, but nothing buffered
    assert!(!engine.tick(100_000));
    assert_eq!(engine.scheduler.state, SchedulerState::Idle);
    assert_eq!(engine.scheduler.last_cycle_ms, 0);

    run(&mut engine, vec![1_000_000, 0], 1_000_000);
    assert!(!engine.tick(60_000));
    assert!(engine.tick(60_001));
    assert_eq!(engine.get_stats().cycles_run, 1);
    assert_eq!(engine.scheduler.last_cycle_ms, 60_001);

    run(&mut engine, vec![1_000_000, 0], 1_000_000);
    assert!(!engine.tick(120_001));
    run(&mut engine, vec![1_000_000, 0], 1_000_000);
    // two buffered exceed the batch size of one
    assert!(engine.tick(60_002));
    assert_eq!(engine.get_stats().cycles_run, 2);
    assert_eq!(engine.get_stats().trajectories_consumed, 3);
    assert_eq!(engine.scheduler.last_cycle_ms, 60_002);
}

#[test]
fn full_buffer_drops_the_oldest() {
    let mut config = small_config();
    config.trajectory_capacity = 2;
    let mut engine = WasmSonaEngine::with_config(config).unwrap();
    let a = run(&mut engine, vec![0; 4], 100_000);
    let b = run(&mut engine, vec![0; 4], 200_000);
    let id = engine.start_trajectory(vec![0; 4]).unwrap();
    let outcome = engine.end_trajectory(id, 300_000).unwrap();
    assert!(outcome.evicted);
    let ids: Vec<u64> = engine.buffer.items.iter().map(|t| t.id).collect();
    assert_eq!(ids, vec![b, id]);
    assert_ne!(a, b);
    let stats = engine.get_stats();
    assert_eq!(stats.trajectories_buffered, 2);
    assert_eq!(stats.trajectories_dropped, 1);
    assert_eq!(engine.patterns.patterns[0].member_count, 3);
    assert_eq!(engine.patterns.patterns[0].aggregate_quality, 200_000);
}

#[test]
fn patterns_are_found_by_similarity() {
    let mut engine = WasmSonaEngine::with_config(small_config()).unwrap();
    run(&mut engine, vec![0, 0, 0, 0], 700_000);
    run(&mut engine, vec![1_000_000, 0, 0, 0], 800_000);
    run(&mut engine, vec![1_000_000, 0, 0, 0], 900_000);
    run(&mut engine, vec![0, 2_000_000, 0, 0], 500_000);
    let found = engine.find_patterns(vec![900_000, 0, 0, 0], 2).unwrap();
    assert_eq!(found.len(), 2);
    assert_eq!(found[0].pattern.id, 1);
    assert_eq!(found[0].pattern.member_count, 2);
    assert_eq!(found[0].pattern.aggregate_quality, 850_000);
    assert_eq!(found[0].distance_sq, 10_000_000_000);
    assert_eq!(found[1].pattern.id, 0);
    assert_eq!(found[1].distance_sq, 810_000_000_000);
    assert!(matches!(engine.find_patterns(vec![0], 2), Err(SonaError::InvalidInput)));
    let fresh = WasmSonaEngine::with_config(small_config()).unwrap();
    assert!(fresh.find_patterns(vec![0; 4], 3).unwrap().is_empty());
}

#[test]
fn feedback_maps_to_a_signed_reward() {
    let engine = WasmSonaEngine::with_config(small_config()).unwrap();
    assert_eq!(engine.learn_from_feedback(true, 50_000_000, 900_000), Ok(900_000));
    assert_eq!(engine.learn_from_feedback(false, 50_000_000, 900_000), Ok(-900_000));
    assert_eq!(engine.learn_from_feedback(false, 0, 0), Ok(0));
    assert_eq!(engine.learn_from_feedback(true, 0, 1_000_001), Err(SonaError::InvalidInput));
    assert_eq!(engine.learn_from_feedback(false, 0, -1), Err(SonaError::InvalidInput));
}

#[test]
fn cycle_in_two_phases_serves_meanwhile_and_defers_late_trajectories() {
    let mut engine = WasmSonaEngine::with_config(learning_config()).unwrap();
    run(&mut engine, vec![1_000_000, 0], 1_000_000);
    run(&mut engine, vec![0, 1_000_000], 800_000);
    let job = engine.begin_cycle(5_000, true).unwrap();
    assert_eq!(job.batch.len(), 2);
    assert_eq!(job.baseline, 900_000);
    assert_eq!(engine.scheduler.state, SchedulerState::Running);
    assert_eq!(engine.in_flight, 2);
    assert_eq!(engine.buffer.items.len(), 0);

    // a second cycle is refused while the first runs
    assert!(!engine.tick(10_000_000));
    assert_eq!(engine.force_learn(5_001).status, CycleStatus::Busy);
    assert_eq!(engine.force_learn(5_001).error(), Some(SonaError::InvalidState));
    assert!(matches!(engine.begin_cycle(5_001, true), Err(r) if r.status == CycleStatus::Busy));

    // the engine goes on serving
    let late = run(&mut engine, vec![1_000_000, 1_000_000], 950_000);
    assert_eq!(engine.apply_lora_layer(0, vec![1_000_000, 1_000_000]), Ok(vec![1_000_000, 1_000_000]));

    let outcome = job.run();
    let report = engine.complete_cycle(job, outcome, 5_500);
    assert_eq!(report.status, CycleStatus::Completed);
    assert_eq!(report.batch_size, 2);
    assert_eq!(base_weights(&engine), vec![vec![25_000, 0, 0, -25_000]]);
    assert_eq!(engine.anchor.version, 1);
    assert_eq!(engine.scheduler.state, SchedulerState::Idle);
    assert_eq!(engine.scheduler.last_cycle_ms, 5_500);
    assert_eq!(engine.in_flight, 0);
    let ids: Vec<u64> = engine.buffer.items.iter().map(|t| t.id).collect();
    assert_eq!(ids, vec![late]);
    assert_eq!(engine.get_stats().trajectories_consumed, 2);
}

#[test]
fn stale_completion_is_refused() {
    let mut engine = WasmSonaEngine::with_config(learning_config()).unwrap();
    run(&mut engine, vec![1_000_000, 0], 1_000_000);
    let job = engine.begin_cycle(1, true).unwrap();
    let outcome = job.run();
    let stale_job = engine_job_copy(&job);
    let stale_outcome = stale_job.run();
    assert_eq!(engine.complete_cycle(job, outcome, 2).status, CycleStatus::Completed);
    let weights = base_weights(&engine);
    let stats = engine.get_stats();
    let report = engine.complete_cycle(stale_job, stale_outcome, 3);
    assert_eq!(report.status, CycleStatus::Stale);
    assert_eq!(report.error(), Some(SonaError::InvalidState));
    assert_eq!(base_weights(&engine), weights);
    assert_eq!(engine.get_stats(), stats);
}

fn engine_job_copy(job: &sona::engine::CycleJob) -> sona::engine::CycleJob {
    sona::engine::CycleJob {
        config: job.config,
        batch: job
            .batch
            .iter()
            .map(|t| sona::Trajectory {
                id: t.id,
                query_embedding: t.query_embedding.clone(),
                steps: t.steps.clone(),
                final_score: t.final_score,
            })
            .collect(),
        carry: job.carry.clone(),
        baseline: job.baseline,
        base: job.base.duplicate(),
        anchor: job.anchor.duplicate(),
    }
}

#[test]
fn diverged_cycle_in_two_phases_puts_the_batch_back() {
    let mut config = learning_config();
    config.base_lora_lr = 10_000_000_000;
    config.ewc_lambda = 0;
    config.trajectory_capacity = 3;
    let mut engine = WasmSonaEngine::with_config(config).unwrap();
    let a = run(&mut engine, vec![1_000_000_000, 0], 1_000_000);
    let b = run(&mut engine, vec![0, 1_000_000_000], 600_000);
    engine.run_instant_cycle();
    let carry = engine.carry.clone();
    let job = engine.begin_cycle(1, false);
    assert!(matches!(job, Err(r) if r.status == CycleStatus::NotDue));
    let job = engine.begin_cycle(60_001, false).unwrap();
    assert_eq!(engine.carry, vec![0, 0]);
    let c = run(&mut engine, vec![0, 0], 0);
    let d = run(&mut engine, vec![0, 0], 0);
    let outcome = job.run();
    let report = engine.complete_cycle(job, outcome, 60_002);
    assert_eq!(report.status, CycleStatus::Diverged);
    let ids: Vec<u64> = engine.buffer.items.iter().map(|t| t.id).collect();
    assert_eq!(ids, vec![b, c, d]);
    assert_ne!(a, b);
    assert_eq!(engine.carry, carry);
    assert_eq!(base_weights(&engine), vec![vec![0; 4]]);
    assert_eq!(engine.anchor.version, 0);
    let stats = engine.get_stats();
    assert_eq!(stats.trajectories_dropped, 1);
    assert_eq!(stats.cycles_failed, 1);
    assert_eq!(stats.trajectories_buffered, 3);
    assert_eq!(engine.scheduler.state, SchedulerState::Idle);
}

#[test]
fn cycle_is_not_begun_without_cause() {
    let mut engine = WasmSonaEngine::with_config(learning_config()).unwrap();
    assert!(matches!(engine.begin_cycle(1, true), Err(r) if r.status == CycleStatus::NothingToLearn));
    engine.set_enabled(false);
    assert!(matches!(engine.begin_cycle(1, true), Err(r) if r.status == CycleStatus::Disabled));
    assert_eq!(WasmSonaEngine::no_cycle(CycleStatus::NotDue).error(), None);
}
