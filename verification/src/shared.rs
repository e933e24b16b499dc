//! The engine behind a lock, for callers that share it.
//!
//! The lock holds a well-formed engine of a fixed configuration, and
//! nothing else.  Readers share it, a writer has it alone, so every call
//! meets the engine between two operations and never within one: what a
//! call returns is what some well-formed engine returns.  A consolidation
//! is computed outside the lock, on a job that was taken out of the
//! engine; while it runs the engine serves every other call, and refuses a
//! second cycle.

use vstd::prelude::*;
use vstd::rwlock::{RwLock, RwLockPredicate};
use crate::base::{Consolidation, CycleReport};
use crate::config::SonaConfig;
use crate::engine::{
    feedback_reward, idle_report, reward, CycleJob, EngineStats, TrajectoryOutcome, WasmSonaEngine,
};
use crate::error::SonaError;
use crate::pattern::PatternMatch;
use crate::trajectory::TrajectoryStep;

verus! {

/// What the lock holds: a well-formed engine of this configuration.
pub struct EngineInvariant {
    pub config: SonaConfig,
}

impl RwLockPredicate<WasmSonaEngine> for EngineInvariant {
    open spec fn inv(self, v: WasmSonaEngine) -> bool {
        v.wf() && v.config == self.config
    }
}

/// An engine that many callers share.
pub struct SharedEngine {
    lock: RwLock<WasmSonaEngine, EngineInvariant>,
}

impl SharedEngine {
    /// The configuration, which never changes.
    pub closed spec fn config(&self) -> SonaConfig {
        self.lock.pred().config
    }

    /// Whether `e` is a state that the lock may hold.
    pub open spec fn holds(&self, e: &WasmSonaEngine) -> bool {
        e.wf() && e.config == self.config()
    }

    /// What a cycle returns: the report of a refusal, or that of the
    /// completion of a job with the consolidation that the job asks for.
    pub open spec fn cycle_reported(&self, now_ms: u64, forced: bool, began: bool, report: CycleReport) -> bool {
        if began {
            exists|e0: WasmSonaEngine, e1: WasmSonaEngine, job: CycleJob, outcome: Consolidation|
                self.holds(&e0) && self.holds(&e1) && job.wf() && job.yields(&outcome)
                    && #[trigger] e0.cycle_completed(&job, &outcome, now_ms, report, &e1)
        } else {
            exists|e0: WasmSonaEngine|
                self.holds(&e0) && #[trigger] e0.cycle_refusal(now_ms, forced) == Some(report.status)
                    && report == idle_report(report.status)
        }
    }

    /// A shared engine with the default parameters for vectors of
    /// `hidden_dim` components.
    pub fn new(hidden_dim: usize) -> (r: Result<SharedEngine, SonaError>)
        ensures
            r is Ok <==> SonaConfig::for_dim(hidden_dim).valid(),
            r is Err ==> r->Err_0 == SonaError::InvalidInput,
            r matches Ok(s) ==> s.config() == SonaConfig::for_dim(hidden_dim),
    {
        Self::with_config(SonaConfig::new(hidden_dim))
    }

    /// A shared engine with the given parameters, if they are valid.
    pub fn with_config(config: SonaConfig) -> (r: Result<SharedEngine, SonaError>)
        ensures
            r is Ok <==> config.valid(),
            r is Err ==> r->Err_0 == SonaError::InvalidInput,
            r matches Ok(s) ==> s.config() == config,
    {
        match WasmSonaEngine::with_config(config) {
            Err(e) => Err(e),
            Ok(engine) => Ok(
                SharedEngine { lock: RwLock::new(engine, Ghost(EngineInvariant { config })) },
            ),
        }
    }

    /// Opens a trajectory, as `WasmSonaEngine::start_trajectory` does.
    pub fn start_trajectory(&self, query_embedding: Vec<i64>) -> (r: Result<u64, SonaError>)
        ensures
            exists|e0: WasmSonaEngine, e1: WasmSonaEngine|
                self.holds(&e0) && self.holds(&e1) && #[trigger] e0.began(query_embedding@, r, &e1),
    {
        let ghost embedding = query_embedding@;
        let (mut engine, handle) = self.lock.acquire_write();
        let ghost e0 = engine;
        let r = engine.start_trajectory(query_embedding);
        assert(e0.began(embedding, r, &engine));
        handle.release_write(engine);
        r
    }

    /// Appends a step, as `WasmSonaEngine::record_step` does.
    pub fn record_step(&self, trajectory_id: u64, node_id: u32, score: i64, latency_us: u64) -> (r:
        Result<(), SonaError>)
        ensures
            exists|e0: WasmSonaEngine, e1: WasmSonaEngine|
                self.holds(&e0) && self.holds(&e1) && #[trigger] e0.stepped(
                    trajectory_id,
                    TrajectoryStep { node_id, score, latency_us },
                    r,
                    &e1,
                ),
    {
        let (mut engine, handle) = self.lock.acquire_write();
        let ghost e0 = engine;
        let r = engine.record_step(trajectory_id, node_id, score, latency_us);
        assert(e0.stepped(trajectory_id, TrajectoryStep { node_id, score, latency_us }, r, &engine));
        handle.release_write(engine);
        r
    }

    /// Closes a trajectory, as `WasmSonaEngine::end_trajectory` does.
    pub fn end_trajectory(&self, trajectory_id: u64, final_score: i64) -> (r: Result<
        TrajectoryOutcome,
        SonaError,
    >)
        ensures
            exists|e0: WasmSonaEngine, e1: WasmSonaEngine|
                self.holds(&e0) && self.holds(&e1) && #[trigger] e0.ended(
                    trajectory_id,
                    final_score,
                    r,
                    &e1,
                ),
    {
        let (mut engine, handle) = self.lock.acquire_write();
        let ghost e0 = engine;
        let r = engine.end_trajectory(trajectory_id, final_score);
        assert(e0.ended(trajectory_id, final_score, r, &engine));
        handle.release_write(engine);
        r
    }

    /// Applies the fast adapter.  The output is that of one state of the
    /// engine as a whole, whatever other callers do meanwhile.
    pub fn apply_lora(&self, input: Vec<i64>) -> (r: Result<Vec<i64>, SonaError>)
        ensures
            exists|e: WasmSonaEngine| self.holds(&e) && #[trigger] e.micro_applied(input@, r),
    {
        let ghost x = input@;
        let handle = self.lock.acquire_read();
        let r = handle.borrow().apply_lora(input);
        assert(handle@.micro_applied(x, r));
        handle.release_read();
        r
    }

    /// Applies a layer of the slow adapter.  The output is that of one
    /// state of the engine as a whole.
    pub fn apply_lora_layer(&self, layer_idx: usize, input: Vec<i64>) -> (r: Result<
        Vec<i64>,
        SonaError,
    >)
        ensures
            exists|e: WasmSonaEngine|
                self.holds(&e) && #[trigger] e.base_applied(layer_idx, input@, r),
    {
        let ghost x = input@;
        let handle = self.lock.acquire_read();
        let r = handle.borrow().apply_lora_layer(layer_idx, input);
        assert(handle@.base_applied(layer_idx, x, r));
        handle.release_read();
        r
    }

    /// Flushes the fast adapter, as `WasmSonaEngine::run_instant_cycle`
    /// does.
    pub fn run_instant_cycle(&self)
        ensures
            exists|e0: WasmSonaEngine, e1: WasmSonaEngine|
                self.holds(&e0) && self.holds(&e1) && #[trigger] e0.flushed(&e1),
    {
        let (mut engine, handle) = self.lock.acquire_write();
        let ghost e0 = engine;
        engine.run_instant_cycle();
        assert(e0.flushed(&engine));
        handle.release_write(engine);
    }

    /// One cycle in two phases: the job is taken out under the lock, the
    /// consolidation is computed outside it, and its result is installed
    /// under the lock again.  Says whether a cycle began.
    fn cycle(&self, now_ms: u64, forced: bool) -> (r: (bool, CycleReport))
        ensures
            self.cycle_reported(now_ms, forced, r.0, r.1),
    {
        let (mut engine, handle) = self.lock.acquire_write();
        let ghost e0 = engine;
        let begun = engine.begin_cycle(now_ms, forced);
        handle.release_write(engine);
        let job: CycleJob = match begun {
            Err(report) => {
                assert(e0.cycle_refusal(now_ms, forced) == Some(report.status));
                return (false, report);
            },
            Ok(job) => job,
        };
        let outcome: Consolidation = job.run();
        let (mut engine, handle) = self.lock.acquire_write();
        let ghost e1 = engine;
        let ghost j = job;
        let ghost o = outcome;
        let report = engine.complete_cycle(job, outcome, now_ms);
        assert(e1.cycle_completed(&j, &o, now_ms, report, &engine));
        handle.release_write(engine);
        (true, report)
    }

    /// Runs a cycle if one is due at `now_ms`; says whether one began.
    pub fn tick(&self, now_ms: u64) -> (ran: bool)
        ensures
            exists|report: CycleReport| #[trigger] self.cycle_reported(now_ms, false, ran, report),
    {
        let r = self.cycle(now_ms, false);
        r.0
    }

    /// Runs a cycle now, if there is anything to learn from.
    pub fn force_learn(&self, now_ms: u64) -> (report: CycleReport)
        ensures
            exists|began: bool| #[trigger] self.cycle_reported(now_ms, true, began, report),
    {
        let r = self.cycle(now_ms, true);
        r.1
    }

    /// A snapshot of the counters of one state of the engine.
    pub fn get_stats(&self) -> (stats: EngineStats)
        ensures
            exists|e: WasmSonaEngine| self.holds(&e) && stats == #[trigger] e.stats(),
    {
        let handle = self.lock.acquire_read();
        let stats = handle.borrow().get_stats();
        assert(stats == handle@.stats());
        handle.release_read();
        stats
    }

    /// Enables or disables the engine, and changes nothing else.
    pub fn set_enabled(&self, enabled: bool)
        ensures
            exists|e0: WasmSonaEngine, e1: WasmSonaEngine|
                self.holds(&e0) && self.holds(&e1) && #[trigger] e0.switched(enabled, &e1),
    {
        let (mut engine, handle) = self.lock.acquire_write();
        let ghost e0 = engine;
        engine.set_enabled(enabled);
        assert(e0.switched(enabled, &engine));
        handle.release_write(engine);
    }

    /// Whether the engine was enabled when the call met it.
    pub fn is_enabled(&self) -> (enabled: bool)
        ensures
            exists|e: WasmSonaEngine| self.holds(&e) && #[trigger] e.enabled == enabled,
    {
        let handle = self.lock.acquire_read();
        let enabled = handle.borrow().is_enabled();
        assert(handle@.enabled == enabled);
        handle.release_read();
        enabled
    }

    /// The configuration.
    pub fn get_config(&self) -> (config: SonaConfig)
        ensures
            config == self.config(),
    {
        let handle = self.lock.acquire_read();
        let config = handle.borrow().get_config();
        handle.release_read();
        config
    }

    /// The reward that a piece of feedback stands for.
    pub fn learn_from_feedback(&self, success: bool, latency_ms: i64, quality: i64) -> (r: Result<
        i64,
        SonaError,
    >)
        ensures
            r == reward(success, quality),
    {
        feedback_reward(success, quality)
    }

    /// Ranks the patterns of one state of the engine.
    pub fn find_patterns(&self, query_embedding: Vec<i64>, k: usize) -> (r: Result<
        Vec<PatternMatch>,
        SonaError,
    >)
        ensures
            exists|e: WasmSonaEngine| self.holds(&e) && #[trigger] e.searched(query_embedding@, k, r),
    {
        let ghost q = query_embedding@;
        let handle = self.lock.acquire_read();
        let r = handle.borrow().find_patterns(query_embedding, k);
        assert(handle@.searched(q, k, r));
        handle.release_read();
        r
    }
}

} // verus!
