//! The engine: configuration, recorder, buffer, pattern memory, both
//! adapters, the anchor and the scheduler under one roof.
//!
//! Every operation is stated as a relation between the engine before and
//! after it.  Operations that change nothing take `&self`; no reader can
//! see a change half made.

use vstd::prelude::*;
use crate::base::{
    consolidate, eligible_count, is_consolidation, mean_score, BaseAdapter, Consolidation,
    CycleReport, CycleStatus, EwcAnchor,
};
use crate::config::SonaConfig;
use crate::error::SonaError;
use crate::fixed::{
    check_within, div_trunc_exec, is_score, is_vector, lemma_running_mean_between, running_mean,
    zeros, SCALE, VALUE_LIMIT,
};
use crate::micro::{accumulate, accumulated, increment, MicroAdapter};
use crate::pattern::{is_ranking, PatternMatch, PatternMemory};
use crate::scheduler::{Scheduler, SchedulerState};
use crate::trajectory::{
    position, views, Trajectory, TrajectoryBuffer, TrajectoryRecorder, TrajectoryStep,
    TrajectoryView,
};

verus! {

/// The baseline before any trajectory ended (0.5).
pub const INITIAL_BASELINE: i64 = 500_000;

/// What the engine counted.
#[derive(Clone, Copy, Debug, PartialEq, Eq, Structural)]
pub struct Counters {
    /// Trajectories that ended.
    pub closed: u64,
    /// Trajectories that a completed cycle consumed.
    pub consumed: u64,
    /// Trajectories that left the full buffer unconsumed.
    pub dropped: u64,
    /// Cycles that diverged; stops counting at `u64::MAX`.
    pub cycles_failed: u64,
    /// The report of the last cycle that ran.
    pub last_cycle: CycleReport,
}

/// What the end of a trajectory did.
#[derive(Clone, Copy, Debug, PartialEq, Eq, Structural)]
pub struct TrajectoryOutcome {
    /// The pattern that the embedding joined or founded.
    pub pattern_id: u64,
    /// Whether the fast adapter was updated.
    pub micro_updated: bool,
    /// Whether the oldest buffered trajectory had to leave.
    pub evicted: bool,
}

/// A snapshot of the engine's counters.
#[derive(Clone, Copy, Debug, PartialEq, Eq, Structural)]
pub struct EngineStats {
    pub trajectories_open: usize,
    pub trajectories_buffered: usize,
    pub trajectories_consumed: u64,
    pub trajectories_dropped: u64,
    pub patterns_learned: usize,
    /// Cycles that completed.
    pub cycles_run: u64,
    pub cycles_failed: u64,
    pub last_cycle: CycleReport,
    pub enabled: bool,
}

/// The reward that a piece of feedback stands for: the quality if the
/// operation succeeded, its negative if not; no reward for what is no
/// score.
pub open spec fn reward(success: bool, quality: i64) -> Result<i64, SonaError> {
    if !is_score(quality as int) {
        Err(SonaError::InvalidInput)
    } else if success {
        Ok(quality)
    } else {
        Ok((-quality) as i64)
    }
}

/// The reward that a piece of feedback stands for.
pub fn feedback_reward(success: bool, quality: i64) -> (r: Result<i64, SonaError>)
    ensures
        r == reward(success, quality),
{
    if quality < 0 || quality > SCALE {
        return Err(SonaError::InvalidInput);
    }
    if success {
        Ok(quality)
    } else {
        Ok(-quality)
    }
}

/// The report of a cycle that did not run.
pub open spec fn idle_report(status: CycleStatus) -> CycleReport {
    CycleReport { status, batch_size: 0, eligible: 0, mean_score: 0, step_magnitude: 0 }
}

/// The adaptive engine in the hands of one owner, as the WebAssembly
/// binding drives it.  Operations that change it take `&mut self`, so
/// none can overlap another; `SharedEngine` puts it behind a lock.
pub struct WasmSonaEngine {
    pub config: SonaConfig,
    pub enabled: bool,
    pub recorder: TrajectoryRecorder,
    pub buffer: TrajectoryBuffer,
    pub patterns: PatternMemory,
    pub micro: MicroAdapter,
    pub base: BaseAdapter,
    pub anchor: EwcAnchor,
    /// What the fast adapter handed over for the next cycle.
    pub carry: Vec<i64>,
    /// Running mean of the final scores, fixed-point.
    pub baseline: i64,
    pub scheduler: Scheduler,
    /// Number of trajectories that the running cycle took out of the
    /// buffer; zero while none runs.
    pub in_flight: usize,
    pub counters: Counters,
}

/// What a cycle works on while the engine goes on serving: the batch and
/// what the fast adapter handed over, taken out of the engine, and a copy
/// of the slow adapter and its anchor.
pub struct CycleJob {
    pub config: SonaConfig,
    pub batch: Vec<Trajectory>,
    pub carry: Vec<i64>,
    pub baseline: i64,
    pub base: BaseAdapter,
    pub anchor: EwcAnchor,
}

impl CycleJob {
    /// Every part is well-formed and sized as the configuration says.
    pub open spec fn wf(&self) -> bool {
        &&& self.config.valid()
        &&& 0 < self.batch@.len() <= self.config.trajectory_capacity
        &&& forall|t: int|
            0 <= t < self.batch@.len() ==> (#[trigger] self.batch@[t])@.wf(
                self.config.embedding_dim as int,
            ) && !self.batch@[t]@.is_open()
        &&& is_vector(self.carry@, self.config.hidden_dim as int)
        &&& is_score(self.baseline as int)
        &&& self.base.wf()
        &&& self.base.dim == self.config.hidden_dim
        &&& self.base.rank == self.config.base_lora_rank
        &&& self.base.layers@.len() == self.config.base_layers
        &&& self.anchor.fits(&self.base)
        &&& self.anchor.version < u64::MAX
    }

    /// Whether `c` is the consolidation that this job asks for.
    pub open spec fn yields(&self, c: &Consolidation) -> bool {
        is_consolidation(
            &self.base,
            &self.anchor,
            views(self.batch@),
            self.carry@,
            self.baseline as int,
            self.config.quality_threshold as int,
            self.config.base_lora_lr as int,
            self.config.ewc_lambda as int,
            c,
        )
    }

    /// The consolidation that this job asks for.
    pub fn run(&self) -> (c: Consolidation)
        requires
            self.wf(),
        ensures
            self.yields(&c),
    {
        consolidate(
            &self.base,
            &self.anchor,
            &self.batch,
            &self.carry,
            self.baseline,
            self.config.quality_threshold,
            self.config.base_lora_lr,
            self.config.ewc_lambda,
        )
    }
}

impl WasmSonaEngine {
    /// Every part is well-formed and sized as the configuration says; the
    /// anchor holds the weights of the slow adapter; every trajectory that
    /// was begun is open, buffered, in the running cycle, consumed or
    /// dropped; a cycle is running exactly while trajectories are in
    /// flight.
    pub open spec fn wf(&self) -> bool {
        &&& self.parts_wf()
        &&& match self.scheduler.state {
            SchedulerState::Idle => self.in_flight == 0,
            SchedulerState::Due => false,
            SchedulerState::Running => self.in_flight > 0,
        }
    }

    /// Well-formedness but for the state of the scheduler.
    pub open spec fn parts_wf(&self) -> bool {
        &&& self.config.valid()
        &&& self.recorder.wf()
        &&& self.recorder.dim == self.config.embedding_dim
        &&& self.buffer.wf()
        &&& self.buffer.dim == self.config.embedding_dim
        &&& self.buffer.capacity == self.config.trajectory_capacity
        &&& self.patterns.wf()
        &&& self.patterns.dim == self.config.embedding_dim
        &&& self.patterns.capacity == self.config.pattern_clusters
        &&& self.patterns.radius == self.config.cluster_radius
        &&& self.micro.wf()
        &&& self.micro.pair.dim == self.config.hidden_dim
        &&& self.micro.pair.rank == self.config.micro_lora_rank
        &&& self.base.wf()
        &&& self.base.dim == self.config.hidden_dim
        &&& self.base.rank == self.config.base_lora_rank
        &&& self.base.layers@.len() == self.config.base_layers
        &&& self.anchor.fits(&self.base)
        &&& self.anchor.holds(&self.base)
        &&& is_vector(self.carry@, self.config.hidden_dim as int)
        &&& is_score(self.baseline as int)
        &&& self.scheduler.interval_ms == self.config.background_interval_ms
        &&& self.scheduler.batch_size == self.config.batch_size
        &&& self.counters.closed + self.recorder.open@.len() + 1 == self.recorder.next_id
        &&& self.counters.closed == self.counters.consumed + self.counters.dropped
            + self.buffer.items@.len() + self.in_flight
        &&& self.patterns.inserted == self.counters.closed
        &&& self.anchor.version <= self.counters.consumed
    }

    /// The engine right after construction: enabled, nothing recorded, both
    /// adapters in their initial state, which is the identity, no weight
    /// held by the anchor, the last cycle at time zero.
    pub open spec fn is_fresh(&self) -> bool {
        &&& self.enabled
        &&& self.recorder.next_id == 1
        &&& self.recorder.open@.len() == 0
        &&& self.buffer.items@.len() == 0
        &&& self.patterns.patterns@.len() == 0
        &&& self.patterns.next_id == 0
        &&& self.micro.pair.is_initial(0)
        &&& forall|i: int| 0 <= i < self.micro.drift@.len() ==> self.micro.drift@[i] == 0
        &&& forall|l: int|
            0 <= l < self.base.layers@.len() ==> (#[trigger] self.base.layers@[l]).is_initial(
                l % (self.config.base_lora_rank as int),
            )
        &&& self.anchor.version == 0
        &&& self.anchor.is_unweighted()
        &&& forall|i: int| 0 <= i < self.carry@.len() ==> self.carry@[i] == 0
        &&& self.scheduler.state == SchedulerState::Idle
        &&& self.scheduler.last_cycle_ms == 0
        &&& self.in_flight == 0
        &&& self.baseline == INITIAL_BASELINE
        &&& self.counters == (Counters {
            closed: 0,
            consumed: 0,
            dropped: 0,
            cycles_failed: 0,
            last_cycle: idle_report(CycleStatus::NothingToLearn),
        })
    }

    /// An engine with the default parameters for vectors of `hidden_dim`
    /// components.
    pub fn new(hidden_dim: usize) -> (r: Result<WasmSonaEngine, SonaError>)
        ensures
            r is Ok <==> SonaConfig::for_dim(hidden_dim).valid(),
            r is Err ==> r->Err_0 == SonaError::InvalidInput,
            r matches Ok(e) ==> e.wf() && e.is_fresh() && e.config == SonaConfig::for_dim(hidden_dim),
    {
        Self::with_config(SonaConfig::new(hidden_dim))
    }

    /// An engine with the given parameters, if they are valid.
    pub fn with_config(config: SonaConfig) -> (r: Result<WasmSonaEngine, SonaError>)
        ensures
            r is Ok <==> config.valid(),
            r is Err ==> r->Err_0 == SonaError::InvalidInput,
            r matches Ok(e) ==> e.wf() && e.is_fresh() && e.config == config,
    {
        match config.validate() {
            Err(e) => Err(e),
            Ok(()) => {
                let base = BaseAdapter::new(
                    config.hidden_dim,
                    config.base_lora_rank,
                    config.base_layers,
                );
                let anchor = base.snapshot();
                Ok(
                    WasmSonaEngine {
                        config,
                        enabled: true,
                        recorder: TrajectoryRecorder::new(config.embedding_dim),
                        buffer: TrajectoryBuffer::new(
                            config.embedding_dim,
                            config.trajectory_capacity,
                        ),
                        patterns: PatternMemory::new(
                            config.embedding_dim,
                            config.pattern_clusters,
                            config.cluster_radius,
                        ),
                        micro: MicroAdapter::new(config.hidden_dim, config.micro_lora_rank),
                        base,
                        anchor,
                        carry: zeros(config.hidden_dim),
                        baseline: INITIAL_BASELINE,
                        scheduler: Scheduler::new(config.background_interval_ms, config.batch_size),
                        in_flight: 0,
                        counters: Counters {
                            closed: 0,
                            consumed: 0,
                            dropped: 0,
                            cycles_failed: 0,
                            last_cycle: CycleReport {
                                status: CycleStatus::NothingToLearn,
                                batch_size: 0,
                                eligible: 0,
                                mean_score: 0,
                                step_magnitude: 0,
                            },
                        },
                    },
                )
            },
        }
    }

    /// What `start_trajectory` does: a disabled engine takes no
    /// trajectory, an enabled one does what its recorder does.
    pub open spec fn began(
        &self,
        embedding: Seq<i64>,
        r: Result<u64, SonaError>,
        next: &WasmSonaEngine,
    ) -> bool {
        if !self.enabled {
            r == Err::<u64, SonaError>(SonaError::Disabled) && *next == *self
        } else if !is_vector(embedding, self.config.embedding_dim as int) {
            r == Err::<u64, SonaError>(SonaError::InvalidInput) && *next == *self
        } else if self.recorder.next_id == u64::MAX {
            r == Err::<u64, SonaError>(SonaError::InvalidState) && *next == *self
        } else {
            &&& r == Ok::<u64, SonaError>(self.recorder.next_id)
            &&& *next == (WasmSonaEngine { recorder: next.recorder, ..*self })
            &&& next.recorder.dim == self.recorder.dim
            &&& next.recorder.next_id == self.recorder.next_id + 1
            &&& views(next.recorder.open@) == views(self.recorder.open@).push(
                TrajectoryView {
                    id: self.recorder.next_id,
                    query_embedding: embedding,
                    steps: Seq::empty(),
                    final_score: None,
                },
            )
        }
    }

    /// Opens a trajectory for `query_embedding` and returns its id.
    pub fn start_trajectory(&mut self, query_embedding: Vec<i64>) -> (r: Result<u64, SonaError>)
        requires
            old(self).wf(),
        ensures
            final(self).wf(),
            old(self).began(query_embedding@, r, final(self)),
    {
        if !self.enabled {
            return Err(SonaError::Disabled);
        }
        self.recorder.begin(query_embedding)
    }

    /// What `record_step` does.
    pub open spec fn stepped(
        &self,
        id: u64,
        step: TrajectoryStep,
        r: Result<(), SonaError>,
        next: &WasmSonaEngine,
    ) -> bool {
        match self.recorder.refusal(id, step.score) {
            Some(e) => r == Err::<(), SonaError>(e) && *next == *self,
            None => {
                let at = position(views(self.recorder.open@), id);
                &&& r is Ok
                &&& *next == (WasmSonaEngine { recorder: next.recorder, ..*self })
                &&& next.recorder.dim == self.recorder.dim
                &&& next.recorder.next_id == self.recorder.next_id
                &&& views(next.recorder.open@) == views(self.recorder.open@).update(
                    at,
                    views(self.recorder.open@)[at].with_step(step),
                )
            },
        }
    }

    /// Appends a step to the open trajectory `trajectory_id`.
    pub fn record_step(&mut self, trajectory_id: u64, node_id: u32, score: i64, latency_us: u64) -> (r:
        Result<(), SonaError>)
        requires
            old(self).wf(),
        ensures
            final(self).wf(),
            old(self).stepped(
                trajectory_id,
                TrajectoryStep { node_id, score, latency_us },
                r,
                final(self),
            ),
    {
        self.recorder.record_step(trajectory_id, node_id, score, latency_us)
    }

    /// Whether a trajectory that ends with `score` updates the fast
    /// adapter.
    pub open spec fn drives(&self, score: i64) -> bool {
        self.enabled && score >= self.config.quality_threshold
    }

    /// What `end_trajectory` does.  A refused call changes nothing.  An
    /// accepted one closes the trajectory, moves it from the recorder to
    /// the buffer, takes its embedding into the pattern memory, advances
    /// the baseline, and, if the engine is enabled and the score reaches
    /// the threshold, updates the fast adapter by the signal of the
    /// embedding against the baseline as it was.
    pub open spec fn ended(
        &self,
        id: u64,
        score: i64,
        r: Result<TrajectoryOutcome, SonaError>,
        next: &WasmSonaEngine,
    ) -> bool {
        match self.recorder.refusal(id, score) {
            Some(e) => r == Err::<TrajectoryOutcome, SonaError>(e) && *next == *self,
            None => {
                let at = position(views(self.recorder.open@), id);
                let t = views(self.recorder.open@)[at];
                let inc = increment(
                    self.config.micro_lora_lr as int,
                    score - self.baseline,
                    t.query_embedding,
                    self.config.hidden_dim as nat,
                );
                &&& r == Ok::<TrajectoryOutcome, SonaError>(
                    TrajectoryOutcome {
                        pattern_id: self.patterns@.target(t.query_embedding) as u64,
                        micro_updated: self.drives(score),
                        evicted: self.buffer.is_full(),
                    },
                )
                &&& *next == (WasmSonaEngine {
                    recorder: next.recorder,
                    buffer: next.buffer,
                    patterns: next.patterns,
                    micro: next.micro,
                    baseline: next.baseline,
                    counters: next.counters,
                    ..*self
                })
                &&& next.recorder.dim == self.recorder.dim
                &&& next.recorder.next_id == self.recorder.next_id
                &&& views(next.recorder.open@) == views(self.recorder.open@).remove(at)
                &&& !next.recorder.is_open(id)
                &&& next.buffer.dim == self.buffer.dim
                &&& next.buffer.capacity == self.buffer.capacity
                &&& views(next.buffer.items@) == self.buffer.pushed(t.sealed(score))
                &&& next.patterns@ == self.patterns@.after_insert(t.query_embedding, score as int)
                &&& next.baseline == running_mean(
                    self.baseline as int,
                    score as int,
                    self.counters.closed as nat,
                )
                &&& next.counters == (Counters {
                    closed: (self.counters.closed + 1) as u64,
                    dropped: if self.buffer.is_full() {
                        (self.counters.dropped + 1) as u64
                    } else {
                        self.counters.dropped
                    },
                    ..self.counters
                })
                &&& if self.drives(score) {
                    &&& next.micro.pair.dim == self.micro.pair.dim
                    &&& next.micro.pair.rank == self.micro.pair.rank
                    &&& next.micro.pair.scale == self.micro.pair.scale
                    &&& next.micro.pair.down == self.micro.pair.down
                    &&& next.micro.pair.up@ == self.micro.learned(
                        t.query_embedding,
                        score - self.baseline,
                        self.config.micro_lora_lr as int,
                    )
                    &&& next.micro.drift@ == accumulated(self.micro.drift@, inc)
                } else {
                    next.micro == self.micro
                }
            },
        }
    }

    /// Closes the trajectory `trajectory_id` with `final_score`.
    pub fn end_trajectory(&mut self, trajectory_id: u64, final_score: i64) -> (r: Result<
        TrajectoryOutcome,
        SonaError,
    >)
        requires
            old(self).wf(),
        ensures
            final(self).wf(),
            old(self).ended(trajectory_id, final_score, r, final(self)),
    {
        let t: Trajectory = match self.recorder.finish(trajectory_id, final_score) {
            Err(e) => {
                return Err(e);
            },
            Ok(t) => t,
        };
        // The memory has taken in as many embeddings as trajectories have
        // ended, and fewer have ended than were begun: it takes this one.
        let pattern_id: u64 = match self.patterns.insert(&t.query_embedding, final_score) {
            Ok(id) => id,
            Err(e) => {
                return Err(e);
            },
        };
        let micro_updated: bool = self.enabled && final_score >= self.config.quality_threshold;
        if micro_updated {
            self.micro.update(
                &t.query_embedding,
                final_score - self.baseline,
                self.config.micro_lora_lr,
            );
        }
        proof {
            lemma_running_mean_between(
                self.baseline as int,
                final_score as int,
                self.counters.closed as nat,
            );
        }
        let moved: i128 = div_trunc_exec(
            final_score as i128 - self.baseline as i128,
            self.counters.closed as i128 + 1,
        );
        self.baseline = (self.baseline as i128 + moved) as i64;
        let evicted: bool = self.buffer.push(t);
        self.counters.closed = self.counters.closed + 1;
        if evicted {
            self.counters.dropped = self.counters.dropped + 1;
        }
        Ok(TrajectoryOutcome { pattern_id, micro_updated, evicted })
    }

    /// What `apply_lora` returns: the forward pass of the fast adapter, or
    /// the input itself while the engine is disabled.
    pub open spec fn micro_output(&self, input: Seq<i64>) -> Seq<i64> {
        if self.enabled {
            self.micro.pair.forward(input)
        } else {
            input
        }
    }

    /// What `apply_lora` does: it refuses what is no vector of the hidden
    /// dimension, and answers every other input.
    pub open spec fn micro_applied(&self, input: Seq<i64>, r: Result<Vec<i64>, SonaError>) -> bool {
        if is_vector(input, self.config.hidden_dim as int) {
            r is Ok && r->Ok_0@ == self.micro_output(input)
        } else {
            r is Err && r->Err_0 == SonaError::InvalidInput
        }
    }

    /// Applies the fast adapter to `input`.
    pub fn apply_lora(&self, input: Vec<i64>) -> (r: Result<Vec<i64>, SonaError>)
        requires
            self.wf(),
        ensures
            self.micro_applied(input@, r),
    {
        if input.len() != self.config.hidden_dim || !check_within(&input, VALUE_LIMIT) {
            return Err(SonaError::InvalidInput);
        }
        if !self.enabled {
            return Ok(input);
        }
        Ok(self.micro.apply(&input))
    }

    /// What `apply_lora_layer` returns: the forward pass of a layer of the
    /// slow adapter, or the input itself while the engine is disabled.
    pub open spec fn base_output(&self, layer: int, input: Seq<i64>) -> Seq<i64> {
        if self.enabled {
            self.base.layers@[layer].forward(input)
        } else {
            input
        }
    }

    /// What `apply_lora_layer` does: it refuses a layer that is not there,
    /// then what is no vector of the hidden dimension, and answers every
    /// other input.
    pub open spec fn base_applied(
        &self,
        layer: usize,
        input: Seq<i64>,
        r: Result<Vec<i64>, SonaError>,
    ) -> bool {
        if layer >= self.config.base_layers {
            r is Err && r->Err_0 == SonaError::OutOfRange
        } else if !is_vector(input, self.config.hidden_dim as int) {
            r is Err && r->Err_0 == SonaError::InvalidInput
        } else {
            r is Ok && r->Ok_0@ == self.base_output(layer as int, input)
        }
    }

    /// Applies layer `layer_idx` of the slow adapter to `input`.
    pub fn apply_lora_layer(&self, layer_idx: usize, input: Vec<i64>) -> (r: Result<
        Vec<i64>,
        SonaError,
    >)
        requires
            self.wf(),
        ensures
            self.base_applied(layer_idx, input@, r),
    {
        if layer_idx >= self.base.layers.len() {
            return Err(SonaError::OutOfRange);
        }
        if input.len() != self.config.hidden_dim || !check_within(&input, VALUE_LIMIT) {
            return Err(SonaError::InvalidInput);
        }
        if !self.enabled {
            return Ok(input);
        }
        self.base.apply(layer_idx, &input)
    }

    /// What `run_instant_cycle` does: the drift of the fast adapter joins
    /// what the next cycle takes in, the drift is reset and the fast
    /// weights are halved.  A disabled engine does nothing.
    pub open spec fn flushed(&self, next: &WasmSonaEngine) -> bool {
        if !self.enabled {
            *next == *self
        } else {
            &&& *next == (WasmSonaEngine { micro: next.micro, carry: next.carry, ..*self })
            &&& next.carry@ == accumulated(self.carry@, self.micro.drift@)
            &&& next.micro.pair.dim == self.micro.pair.dim
            &&& next.micro.pair.rank == self.micro.pair.rank
            &&& next.micro.pair.scale == self.micro.pair.scale
            &&& next.micro.pair.down == self.micro.pair.down
            &&& next.micro.pair.up@ == self.micro.pair.dampened()
            &&& next.micro.drift@.len() == self.micro.drift@.len()
            &&& forall|i: int| 0 <= i < next.micro.drift@.len() ==> next.micro.drift@[i] == 0
        }
    }

    /// Flushes the fast adapter.
    pub fn run_instant_cycle(&mut self)
        requires
            old(self).wf(),
        ensures
            final(self).wf(),
            old(self).flushed(final(self)),
    {
        if self.enabled {
            let pending: Vec<i64> = self.micro.flush();
            self.carry = accumulate(&self.carry, &pending);
        }
    }

    /// The targets of a cycle that starts now, layer by layer.
    pub open spec fn cycle_targets(&self) -> Seq<Seq<i64>> {
        self.base.targets(
            views(self.buffer.items@),
            self.carry@,
            self.config.quality_threshold as int,
            self.baseline as int,
        )
    }

    /// Whether a cycle that starts now diverges.
    pub open spec fn cycle_diverges(&self) -> bool {
        self.base.diverges(
            &self.anchor,
            self.cycle_targets(),
            self.config.base_lora_lr as int,
            self.config.ewc_lambda as int,
            self.base.layers@.len(),
        )
    }

    /// The report of a cycle that starts now.
    pub open spec fn cycle_report(&self) -> CycleReport {
        CycleReport {
            status: if self.cycle_diverges() {
                CycleStatus::Diverged
            } else {
                CycleStatus::Completed
            },
            batch_size: self.buffer.items@.len() as usize,
            eligible: eligible_count(
                views(self.buffer.items@),
                self.config.quality_threshold as int,
                self.buffer.items@.len(),
            ) as usize,
            mean_score: mean_score(views(self.buffer.items@)) as i64,
            step_magnitude: self.base.magnitude(
                &self.anchor,
                self.cycle_targets(),
                self.config.base_lora_lr as int,
                self.config.ewc_lambda as int,
                self.base.layers@.len(),
            ) as i64,
        }
    }

    /// What a cycle that ends at `now_ms` does.  The batch is the whole
    /// buffer.  If the step diverges, only the count of failed cycles, the
    /// last report and the scheduler change.  Otherwise the slow adapter
    /// takes its step, the anchor is renewed, the buffer and what the fast
    /// adapter handed over are consumed.
    pub open spec fn cycled(&self, now_ms: u64, report: CycleReport, next: &WasmSonaEngine) -> bool {
        let running = Scheduler { state: SchedulerState::Running, ..self.scheduler };
        &&& report == self.cycle_report()
        &&& next.scheduler == running.finished(now_ms)
        &&& if self.cycle_diverges() {
            &&& *next == (WasmSonaEngine {
                scheduler: next.scheduler,
                counters: next.counters,
                ..*self
            })
            &&& next.counters == (Counters {
                cycles_failed: if self.counters.cycles_failed < u64::MAX {
                    (self.counters.cycles_failed + 1) as u64
                } else {
                    self.counters.cycles_failed
                },
                last_cycle: report,
                ..self.counters
            })
        } else {
            &&& *next == (WasmSonaEngine {
                scheduler: next.scheduler,
                counters: next.counters,
                base: next.base,
                anchor: next.anchor,
                buffer: next.buffer,
                carry: next.carry,
                ..*self
            })
            &&& self.base.steps_to(
                &self.anchor,
                self.cycle_targets(),
                self.config.base_lora_lr as int,
                self.config.ewc_lambda as int,
                &next.base,
                &next.anchor,
            )
            &&& next.buffer.dim == self.buffer.dim
            &&& next.buffer.capacity == self.buffer.capacity
            &&& next.buffer.items@.len() == 0
            &&& next.carry@.len() == self.carry@.len()
            &&& forall|i: int| 0 <= i < next.carry@.len() ==> next.carry@[i] == 0
            &&& next.counters == (Counters {
                consumed: (self.counters.consumed + self.buffer.items@.len()) as u64,
                last_cycle: report,
                ..self.counters
            })
        }
    }

    /// Runs one cycle over the buffer.
    fn run_cycle(&mut self, now_ms: u64) -> (report: CycleReport)
        requires
            old(self).parts_wf(),
            old(self).scheduler.state != SchedulerState::Running,
            old(self).in_flight == 0,
            old(self).buffer.items@.len() > 0,
        ensures
            final(self).wf(),
            old(self).cycled(now_ms, report, final(self)),
    {
        let _ = self.scheduler.start();
        let c: Consolidation = consolidate(
            &self.base,
            &self.anchor,
            &self.buffer.items,
            &self.carry,
            self.baseline,
            self.config.quality_threshold,
            self.config.base_lora_lr,
            self.config.ewc_lambda,
        );
        match c.next {
            Some((next, renewed)) => {
                let n: usize = self.buffer.len();
                self.base = next;
                self.anchor = renewed;
                self.buffer.clear();
                self.carry = zeros(self.config.hidden_dim);
                self.counters.consumed = self.counters.consumed + n as u64;
            },
            None => {
                if self.counters.cycles_failed < u64::MAX {
                    self.counters.cycles_failed = self.counters.cycles_failed + 1;
                }
            },
        }
        self.counters.last_cycle = c.report;
        let _ = self.scheduler.finish(now_ms);
        c.report
    }

    /// Whether `tick` runs a cycle at `now_ms`: the engine is enabled, no
    /// cycle is running, one is due, and a trajectory is buffered.
    pub open spec fn runs_at(&self, now_ms: u64) -> bool {
        &&& self.enabled
        &&& self.scheduler.state == SchedulerState::Idle
        &&& self.scheduler.is_due(now_ms, self.buffer.items@.len() as usize)
        &&& self.buffer.items@.len() > 0
    }

    /// Runs a cycle if one is due at `now_ms`; says whether one ran.
    pub fn tick(&mut self, now_ms: u64) -> (ran: bool)
        requires
            old(self).wf(),
        ensures
            final(self).wf(),
            ran == old(self).runs_at(now_ms),
            ran ==> old(self).cycled(now_ms, final(self).counters.last_cycle, final(self)),
            !ran ==> *final(self) == *old(self),
    {
        if !self.enabled {
            return false;
        }
        if !self.scheduler.poll(now_ms, self.buffer.len()) {
            return false;
        }
        if self.buffer.len() == 0 {
            self.scheduler.stand_down();
            return false;
        }
        let _ = self.run_cycle(now_ms);
        true
    }

    /// What `force_learn` does: a cycle, whether due or not, if the engine
    /// is enabled, no cycle is running and a trajectory is buffered;
    /// nothing otherwise.
    pub open spec fn forced(&self, now_ms: u64, report: CycleReport, next: &WasmSonaEngine) -> bool {
        if !self.enabled {
            report == idle_report(CycleStatus::Disabled) && *next == *self
        } else if self.scheduler.state == SchedulerState::Running {
            report == idle_report(CycleStatus::Busy) && *next == *self
        } else if self.buffer.items@.len() == 0 {
            report == idle_report(CycleStatus::NothingToLearn) && *next == *self
        } else {
            self.cycled(now_ms, report, next)
        }
    }

    /// Runs a cycle now, if there is anything to learn from.
    pub fn force_learn(&mut self, now_ms: u64) -> (report: CycleReport)
        requires
            old(self).wf(),
        ensures
            final(self).wf(),
            old(self).forced(now_ms, report, final(self)),
    {
        if !self.enabled {
            return Self::no_cycle(CycleStatus::Disabled);
        }
        if self.scheduler.state == SchedulerState::Running {
            return Self::no_cycle(CycleStatus::Busy);
        }
        if self.buffer.len() == 0 {
            return Self::no_cycle(CycleStatus::NothingToLearn);
        }
        self.run_cycle(now_ms)
    }

    /// The report of a cycle that did not run.
    pub fn no_cycle(status: CycleStatus) -> (report: CycleReport)
        ensures
            report == idle_report(status),
    {
        CycleReport { status, batch_size: 0, eligible: 0, mean_score: 0, step_magnitude: 0 }
    }

    /// Why no cycle starts at `now_ms`, if none does: the engine is
    /// disabled, a cycle is running, nothing is buffered, or, unless
    /// `forced`, none is due.
    pub open spec fn cycle_refusal(&self, now_ms: u64, forced: bool) -> Option<CycleStatus> {
        if !self.enabled {
            Some(CycleStatus::Disabled)
        } else if self.scheduler.state == SchedulerState::Running {
            Some(CycleStatus::Busy)
        } else if self.buffer.items@.len() == 0 {
            Some(CycleStatus::NothingToLearn)
        } else if !forced && !self.scheduler.is_due(now_ms, self.buffer.items@.len() as usize) {
            Some(CycleStatus::NotDue)
        } else {
            None
        }
    }

    /// What `begin_cycle` does.  A refused call changes nothing.  An
    /// accepted one marks the cycle as running and takes out of the
    /// engine the whole buffer and what the fast adapter handed over; the
    /// job also gets the baseline and a copy of the slow adapter and its
    /// anchor.
    pub open spec fn cycle_begun(
        &self,
        now_ms: u64,
        forced: bool,
        r: Result<CycleJob, CycleReport>,
        next: &WasmSonaEngine,
    ) -> bool {
        match self.cycle_refusal(now_ms, forced) {
            Some(status) => r is Err && r->Err_0 == idle_report(status) && *next == *self,
            None => {
                &&& r is Ok
                &&& r->Ok_0.wf()
                &&& r->Ok_0.config == self.config
                &&& r->Ok_0.batch == self.buffer.items
                &&& r->Ok_0.carry == self.carry
                &&& r->Ok_0.baseline == self.baseline
                &&& r->Ok_0.base.same_as(&self.base)
                &&& r->Ok_0.anchor.same_as(&self.anchor)
                &&& *next == (WasmSonaEngine {
                    buffer: next.buffer,
                    carry: next.carry,
                    scheduler: Scheduler { state: SchedulerState::Running, ..self.scheduler },
                    in_flight: self.buffer.items@.len() as usize,
                    ..*self
                })
                &&& next.buffer.dim == self.buffer.dim
                &&& next.buffer.capacity == self.buffer.capacity
                &&& next.buffer.items@.len() == 0
                &&& next.carry@.len() == self.carry@.len()
                &&& forall|i: int| 0 <= i < next.carry@.len() ==> next.carry@[i] == 0
            },
        }
    }

    /// Starts a cycle whose consolidation the caller computes while the
    /// engine goes on serving.
    pub fn begin_cycle(&mut self, now_ms: u64, forced: bool) -> (r: Result<CycleJob, CycleReport>)
        requires
            old(self).wf(),
        ensures
            final(self).wf(),
            old(self).cycle_begun(now_ms, forced, r, final(self)),
    {
        if !self.enabled {
            return Err(Self::no_cycle(CycleStatus::Disabled));
        }
        if self.scheduler.state == SchedulerState::Running {
            return Err(Self::no_cycle(CycleStatus::Busy));
        }
        if self.buffer.len() == 0 {
            return Err(Self::no_cycle(CycleStatus::NothingToLearn));
        }
        if !forced && !self.scheduler.poll(now_ms, self.buffer.len()) {
            return Err(Self::no_cycle(CycleStatus::NotDue));
        }
        let _ = self.scheduler.start();
        let base: BaseAdapter = self.base.duplicate();
        let anchor: EwcAnchor = self.anchor.duplicate();
        let batch: Vec<Trajectory> = self.buffer.take();
        let mut carry: Vec<i64> = zeros(self.config.hidden_dim);
        std::mem::swap(&mut self.carry, &mut carry);
        self.in_flight = batch.len();
        Ok(CycleJob { config: self.config, batch, carry, baseline: self.baseline, base, anchor })
    }

    /// Whether a completion does not belong to the running cycle: none is
    /// running, the batch is not the one in flight, or the new anchor is
    /// not the next version.
    pub open spec fn is_stale(&self, job: &CycleJob, outcome: &Consolidation) -> bool {
        ||| self.scheduler.state != SchedulerState::Running
        ||| self.in_flight != job.batch@.len()
        ||| outcome.next matches Some((_, renewed)) && renewed.version != self.anchor.version + 1
    }

    /// What `complete_cycle` does.  A stale completion changes nothing.
    /// Otherwise the cycle ends at `now_ms`; if the consolidation made a
    /// new adapter, that and its anchor are installed and the batch is
    /// consumed; if it diverged, the batch goes back in front of the
    /// buffer, what the fast adapter had handed over goes back as well,
    /// and the weights stay as they were.
    pub open spec fn cycle_completed(
        &self,
        job: &CycleJob,
        outcome: &Consolidation,
        now_ms: u64,
        report: CycleReport,
        next: &WasmSonaEngine,
    ) -> bool {
        if self.is_stale(job, outcome) {
            report == idle_report(CycleStatus::Stale) && *next == *self
        } else {
            &&& report == outcome.report
            &&& match outcome.next {
                Some((made, renewed)) => {
                    &&& *next == (WasmSonaEngine {
                        base: made,
                        anchor: renewed,
                        scheduler: self.scheduler.finished(now_ms),
                        in_flight: 0,
                        counters: Counters {
                            consumed: (self.counters.consumed + self.in_flight) as u64,
                            last_cycle: report,
                            ..self.counters
                        },
                        ..*self
                    })
                },
                None => {
                    let all = views(job.batch@) + views(self.buffer.items@);
                    &&& *next == (WasmSonaEngine {
                        buffer: next.buffer,
                        carry: next.carry,
                        scheduler: self.scheduler.finished(now_ms),
                        in_flight: 0,
                        counters: next.counters,
                        ..*self
                    })
                    &&& next.buffer.dim == self.buffer.dim
                    &&& next.buffer.capacity == self.buffer.capacity
                    &&& views(next.buffer.items@) == self.buffer.newest(all)
                    &&& next.carry@ == accumulated(self.carry@, job.carry@)
                    &&& next.counters == (Counters {
                        dropped: (self.counters.dropped + all.len() - next.buffer.items@.len()) as u64,
                        cycles_failed: if self.counters.cycles_failed < u64::MAX {
                            (self.counters.cycles_failed + 1) as u64
                        } else {
                            self.counters.cycles_failed
                        },
                        last_cycle: report,
                        ..self.counters
                    })
                },
            }
        }
    }

    /// Ends the running cycle with the consolidation that the caller
    /// computed for its job.
    pub fn complete_cycle(&mut self, job: CycleJob, outcome: Consolidation, now_ms: u64) -> (report:
        CycleReport)
        requires
            old(self).wf(),
            job.wf(),
            job.config == old(self).config,
            job.yields(&outcome),
        ensures
            final(self).wf(),
            old(self).cycle_completed(&job, &outcome, now_ms, report, final(self)),
    {
        let stale: bool = self.scheduler.state != SchedulerState::Running || self.in_flight
            != job.batch.len() || match &outcome.next {
            Some((_, renewed)) => self.anchor.version == u64::MAX || renewed.version
                != self.anchor.version + 1,
            None => false,
        };
        if stale {
            return Self::no_cycle(CycleStatus::Stale);
        }
        let report: CycleReport = outcome.report;
        match outcome.next {
            Some((made, renewed)) => {
                self.base = made;
                self.anchor = renewed;
                self.counters.consumed = self.counters.consumed + self.in_flight as u64;
            },
            None => {
                let dropped: usize = self.buffer.restore(job.batch);
                self.carry = accumulate(&self.carry, &job.carry);
                self.counters.dropped = self.counters.dropped + dropped as u64;
                if self.counters.cycles_failed < u64::MAX {
                    self.counters.cycles_failed = self.counters.cycles_failed + 1;
                }
            },
        }
        self.counters.last_cycle = report;
        self.in_flight = 0;
        let _ = self.scheduler.finish(now_ms);
        report
    }

    /// The counters as they stand.
    pub open spec fn stats(&self) -> EngineStats {
        EngineStats {
            trajectories_open: self.recorder.open@.len() as usize,
            trajectories_buffered: self.buffer.items@.len() as usize,
            trajectories_consumed: self.counters.consumed,
            trajectories_dropped: self.counters.dropped,
            patterns_learned: self.patterns.patterns@.len() as usize,
            cycles_run: self.anchor.version,
            cycles_failed: self.counters.cycles_failed,
            last_cycle: self.counters.last_cycle,
            enabled: self.enabled,
        }
    }

    /// A snapshot of the counters.
    pub fn get_stats(&self) -> (stats: EngineStats)
        ensures
            stats == self.stats(),
    {
        EngineStats {
            trajectories_open: self.recorder.open.len(),
            trajectories_buffered: self.buffer.len(),
            trajectories_consumed: self.counters.consumed,
            trajectories_dropped: self.counters.dropped,
            patterns_learned: self.patterns.len(),
            cycles_run: self.anchor.version,
            cycles_failed: self.counters.cycles_failed,
            last_cycle: self.counters.last_cycle,
            enabled: self.enabled,
        }
    }

    /// What `set_enabled` does: the flag is set, nothing else changes.
    pub open spec fn switched(&self, enabled: bool, next: &WasmSonaEngine) -> bool {
        *next == (WasmSonaEngine { enabled, ..*self })
    }

    /// Enables or disables the engine.
    pub fn set_enabled(&mut self, enabled: bool)
        ensures
            old(self).switched(enabled, final(self)),
            old(self).wf() ==> final(self).wf(),
    {
        self.enabled = enabled;
    }

    /// Whether the engine is enabled.
    pub fn is_enabled(&self) -> (enabled: bool)
        ensures
            enabled == self.enabled,
    {
        self.enabled
    }

    /// The configuration.
    pub fn get_config(&self) -> (config: SonaConfig)
        ensures
            config == self.config,
    {
        self.config
    }

    /// What `find_patterns` does: it refuses what is no vector of the
    /// embedding dimension, and ranks the patterns for every other query.
    pub open spec fn searched(
        &self,
        query: Seq<i64>,
        k: usize,
        r: Result<Vec<PatternMatch>, SonaError>,
    ) -> bool {
        if is_vector(query, self.config.embedding_dim as int) {
            r is Ok && is_ranking(self.patterns@.patterns, query, k as nat, r->Ok_0@)
        } else {
            r is Err && r->Err_0 == SonaError::InvalidInput
        }
    }

    /// The `k` patterns most similar to `query_embedding`.
    pub fn find_patterns(&self, query_embedding: Vec<i64>, k: usize) -> (r: Result<
        Vec<PatternMatch>,
        SonaError,
    >)
        requires
            self.wf(),
        ensures
            self.searched(query_embedding@, k, r),
    {
        self.patterns.find_similar(&query_embedding, k)
    }

    /// The reward that a piece of feedback stands for.  The latency plays
    /// no part in it.
    pub fn learn_from_feedback(&self, success: bool, latency_ms: i64, quality: i64) -> (r: Result<
        i64,
        SonaError,
    >)
        ensures
            r == reward(success, quality),
    {
        feedback_reward(success, quality)
    }
}

} // verus!
