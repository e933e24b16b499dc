//! Laws of the engine: what holds of every state and of every sequence of
//! calls, proved from the relations that the operations ensure.

use vstd::prelude::*;
use crate::base::{
    lemma_same_adapter_same_step, lemma_same_adapter_same_targets, Consolidation, CycleReport,
    CycleStatus,
};
use crate::engine::{CycleJob, TrajectoryOutcome, WasmSonaEngine};
use crate::error::SonaError;
use crate::scheduler::SchedulerState;
use crate::fixed::{fitted, is_score, is_vector};
use crate::micro::increment;
use crate::trajectory::{lemma_position_is, views, TrajectoryStep, TrajectoryView};

verus! {

/// Every trajectory that was begun is open, buffered, in the running
/// cycle, consumed or dropped, and none is counted twice.
pub proof fn lemma_trajectories_are_conserved(e: WasmSonaEngine)
    requires
        e.wf(),
    ensures
        e.recorder.next_id - 1 == e.recorder.open@.len() + e.buffer.items@.len() + e.in_flight
            + e.counters.consumed + e.counters.dropped,
        e.counters.closed == e.patterns.inserted,
        e.anchor.version <= e.counters.consumed,
{
}

/// Neither the buffer nor the pattern memory ever holds more than the
/// configuration allows.
pub proof fn lemma_capacities_hold(e: WasmSonaEngine)
    requires
        e.wf(),
    ensures
        e.buffer.items@.len() <= e.config.trajectory_capacity,
        e.patterns.patterns@.len() <= e.config.pattern_clusters,
{
}

/// The id that is next never falls, whatever the operation.
pub proof fn lemma_next_id_never_falls(
    e0: WasmSonaEngine,
    e1: WasmSonaEngine,
    embedding: Seq<i64>,
    begun: Result<u64, SonaError>,
    id: u64,
    step: TrajectoryStep,
    stepped: Result<(), SonaError>,
    score: i64,
    ended: Result<TrajectoryOutcome, SonaError>,
    now_ms: u64,
    report: CycleReport,
    enabled: bool,
)
    requires
        e0.wf(),
        e0.began(embedding, begun, &e1) || e0.stepped(id, step, stepped, &e1) || e0.ended(
            id,
            score,
            ended,
            &e1,
        ) || e0.flushed(&e1) || e0.forced(now_ms, report, &e1) || e0.cycled(now_ms, report, &e1)
            || e0.switched(enabled, &e1),
    ensures
        e1.recorder.next_id >= e0.recorder.next_id,
{
}

/// Ids are handed out in ascending order and never again: a trajectory
/// that begins gets the id that was next, which is above the id of every
/// open trajectory.
pub proof fn lemma_ids_are_fresh(
    e0: WasmSonaEngine,
    embedding: Seq<i64>,
    r: Result<u64, SonaError>,
    e1: WasmSonaEngine,
)
    requires
        e0.wf(),
        e0.began(embedding, r, &e1),
    ensures
        e1.recorder.next_id >= e0.recorder.next_id,
        r matches Ok(id) ==> {
            &&& id == e0.recorder.next_id
            &&& e1.recorder.next_id == id + 1
            &&& !e0.recorder.is_open(id)
            &&& forall|k: int|
                0 <= k < e0.recorder.open@.len() ==> (#[trigger] e0.recorder.open@[k]).id < id
        },
{
    if r is Ok {
        let id = e0.recorder.next_id;
        let open = views(e0.recorder.open@);
        assert forall|k: int| 0 <= k < open.len() implies (#[trigger] open[k]).id != id by {
            assert(e0.recorder.open@[k]@ == open[k]);
        }
        lemma_position_is(open, id, open.len() as int);
    }
}

/// The slow adapter and its anchor change in cycles only: neither the
/// beginning, a step or the end of a trajectory nor a flush touches them.
pub proof fn lemma_slow_weights_change_in_cycles_only(
    e0: WasmSonaEngine,
    e1: WasmSonaEngine,
    embedding: Seq<i64>,
    begun: Result<u64, SonaError>,
    id: u64,
    step: TrajectoryStep,
    stepped: Result<(), SonaError>,
    score: i64,
    ended: Result<TrajectoryOutcome, SonaError>,
)
    requires
        e0.began(embedding, begun, &e1) || e0.stepped(id, step, stepped, &e1) || e0.ended(
            id,
            score,
            ended,
            &e1,
        ) || e0.flushed(&e1),
    ensures
        e1.base == e0.base,
        e1.anchor == e0.anchor,
        e1.config == e0.config,
{
}

/// Ranks and dimensions are fixed at construction: a cycle and the end
/// of a trajectory change weights, never shapes or down-projections.
pub proof fn lemma_shapes_are_fixed(
    e0: WasmSonaEngine,
    e1: WasmSonaEngine,
    now_ms: u64,
    report: CycleReport,
    id: u64,
    score: i64,
    ended: Result<TrajectoryOutcome, SonaError>,
)
    requires
        e0.wf(),
        e0.cycled(now_ms, report, &e1) || e0.ended(id, score, ended, &e1),
    ensures
        e1.micro.pair.dim == e0.micro.pair.dim,
        e1.micro.pair.rank == e0.micro.pair.rank,
        e1.micro.pair.down@ == e0.micro.pair.down@,
        e1.base.dim == e0.base.dim,
        e1.base.rank == e0.base.rank,
        e1.base.layers@.len() == e0.base.layers@.len(),
        forall|l: int|
            0 <= l < e0.base.layers@.len() ==> (#[trigger] e1.base.layers@[l]).down@
                == e0.base.layers@[l].down@ && e1.base.layers@[l].up@.len()
                == e0.base.layers@[l].up@.len(),
{
    if e0.cycled(now_ms, report, &e1) && !e0.cycle_diverges() {
        assert forall|l: int| 0 <= l < e0.base.layers@.len() implies (
        #[trigger] e1.base.layers@[l]).down@ == e0.base.layers@[l].down@
            && e1.base.layers@[l].up@.len() == e0.base.layers@[l].up@.len() by {}
    }
}

/// No two cycles run at once: while one runs, a second is refused and
/// changes nothing.
pub proof fn lemma_one_cycle_at_a_time(
    e0: WasmSonaEngine,
    now_ms: u64,
    forced: bool,
    r: Result<CycleJob, CycleReport>,
    e1: WasmSonaEngine,
    report: CycleReport,
    e2: WasmSonaEngine,
)
    requires
        e0.enabled,
        e0.scheduler.state == SchedulerState::Running,
        e0.cycle_begun(now_ms, forced, r, &e1),
        e0.forced(now_ms, report, &e2),
    ensures
        r is Err,
        r->Err_0.status == CycleStatus::Busy,
        e1 == e0,
        report.status == CycleStatus::Busy,
        e2 == e0,
        !e0.runs_at(now_ms),
{
}

/// A trajectory that is begun on an enabled engine and ended at once is
/// accepted: both calls succeed, the trajectory leaves the recorder and
/// is the newest in the buffer, closed with its score and without steps.
/// The fast adapter is updated exactly if the score reaches the
/// threshold, and its up-projection is then another one whenever a weight
/// that is not at its limit has a move that is not zero.
pub proof fn lemma_begin_then_end(
    e0: WasmSonaEngine,
    embedding: Seq<i64>,
    r1: Result<u64, SonaError>,
    e1: WasmSonaEngine,
    score: i64,
    r2: Result<TrajectoryOutcome, SonaError>,
    e2: WasmSonaEngine,
)
    requires
        e0.wf(),
        e1.wf(),
        e0.enabled,
        e0.recorder.next_id < u64::MAX,
        is_vector(embedding, e0.config.embedding_dim as int),
        is_score(score as int),
        e0.began(embedding, r1, &e1),
        r1 is Ok ==> e1.ended(r1->Ok_0, score, r2, &e2),
    ensures
        r1 is Ok,
        r2 is Ok,
        views(e2.recorder.open@) == views(e0.recorder.open@),
        views(e2.buffer.items@).last() == (TrajectoryView {
            id: r1->Ok_0,
            query_embedding: embedding,
            steps: Seq::empty(),
            final_score: Some(score),
        }),
        r2->Ok_0.micro_updated == (score >= e0.config.quality_threshold),
        score >= e0.config.quality_threshold ==> e2.micro.pair.up@ == e0.micro.learned(
            embedding,
            score - e0.baseline,
            e0.config.micro_lora_lr as int,
        ),
        score >= e0.config.quality_threshold && e0.micro.learns(
            embedding,
            score - e0.baseline,
            e0.config.micro_lora_lr as int,
        ) ==> e2.micro.pair.up@ != e0.micro.pair.up@,
{
    let id = e0.recorder.next_id;
    let before = views(e0.recorder.open@);
    let open = views(e1.recorder.open@);
    assert forall|k: int| 0 <= k < before.len() implies (#[trigger] open[k]).id != id by {
        assert(open[k] == before[k]);
        assert(e0.recorder.open@[k]@ == before[k]);
    }
    lemma_position_is(open, id, before.len() as int);
    assert(e1.recorder.is_open(id));
    assert(open.remove(before.len() as int) =~= before);
    if score >= e0.config.quality_threshold {
        let rate = e0.config.micro_lora_lr as int;
        if e0.micro.learns(embedding, score - e0.baseline, rate) {
            e0.micro.pair.lemma_reinforce_moves(
                increment(rate, score - e0.baseline, embedding, e0.config.hidden_dim as nat),
                e0.micro.pair.hidden(fitted(embedding, e0.config.hidden_dim as nat)),
            );
        }
    }
}

/// Ending a trajectory twice: the second call is refused and changes
/// nothing.
pub proof fn lemma_end_twice(
    e0: WasmSonaEngine,
    id: u64,
    s1: i64,
    r1: Result<TrajectoryOutcome, SonaError>,
    e1: WasmSonaEngine,
    s2: i64,
    r2: Result<TrajectoryOutcome, SonaError>,
    e2: WasmSonaEngine,
)
    requires
        e0.wf(),
        e0.ended(id, s1, r1, &e1),
        r1 is Ok,
        e1.ended(id, s2, r2, &e2),
    ensures
        r2 is Err,
        is_score(s2 as int) ==> r2->Err_0 == SonaError::InvalidState,
        !is_score(s2 as int) ==> r2->Err_0 == SonaError::InvalidInput,
        e2 == e1,
{
}

/// A cycle that completes consumes its batch, which is the whole buffer,
/// and renews the anchor once; one that diverges leaves buffer, weights
/// and anchor as they were.
pub proof fn lemma_cycle_conserves(e0: WasmSonaEngine, now_ms: u64, report: CycleReport, e1: WasmSonaEngine)
    requires
        e0.wf(),
        e0.cycled(now_ms, report, &e1),
    ensures
        report.status == CycleStatus::Completed || report.status == CycleStatus::Diverged,
        report.batch_size == e0.buffer.items@.len(),
        report.status == CycleStatus::Completed ==> {
            &&& e1.buffer.items@.len() == e0.buffer.items@.len() - report.batch_size
            &&& e1.anchor.version == e0.anchor.version + 1
            &&& e1.counters.consumed == e0.counters.consumed + report.batch_size
        },
        report.status == CycleStatus::Diverged ==> {
            &&& e1.buffer == e0.buffer
            &&& e1.base == e0.base
            &&& e1.anchor == e0.anchor
            &&& e1.carry == e0.carry
        },
        e1.micro == e0.micro,
        e1.patterns == e0.patterns,
        e1.recorder == e0.recorder,
{
}

/// A disabled engine passes inputs through, and the end of a trajectory
/// changes neither adapter.  The slow adapter is never changed by the end
/// of a trajectory.
pub proof fn lemma_disabled_is_inert(
    e0: WasmSonaEngine,
    input: Seq<i64>,
    layer: int,
    id: u64,
    score: i64,
    r: Result<TrajectoryOutcome, SonaError>,
    e1: WasmSonaEngine,
)
    requires
        e0.ended(id, score, r, &e1),
    ensures
        !e0.enabled ==> e0.micro_output(input) == input,
        !e0.enabled ==> e0.base_output(layer, input) == input,
        !e0.enabled ==> e1.micro == e0.micro,
        e1.base == e0.base,
        e1.anchor == e0.anchor,
{
}

/// A forced cycle on an engine without buffered trajectories reports
/// that no work was done and changes nothing.
pub proof fn lemma_nothing_to_learn(e0: WasmSonaEngine, now_ms: u64, report: CycleReport, e1: WasmSonaEngine)
    requires
        e0.buffer.items@.len() == 0,
        e0.forced(now_ms, report, &e1),
    ensures
        report.status == if !e0.enabled {
            CycleStatus::Disabled
        } else if e0.scheduler.state == SchedulerState::Running {
            CycleStatus::Busy
        } else {
            CycleStatus::NothingToLearn
        },
        report.batch_size == 0,
        e1 == e0,
{
}

/// A cycle in two phases does what a cycle at once does: when nothing
/// happens between `begin_cycle` and `complete_cycle`, the slow adapter
/// takes the same step, the anchor is renewed in the same way, and the
/// batch is consumed; and when the step diverges, the buffer holds what it
/// held.
pub proof fn lemma_two_phases_agree(
    e0: WasmSonaEngine,
    now_ms: u64,
    forced: bool,
    begun: Result<CycleJob, CycleReport>,
    e1: WasmSonaEngine,
    outcome: Consolidation,
    report: CycleReport,
    e2: WasmSonaEngine,
)
    requires
        e0.wf(),
        e0.cycle_refusal(now_ms, forced) is None,
        e0.cycle_begun(now_ms, forced, begun, &e1),
        begun is Ok ==> begun->Ok_0.yields(&outcome) && e1.cycle_completed(
            &begun->Ok_0,
            &outcome,
            now_ms,
            report,
            &e2,
        ),
    ensures
        begun is Ok,
        report.status == e0.cycle_report().status,
        report.batch_size == e0.cycle_report().batch_size,
        report.eligible == e0.cycle_report().eligible,
        report.mean_score == e0.cycle_report().mean_score,
        e2.scheduler.state == SchedulerState::Idle,
        e2.in_flight == 0,
        !e0.cycle_diverges() ==> {
            &&& e0.base.steps_to(
                &e0.anchor,
                e0.cycle_targets(),
                e0.config.base_lora_lr as int,
                e0.config.ewc_lambda as int,
                &e2.base,
                &e2.anchor,
            )
            &&& e2.buffer.items@.len() == 0
            &&& e2.counters.consumed == e0.counters.consumed + e0.buffer.items@.len()
        },
        e0.cycle_diverges() ==> {
            &&& e2.base == e0.base
            &&& e2.anchor == e0.anchor
            &&& views(e2.buffer.items@) == views(e0.buffer.items@)
            &&& e2.carry@ == e0.carry@
            &&& e2.counters.dropped == e0.counters.dropped
        },
{
    let job = begun->Ok_0;
    let g = e0.cycle_targets();
    let rate = e0.config.base_lora_lr as int;
    let lambda = e0.config.ewc_lambda as int;
    lemma_same_adapter_same_targets(
        &job.base,
        &e0.base,
        views(e0.buffer.items@),
        e0.carry@,
        e0.config.quality_threshold as int,
        e0.baseline as int,
    );
    lemma_same_adapter_same_step(&job.base, &job.anchor, &e0.base, &e0.anchor, g, rate, lambda);
    assert(!e1.is_stale(&job, &outcome));
    if e0.cycle_diverges() {
        let all = views(job.batch@) + views(e1.buffer.items@);
        assert(all =~= views(e0.buffer.items@));
        assert(e2.carry@ =~= e0.carry@);
    }
}

/// A fresh engine is the identity on every vector.
pub proof fn lemma_fresh_is_identity(e: WasmSonaEngine, input: Seq<i64>, layer: int)
    requires
        e.wf(),
        e.is_fresh(),
        is_vector(input, e.config.hidden_dim as int),
        0 <= layer < e.base.layers@.len(),
    ensures
        e.micro_output(input) == input,
        e.base_output(layer, input) == input,
{
    e.micro.pair.lemma_zero_up_is_identity(input);
    e.base.layers@[layer].lemma_zero_up_is_identity(input);
}

} // verus!
