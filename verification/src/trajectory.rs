//! Trajectories: their recorder, which holds the open ones, and the
//! bounded buffer that holds the closed ones until a cycle consumes them.

use vstd::prelude::*;
use crate::error::SonaError;
use crate::config::MAX_CAPACITY;
use crate::fixed::{check_within, is_score, is_vector, MAX_DIM, SCALE, VALUE_LIMIT};

verus! {

/// One decision of an interaction.
#[derive(Clone, Copy, Debug, PartialEq, Eq, Structural)]
pub struct TrajectoryStep {
    pub node_id: u32,
    /// A score, fixed-point.
    pub score: i64,
    pub latency_us: u64,
}

/// One recorded interaction.
#[derive(Clone, Debug, PartialEq, Eq)]
pub struct Trajectory {
    pub id: u64,
    pub query_embedding: Vec<i64>,
    pub steps: Vec<TrajectoryStep>,
    /// `None` while the trajectory is open.
    pub final_score: Option<i64>,
}

/// What a trajectory holds.
pub struct TrajectoryView {
    pub id: u64,
    pub query_embedding: Seq<i64>,
    pub steps: Seq<TrajectoryStep>,
    pub final_score: Option<i64>,
}

impl View for Trajectory {
    type V = TrajectoryView;

    open spec fn view(&self) -> TrajectoryView {
        TrajectoryView {
            id: self.id,
            query_embedding: self.query_embedding@,
            steps: self.steps@,
            final_score: self.final_score,
        }
    }
}

impl TrajectoryView {
    /// The embedding is a vector of `dim` components, every score is a
    /// score.
    pub open spec fn wf(&self, dim: int) -> bool {
        &&& is_vector(self.query_embedding, dim)
        &&& forall|i: int| 0 <= i < self.steps.len() ==> is_score(#[trigger] self.steps[i].score as int)
        &&& self.final_score matches Some(s) ==> is_score(s as int)
    }

    /// Whether the trajectory still takes steps.
    pub open spec fn is_open(&self) -> bool {
        self.final_score is None
    }

    /// This trajectory with one more step.
    pub open spec fn with_step(&self, step: TrajectoryStep) -> TrajectoryView {
        TrajectoryView { steps: self.steps.push(step), ..*self }
    }

    /// This trajectory, closed with `score`.
    pub open spec fn sealed(&self, score: i64) -> TrajectoryView {
        TrajectoryView { final_score: Some(score), ..*self }
    }
}

/// The views of a sequence of trajectories.
pub open spec fn views(s: Seq<Trajectory>) -> Seq<TrajectoryView> {
    Seq::new(s.len(), |i: int| s[i]@)
}

/// The position in `s` of the trajectory with this id, or `s.len()`.
pub open spec fn position(s: Seq<TrajectoryView>, id: u64) -> int
    decreases s.len(),
{
    if s.len() == 0 {
        0
    } else if s[0].id == id {
        0
    } else {
        1 + position(s.subrange(1, s.len() as int), id)
    }
}

/// The position is the first index that holds the id, or the length if
/// none does.
pub proof fn lemma_position(s: Seq<TrajectoryView>, id: u64)
    ensures
        0 <= position(s, id) <= s.len(),
        position(s, id) < s.len() ==> s[position(s, id)].id == id,
        forall|i: int| 0 <= i < position(s, id) ==> (#[trigger] s[i]).id != id,
    decreases s.len(),
{
    if s.len() > 0 && s[0].id != id {
        let rest = s.subrange(1, s.len() as int);
        lemma_position(rest, id);
        assert forall|i: int| 0 <= i < position(s, id) implies (#[trigger] s[i]).id != id by {
            if i > 0 {
                assert(rest[i - 1] == s[i]);
            }
        }
    }
}

/// The first index that holds `id` is its position.
pub proof fn lemma_position_is(s: Seq<TrajectoryView>, id: u64, i: int)
    requires
        0 <= i <= s.len(),
        i < s.len() ==> s[i].id == id,
        forall|k: int| 0 <= k < i ==> (#[trigger] s[k]).id != id,
    ensures
        position(s, id) == i,
{
    lemma_position(s, id);
    let p = position(s, id);
    if p < i {
        assert(s[p].id != id);
    }
}

/// The open trajectories and the counter that numbers them.
pub struct TrajectoryRecorder {
    /// Dimension of the embeddings.
    pub dim: usize,
    /// The id that the next trajectory gets; ids start at one.
    pub next_id: u64,
    pub open: Vec<Trajectory>,
}

impl TrajectoryRecorder {
    /// Every open trajectory is well-formed and open, its id was given
    /// out, and no id occurs twice.
    pub open spec fn wf(&self) -> bool {
        &&& 0 < self.dim <= MAX_DIM
        &&& 1 <= self.next_id
        &&& forall|i: int|
            0 <= i < self.open@.len() ==> {
                &&& (#[trigger] self.open@[i])@.wf(self.dim as int)
                &&& self.open@[i]@.is_open()
                &&& 1 <= self.open@[i].id < self.next_id
            }
        &&& forall|i: int, j: int|
            0 <= i < j < self.open@.len() ==> (#[trigger] self.open@[i]).id != (
            #[trigger] self.open@[j]).id
    }

    /// Whether the trajectory with this id is open.
    pub open spec fn is_open(&self, id: u64) -> bool {
        position(views(self.open@), id) < self.open@.len()
    }

    /// The error that an operation on the trajectory `id` with the score
    /// `score` meets, if any.
    pub open spec fn refusal(&self, id: u64, score: i64) -> Option<SonaError> {
        if !is_score(score as int) {
            Some(SonaError::InvalidInput)
        } else if id == 0 || id >= self.next_id {
            Some(SonaError::NotFound)
        } else if !self.is_open(id) {
            Some(SonaError::InvalidState)
        } else {
            None
        }
    }

    /// A recorder without trajectories.
    pub fn new(dim: usize) -> (r: TrajectoryRecorder)
        requires
            0 < dim <= MAX_DIM,
        ensures
            r.wf(),
            r.dim == dim,
            r.next_id == 1,
            r.open@.len() == 0,
    {
        TrajectoryRecorder { dim, next_id: 1, open: Vec::new() }
    }

    /// The index of the open trajectory with this id.
    pub fn find(&self, id: u64) -> (r: Option<usize>)
        ensures
            match r {
                Some(i) => i == position(views(self.open@), id) && i < self.open@.len()
                    && self.open@[i as int].id == id,
                None => !self.is_open(id),
            },
    {
        let mut i: usize = 0;
        while i < self.open.len()
            invariant
                i <= self.open@.len(),
                forall|k: int| 0 <= k < i ==> (#[trigger] self.open@[k]).id != id,
            decreases self.open@.len() - i,
        {
            if self.open[i].id == id {
                proof {
                    lemma_position_is(views(self.open@), id, i as int);
                }
                return Some(i);
            }
            i += 1;
        }
        proof {
            lemma_position_is(views(self.open@), id, i as int);
        }
        None
    }

    /// Opens a trajectory for `embedding` and returns its id.
    pub fn begin(&mut self, embedding: Vec<i64>) -> (r: Result<u64, SonaError>)
        requires
            old(self).wf(),
        ensures
            final(self).wf(),
            final(self).dim == old(self).dim,
            !is_vector(embedding@, old(self).dim as int) ==> r == Err::<u64, SonaError>(
                SonaError::InvalidInput,
            ),
            is_vector(embedding@, old(self).dim as int) && old(self).next_id == u64::MAX ==> r
                == Err::<u64, SonaError>(SonaError::InvalidState),
            is_vector(embedding@, old(self).dim as int) && old(self).next_id < u64::MAX ==> r
                == Ok::<u64, SonaError>(old(self).next_id),
            r is Err ==> *final(self) == *old(self),
            r is Ok ==> {
                &&& final(self).next_id == old(self).next_id + 1
                &&& final(self).open@.len() == old(self).open@.len() + 1
                &&& views(final(self).open@) == views(old(self).open@).push(
                    TrajectoryView {
                        id: old(self).next_id,
                        query_embedding: embedding@,
                        steps: Seq::empty(),
                        final_score: None,
                    },
                )
            },
    {
        if embedding.len() != self.dim || !check_within(&embedding, VALUE_LIMIT) {
            return Err(SonaError::InvalidInput);
        }
        if self.next_id == u64::MAX {
            return Err(SonaError::InvalidState);
        }
        let id: u64 = self.next_id;
        let t = Trajectory { id, query_embedding: embedding, steps: Vec::new(), final_score: None };
        self.open.push(t);
        self.next_id = id + 1;
        proof {
            assert(views(self.open@) =~= views(old(self).open@).push(t@));
        }
        Ok(id)
    }

    /// Appends a step to the open trajectory `id`.
    pub fn record_step(&mut self, id: u64, node_id: u32, score: i64, latency_us: u64) -> (r: Result<
        (),
        SonaError,
    >)
        requires
            old(self).wf(),
        ensures
            final(self).wf(),
            final(self).dim == old(self).dim,
            final(self).next_id == old(self).next_id,
            match old(self).refusal(id, score) {
                Some(e) => r == Err::<(), SonaError>(e) && *final(self) == *old(self),
                None => r is Ok && final(self).open@.len() == old(self).open@.len() && views(
                    final(self).open@,
                ) == views(old(self).open@).update(
                    position(views(old(self).open@), id),
                    views(old(self).open@)[position(views(old(self).open@), id)].with_step(
                        TrajectoryStep { node_id, score, latency_us },
                    ),
                ),
            },
    {
        if score < 0 || score > SCALE {
            return Err(SonaError::InvalidInput);
        }
        if id == 0 || id >= self.next_id {
            return Err(SonaError::NotFound);
        }
        match self.find(id) {
            None => Err(SonaError::InvalidState),
            Some(i) => {
                self.open[i].steps.push(TrajectoryStep { node_id, score, latency_us });
                proof {
                    assert(views(self.open@) =~= views(old(self).open@).update(
                        i as int,
                        views(old(self).open@)[i as int].with_step(
                            TrajectoryStep { node_id, score, latency_us },
                        ),
                    ));
                    assert forall|a: int| 0 <= a < self.open@.len() implies (
                    #[trigger] self.open@[a]).id == old(self).open@[a].id by {}
                }
                Ok(())
            },
        }
    }

    /// Closes the open trajectory `id` with `final_score` and hands it out.
    pub fn finish(&mut self, id: u64, final_score: i64) -> (r: Result<Trajectory, SonaError>)
        requires
            old(self).wf(),
        ensures
            final(self).wf(),
            final(self).dim == old(self).dim,
            final(self).next_id == old(self).next_id,
            match old(self).refusal(id, final_score) {
                Some(e) => r == Err::<Trajectory, SonaError>(e) && *final(self) == *old(self),
                None => {
                    &&& r is Ok
                    &&& r->Ok_0@ == views(old(self).open@)[position(views(old(self).open@), id)].sealed(
                        final_score,
                    )
                    &&& r->Ok_0.id == id
                    &&& r->Ok_0@.wf(old(self).dim as int)
                    &&& final(self).open@.len() + 1 == old(self).open@.len()
                    &&& views(final(self).open@) == views(old(self).open@).remove(
                        position(views(old(self).open@), id),
                    )
                    &&& !final(self).is_open(id)
                },
            },
    {
        if final_score < 0 || final_score > SCALE {
            return Err(SonaError::InvalidInput);
        }
        if id == 0 || id >= self.next_id {
            return Err(SonaError::NotFound);
        }
        match self.find(id) {
            None => Err(SonaError::InvalidState),
            Some(i) => {
                let mut t: Trajectory = self.open.remove(i);
                t.final_score = Some(final_score);
                proof {
                    assert(views(self.open@) =~= views(old(self).open@).remove(i as int));
                    assert forall|a: int| 0 <= a < self.open@.len() implies (
                    #[trigger] self.open@[a]).id != id by {
                        if a < i {
                            assert(self.open@[a] == old(self).open@[a]);
                            assert(old(self).open@[a].id != old(self).open@[i as int].id);
                        } else {
                            assert(self.open@[a] == old(self).open@[a + 1]);
                            assert(old(self).open@[i as int].id != old(self).open@[a + 1].id);
                        }
                    }
                    lemma_position_is(views(self.open@), id, self.open@.len() as int);
                }
                Ok(t)
            },
        }
    }
}

/// The closed trajectories that wait for a cycle, oldest first.
pub struct TrajectoryBuffer {
    /// Dimension of the embeddings.
    pub dim: usize,
    pub capacity: usize,
    pub items: Vec<Trajectory>,
}

impl TrajectoryBuffer {
    /// At most `capacity` trajectories, each well-formed and closed.
    pub open spec fn wf(&self) -> bool {
        &&& 0 < self.dim <= MAX_DIM
        &&& 0 < self.capacity <= MAX_CAPACITY
        &&& self.items@.len() <= self.capacity
        &&& forall|i: int|
            0 <= i < self.items@.len() ==> {
                &&& (#[trigger] self.items@[i])@.wf(self.dim as int)
                &&& !self.items@[i]@.is_open()
            }
    }

    /// Whether one more trajectory pushes the oldest out.
    pub open spec fn is_full(&self) -> bool {
        self.items@.len() == self.capacity
    }

    /// What the buffer holds after `t` came in: `t` is last, and the
    /// oldest has left if the buffer was full.
    pub open spec fn pushed(&self, t: TrajectoryView) -> Seq<TrajectoryView> {
        if self.is_full() {
            views(self.items@).subrange(1, self.items@.len() as int).push(t)
        } else {
            views(self.items@).push(t)
        }
    }

    /// An empty buffer.
    pub fn new(dim: usize, capacity: usize) -> (b: TrajectoryBuffer)
        requires
            0 < dim <= MAX_DIM,
            0 < capacity <= MAX_CAPACITY,
        ensures
            b.wf(),
            b.dim == dim,
            b.capacity == capacity,
            b.items@.len() == 0,
    {
        TrajectoryBuffer { dim, capacity, items: Vec::new() }
    }

    /// Number of buffered trajectories.
    pub fn len(&self) -> (n: usize)
        ensures
            n == self.items@.len(),
    {
        self.items.len()
    }

    /// Takes a closed trajectory in; says whether the oldest had to leave.
    pub fn push(&mut self, t: Trajectory) -> (evicted: bool)
        requires
            old(self).wf(),
            t@.wf(old(self).dim as int),
            !t@.is_open(),
        ensures
            final(self).wf(),
            final(self).dim == old(self).dim,
            final(self).capacity == old(self).capacity,
            evicted == old(self).is_full(),
            final(self).items@.len() == if evicted {
                old(self).items@.len()
            } else {
                old(self).items@.len() + 1
            },
            views(final(self).items@) == old(self).pushed(t@),
    {
        let evicted: bool = self.items.len() == self.capacity;
        if evicted {
            let _ = self.items.remove(0);
        }
        self.items.push(t);
        proof {
            assert(views(self.items@) =~= old(self).pushed(t@));
        }
        evicted
    }

    /// The last `capacity` of the trajectories `all`.
    pub open spec fn newest(&self, all: Seq<TrajectoryView>) -> Seq<TrajectoryView> {
        if all.len() > self.capacity {
            all.subrange(all.len() - self.capacity, all.len() as int)
        } else {
            all
        }
    }

    /// Hands every trajectory out.
    pub fn take(&mut self) -> (batch: Vec<Trajectory>)
        requires
            old(self).wf(),
        ensures
            final(self).wf(),
            final(self).dim == old(self).dim,
            final(self).capacity == old(self).capacity,
            final(self).items@.len() == 0,
            batch == old(self).items,
    {
        let mut batch: Vec<Trajectory> = Vec::new();
        std::mem::swap(&mut self.items, &mut batch);
        batch
    }

    /// Puts `batch` back in front of what the buffer holds; the oldest
    /// leave if that is more than the buffer can hold.  Says how many
    /// left.
    pub fn restore(&mut self, batch: Vec<Trajectory>) -> (dropped: usize)
        requires
            old(self).wf(),
            forall|i: int|
                0 <= i < batch@.len() ==> (#[trigger] batch@[i])@.wf(old(self).dim as int)
                    && !batch@[i]@.is_open(),
        ensures
            final(self).wf(),
            final(self).dim == old(self).dim,
            final(self).capacity == old(self).capacity,
            views(final(self).items@) == old(self).newest(views(batch@) + views(old(self).items@)),
            final(self).items@.len() + dropped == batch@.len() + old(self).items@.len(),
    {
        let mut all: Vec<Trajectory> = batch;
        all.append(&mut self.items);
        let dropped: usize = if all.len() > self.capacity {
            all.len() - self.capacity
        } else {
            0
        };
        let kept: Vec<Trajectory> = all.split_off(dropped);
        self.items = kept;
        proof {
            assert(views(batch@ + old(self).items@) =~= views(batch@) + views(old(self).items@));
            assert(views(self.items@) =~= old(self).newest(
                views(batch@) + views(old(self).items@),
            ));
        }
        dropped
    }

    /// Drops every trajectory.
    pub fn clear(&mut self)
        requires
            old(self).wf(),
        ensures
            final(self).wf(),
            final(self).dim == old(self).dim,
            final(self).capacity == old(self).capacity,
            final(self).items@.len() == 0,
    {
        self.items = Vec::new();
    }
}

} // verus!
