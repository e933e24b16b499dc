//! The static parameters of an engine.

use vstd::prelude::*;
use crate::error::SonaError;
use crate::fixed::{MAX_DIM, MAX_RANK, RATE_LIMIT, SCALE};

verus! {

/// Largest number of patterns.
pub const MAX_PATTERNS: usize = 65_536;

/// Largest number of buffered trajectories.
pub const MAX_CAPACITY: usize = 1_000_000;

/// Largest number of base layers.
pub const MAX_LAYERS: usize = 256;

/// Largest cluster radius: no two vectors are farther apart along one
/// axis.
pub const RADIUS_LIMIT: i64 = 2_000_000_000;

/// The parameters of an engine.  Rates, lambda, threshold and radius are
/// fixed-point numbers.
#[derive(Clone, Copy, Debug, PartialEq, Eq, Structural)]
pub struct SonaConfig {
    /// Dimension of the vectors that the adapters transform.
    pub hidden_dim: usize,
    /// Dimension of the query embeddings.
    pub embedding_dim: usize,
    pub micro_lora_rank: usize,
    pub base_lora_rank: usize,
    /// Learning rate of the fast adapter, fixed-point.
    pub micro_lora_lr: i64,
    /// Learning rate of the slow adapter, fixed-point.
    pub base_lora_lr: i64,
    /// Strength of the pull toward the anchor, fixed-point.
    pub ewc_lambda: i64,
    /// Capacity of the pattern memory.
    pub pattern_clusters: usize,
    /// Capacity of the trajectory buffer.
    pub trajectory_capacity: usize,
    /// Score from which a trajectory drives adaptation, fixed-point.
    pub quality_threshold: i64,
    /// Number of layers of the slow adapter.
    pub base_layers: usize,
    /// Euclidean distance up to which an embedding joins a pattern,
    /// fixed-point.
    pub cluster_radius: i64,
    /// Time after which a cycle is due, in milliseconds.
    pub background_interval_ms: u64,
    /// Number of buffered trajectories above which a cycle is due.
    pub batch_size: usize,
}

impl SonaConfig {
    /// Every size is positive and within its limit, the fast rank is below
    /// the slow one, rates and lambda are non-negative and within
    /// `RATE_LIMIT`, the threshold is a score.
    pub open spec fn valid(&self) -> bool {
        &&& 0 < self.hidden_dim <= MAX_DIM
        &&& 0 < self.embedding_dim <= MAX_DIM
        &&& 0 < self.micro_lora_rank < self.base_lora_rank <= MAX_RANK
        &&& 0 <= self.micro_lora_lr <= RATE_LIMIT
        &&& 0 <= self.base_lora_lr <= RATE_LIMIT
        &&& 0 <= self.ewc_lambda <= RATE_LIMIT
        &&& 0 < self.pattern_clusters <= MAX_PATTERNS
        &&& 0 < self.trajectory_capacity <= MAX_CAPACITY
        &&& 0 <= self.quality_threshold <= SCALE
        &&& 0 < self.base_layers <= MAX_LAYERS
        &&& 0 <= self.cluster_radius <= RADIUS_LIMIT
        &&& 0 < self.background_interval_ms
        &&& 0 < self.batch_size
    }

    /// The default parameters for vectors of `hidden_dim` components.
    pub open spec fn for_dim(hidden_dim: usize) -> SonaConfig {
        SonaConfig {
            hidden_dim,
            embedding_dim: hidden_dim,
            micro_lora_rank: 2,
            base_lora_rank: 16,
            micro_lora_lr: 1_000,
            base_lora_lr: 100,
            ewc_lambda: 1_000_000_000,
            pattern_clusters: 128,
            trajectory_capacity: 10_000,
            quality_threshold: 600_000,
            base_layers: 4,
            cluster_radius: 500_000,
            background_interval_ms: 60_000,
            batch_size: 32,
        }
    }

    /// The default parameters for vectors of `hidden_dim` components.
    pub fn new(hidden_dim: usize) -> (config: SonaConfig)
        ensures
            config == Self::for_dim(hidden_dim),
            config.valid() <==> 0 < hidden_dim <= MAX_DIM,
    {
        SonaConfig {
            hidden_dim,
            embedding_dim: hidden_dim,
            micro_lora_rank: 2,
            base_lora_rank: 16,
            micro_lora_lr: 1_000,
            base_lora_lr: 100,
            ewc_lambda: 1_000_000_000,
            pattern_clusters: 128,
            trajectory_capacity: 10_000,
            quality_threshold: 600_000,
            base_layers: 4,
            cluster_radius: 500_000,
            background_interval_ms: 60_000,
            batch_size: 32,
        }
    }

    /// Accepts the valid configurations and no others.
    pub fn validate(&self) -> (r: Result<(), SonaError>)
        ensures
            r is Ok <==> self.valid(),
            r is Err ==> r == Err::<(), SonaError>(SonaError::InvalidInput),
    {
        let sizes: bool = 0 < self.hidden_dim && self.hidden_dim <= MAX_DIM && 0
            < self.embedding_dim && self.embedding_dim <= MAX_DIM && 0 < self.pattern_clusters
            && self.pattern_clusters <= MAX_PATTERNS && 0 < self.trajectory_capacity
            && self.trajectory_capacity <= MAX_CAPACITY && 0 < self.base_layers && self.base_layers
            <= MAX_LAYERS && 0 < self.batch_size && 0 < self.background_interval_ms;
        let ranks: bool = 0 < self.micro_lora_rank && self.micro_lora_rank < self.base_lora_rank
            && self.base_lora_rank <= MAX_RANK;
        let rates: bool = 0 <= self.micro_lora_lr && self.micro_lora_lr <= RATE_LIMIT && 0
            <= self.base_lora_lr && self.base_lora_lr <= RATE_LIMIT && 0 <= self.ewc_lambda
            && self.ewc_lambda <= RATE_LIMIT;
        let scores: bool = 0 <= self.quality_threshold && self.quality_threshold <= SCALE && 0
            <= self.cluster_radius && self.cluster_radius <= RADIUS_LIMIT;
        if sizes && ranks && rates && scores {
            Ok(())
        } else {
            Err(SonaError::InvalidInput)
        }
    }
}

} // verus!
