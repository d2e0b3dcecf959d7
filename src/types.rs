//! Records shared by the registries: datasets, shard assignments, checkpoints.

use vstd::prelude::*;
use crate::hash_ring::string_views;

verus! {

/// Kind of a checkpoint.
#[derive(Debug, Clone, Copy, PartialEq, Eq, Structural)]
pub enum CheckpointType {
    /// Full checkpoint with all state.
    Full,
    /// Incremental checkpoint (delta from the previous one).
    Incremental,
    /// Optimizer state only.
    OptimizerOnly,
    /// Model weights only.
    ModelOnly,
}

/// Number of shards of `total` samples cut into shards of `size`: the ceiling
/// of `total / size`.
pub open spec fn shard_count(total: nat, size: nat) -> nat {
    if size == 0 {
        0
    } else if total % size == 0 {
        total / size
    } else {
        total / size + 1
    }
}

/// Computes the number of shards; `shard_size` must not be 0.
pub fn compute_shard_count(total_samples: u64, shard_size: u64) -> (r: u64)
    requires
        shard_size > 0,
    ensures
        r == shard_count(total_samples as nat, shard_size as nat),
        r <= total_samples,
{
    let q = total_samples / shard_size;
    if total_samples % shard_size == 0 {
        proof {
            assert(q <= total_samples) by (nonlinear_arith)
                requires q == total_samples / shard_size, shard_size > 0;
        }
        q
    } else {
        proof {
            assert(q * shard_size <= total_samples) by (nonlinear_arith)
                requires q == total_samples / shard_size, shard_size > 0;
            assert(q < total_samples) by (nonlinear_arith)
                requires q * shard_size <= total_samples, total_samples % shard_size != 0,
                    q == total_samples / shard_size, shard_size > 0;
        }
        q + 1
    }
}

/// A shard index below the shard count starts inside the samples.
pub proof fn lemma_shard_start_in_range(k: nat, total: nat, size: nat)
    requires
        size > 0,
        k < shard_count(total, size),
    ensures
        k * size < total,
{
    let q = total / size;
    let r = total % size;
    assert(total == q * size + r) by (nonlinear_arith)
        requires q == total / size, r == total % size, size > 0;
    if r == 0 {
        assert(k * size <= (q - 1) * size) by (nonlinear_arith)
            requires k <= q - 1, size > 0;
        assert((q - 1) * size == q * size - size) by (nonlinear_arith);
    } else {
        assert(k * size <= q * size) by (nonlinear_arith)
            requires k <= q, size > 0;
    }
}

/// Dataset registration record.
#[derive(Debug, Clone)]
pub struct DatasetMetadata {
    /// Unique dataset identifier.
    pub id: String,
    /// Storage path.
    pub path: String,
    /// Data format (parquet, tfrecord, ...).
    pub format: String,
    /// Total number of samples.
    pub total_samples: u64,
    /// Number of shards.
    pub total_shards: u64,
    /// Samples per shard.
    pub shard_size: u64,
    /// Whether shard order is shuffled per epoch.
    pub shuffle: bool,
    /// Random seed for shuffling.
    pub seed: u64,
    /// Additional key/value metadata.
    pub metadata: Vec<(String, String)>,
}

impl DatasetMetadata {
    /// Shards are non-empty and their count is the ceiling of samples over size.
    pub open spec fn wf(&self) -> bool {
        &&& self.shard_size > 0
        &&& self.total_shards == shard_count(self.total_samples as nat, self.shard_size as nat)
    }
}

/// Views of key/value pairs.
pub open spec fn pair_views(s: Seq<(String, String)>) -> Seq<(Seq<char>, Seq<char>)> {
    s.map_values(|p: (String, String)| (p.0@, p.1@))
}

/// Copies key/value pairs.
pub fn copy_pairs(v: &Vec<(String, String)>) -> (r: Vec<(String, String)>)
    ensures
        pair_views(r@) == pair_views(v@),
{
    let mut r: Vec<(String, String)> = Vec::new();
    let mut i: usize = 0;
    while i < v.len()
        invariant
            i <= v@.len(),
            pair_views(r@) == pair_views(v@).subrange(0, i as int),
        decreases v@.len() - i,
    {
        let k = v[i].0.clone();
        let x = v[i].1.clone();
        let ghost prev = r@;
        r.push((k, x));
        proof {
            assert(pair_views(r@) =~= pair_views(prev).push((k@, x@)));
        }
        i = i + 1;
        assert(pair_views(r@) =~= pair_views(v@).subrange(0, i as int));
    }
    assert(pair_views(v@).subrange(0, i as int) =~= pair_views(v@));
    r
}

impl DatasetMetadata {
    /// Field by field, `self` holds what `o` holds.
    pub open spec fn same_as(&self, o: DatasetMetadata) -> bool {
        &&& self.id@ == o.id@
        &&& self.path@ == o.path@
        &&& self.format@ == o.format@
        &&& self.total_samples == o.total_samples
        &&& self.total_shards == o.total_shards
        &&& self.shard_size == o.shard_size
        &&& self.shuffle == o.shuffle
        &&& self.seed == o.seed
        &&& pair_views(self.metadata@) == pair_views(o.metadata@)
    }

    /// A copy holding the same values.
    pub fn copy(&self) -> (r: DatasetMetadata)
        ensures
            r.same_as(*self),
    {
        DatasetMetadata {
            id: self.id.clone(),
            path: self.path.clone(),
            format: self.format.clone(),
            total_samples: self.total_samples,
            total_shards: self.total_shards,
            shard_size: self.shard_size,
            shuffle: self.shuffle,
            seed: self.seed,
            metadata: copy_pairs(&self.metadata),
        }
    }
}

/// One shard handed to a worker.
#[derive(Debug, Clone)]
pub struct ShardAssignment {
    /// Dataset identifier.
    pub dataset_id: String,
    /// Assigned shard.
    pub shard_id: u64,
    /// Total shards in the dataset.
    pub total_shards: u64,
    /// First sample (inclusive).
    pub start_index: u64,
    /// End sample (exclusive).
    pub end_index: u64,
    /// Files holding the shard.
    pub file_paths: Vec<String>,
    /// Epoch of the assignment.
    pub epoch: u64,
}

/// First sample of shard `k`.
pub open spec fn shard_start(k: nat, size: nat) -> nat {
    k * size
}

/// End (exclusive) of shard `k`: `min((k + 1) * size, total)`.
pub open spec fn shard_end(k: nat, size: nat, total: nat) -> nat {
    if (k + 1) * size < total {
        (k + 1) * size
    } else {
        total
    }
}

impl ShardAssignment {
    /// This is the assignment of shard `k` of dataset `d` in `epoch`.
    pub open spec fn describes(&self, d: DatasetMetadata, k: u64, epoch: u64) -> bool {
        &&& self.dataset_id@ == d.id@
        &&& self.shard_id == k
        &&& self.total_shards == d.total_shards
        &&& self.start_index == shard_start(k as nat, d.shard_size as nat)
        &&& self.end_index == shard_end(k as nat, d.shard_size as nat, d.total_samples as nat)
        &&& string_views(self.file_paths@) == seq![d.path@]
        &&& self.epoch == epoch
    }
}

/// Builds the assignment of shard `k` of `d` in `epoch`.
pub fn make_assignment(d: &DatasetMetadata, k: u64, epoch: u64) -> (r: ShardAssignment)
    requires
        d.wf(),
        k < d.total_shards,
    ensures
        r.describes(*d, k, epoch),
        r.start_index < r.end_index <= d.total_samples,
{
    proof {
        lemma_shard_start_in_range(k as nat, d.total_samples as nat, d.shard_size as nat);
    }
    let start = k * d.shard_size;
    let end = if d.total_samples - start > d.shard_size {
        start + d.shard_size
    } else {
        d.total_samples
    };
    proof {
        assert((k as nat + 1) * (d.shard_size as nat) == start + d.shard_size) by (nonlinear_arith)
            requires start == k * d.shard_size;
    }
    let mut paths: Vec<String> = Vec::new();
    paths.push(d.path.clone());
    assert(string_views(paths@) =~= seq![d.path@]);
    ShardAssignment {
        dataset_id: d.id.clone(),
        shard_id: k,
        total_shards: d.total_shards,
        start_index: start,
        end_index: end,
        file_paths: paths,
        epoch,
    }
}

/// Metadata of a stored checkpoint.
#[derive(Debug, Clone)]
pub struct CheckpointMetadata {
    /// Unique checkpoint identifier.
    pub id: String,
    /// Training step at the checkpoint.
    pub step: u64,
    /// Training epoch at the checkpoint.
    pub epoch: u64,
    /// Storage path.
    pub path: String,
    /// Size in bytes.
    pub size_bytes: u64,
    /// Creation time, milliseconds since the Unix epoch.
    pub created_at_ms: i64,
    /// Kind of checkpoint.
    pub checkpoint_type: CheckpointType,
    /// Model hash for verification.
    pub model_hash: Option<String>,
    /// Additional key/value metadata.
    pub metadata: Vec<(String, String)>,
}

/// What a checkpoint record holds, as plain values.
pub struct CheckpointView {
    pub id: Seq<char>,
    pub step: u64,
    pub epoch: u64,
    pub path: Seq<char>,
    pub size_bytes: u64,
    pub created_at_ms: i64,
    pub checkpoint_type: CheckpointType,
    pub model_hash: Option<Seq<char>>,
    pub metadata: Seq<(Seq<char>, Seq<char>)>,
}

impl View for CheckpointMetadata {
    type V = CheckpointView;

    open spec fn view(&self) -> CheckpointView {
        CheckpointView {
            id: self.id@,
            step: self.step,
            epoch: self.epoch,
            path: self.path@,
            size_bytes: self.size_bytes,
            created_at_ms: self.created_at_ms,
            checkpoint_type: self.checkpoint_type,
            model_hash: match self.model_hash {
                Some(h) => Some(h@),
                None => None,
            },
            metadata: pair_views(self.metadata@),
        }
    }
}

impl CheckpointMetadata {
    /// A copy holding the same values.
    pub fn copy(&self) -> (r: CheckpointMetadata)
        ensures
            r@ == self@,
    {
        let model_hash = match &self.model_hash {
            Some(h) => Some(h.clone()),
            None => None,
        };
        CheckpointMetadata {
            id: self.id.clone(),
            step: self.step,
            epoch: self.epoch,
            path: self.path.clone(),
            size_bytes: self.size_bytes,
            created_at_ms: self.created_at_ms,
            checkpoint_type: self.checkpoint_type,
            model_hash,
            metadata: copy_pairs(&self.metadata),
        }
    }
}

} // verus!
