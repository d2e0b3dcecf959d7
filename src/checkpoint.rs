//! Step-indexed checkpoint registry with retention and the pending-write table.
//!
//! File writes happen outside: `save_async` hands back the request to write,
//! and the writer's outcome comes back through `handle_event`.

use vstd::prelude::*;
use vstd::string::StringExecFns;
use crate::checkpoint_format::WriteRequest;
use crate::error::Error;
use crate::hashing::{append_decimal, decimal_chars, utf8};
use crate::types::{CheckpointMetadata, CheckpointType, CheckpointView, copy_pairs, pair_views};

verus! {

/// Settings of the checkpoint registry.
#[derive(Debug, Clone)]
pub struct CheckpointManagerConfig {
    /// Directory of the checkpoint files.
    pub base_path: String,
    /// Number of checkpoints to keep.
    pub keep_count: usize,
    /// Buffer size for writes, in bytes.
    pub write_buffer_size: usize,
    /// Whether payloads are compressed.
    pub compression: bool,
    /// Compression level (1-9).
    pub compression_level: u32,
}

impl Default for CheckpointManagerConfig {
    fn default() -> (r: Self)
        ensures
            r.base_path@ == "./checkpoints"@,
            r.keep_count == 5,
            r.write_buffer_size == 64 * 1024 * 1024,
            r.compression,
            r.compression_level == 3,
    {
        CheckpointManagerConfig {
            base_path: String::from_str("./checkpoints"),
            keep_count: 5,
            write_buffer_size: 64 * 1024 * 1024,
            compression: true,
            compression_level: 3,
        }
    }
}

/// Capacity of the write queue: one slot per MiB of buffer, at least 16.
pub fn write_queue_capacity(write_buffer_size: usize) -> (r: usize)
    ensures
        r == if write_buffer_size / 1048576 < 16 { 16 } else { write_buffer_size / 1048576 },
{
    let slots = write_buffer_size / 1048576;
    if slots < 16 {
        16
    } else {
        slots
    }
}

/// State of a pending write.
#[derive(Debug, Clone, Copy, PartialEq, Eq, Structural)]
pub enum WriteStatus {
    Pending,
    InProgress,
    Completed,
    Failed,
}

/// A write in flight or finished.
#[derive(Debug, Clone)]
pub struct PendingCheckpoint {
    pub id: String,
    pub step: u64,
    pub epoch: u64,
    pub status: WriteStatus,
    pub error: Option<String>,
}

/// Outcome reported by the writer.
#[derive(Debug)]
pub enum WriterEvent {
    Completed { checkpoint_id: String, size_bytes: u64 },
    Failed { checkpoint_id: String, error: String },
}

/// Index of the first record whose step is at least `step`, or the length.
pub open spec fn step_lower_bound(s: Seq<CheckpointView>, step: u64, j: int) -> int
    decreases s.len() - j,
{
    if j < 0 || j >= s.len() {
        s.len() as int
    } else if s[j].step >= step {
        j
    } else {
        step_lower_bound(s, step, j + 1)
    }
}

/// The index after recording `m` at its step: it replaces a record at the
/// same step, else it is inserted in step order.
pub open spec fn insert_at_step(s: Seq<CheckpointView>, m: CheckpointView) -> Seq<CheckpointView> {
    let p = step_lower_bound(s, m.step, 0);
    if p < s.len() && s[p].step == m.step {
        s.update(p, m)
    } else {
        s.insert(p, m)
    }
}

/// The newest `keep` records (by step) of an ascending index.
pub open spec fn keep_newest(s: Seq<CheckpointView>, keep: nat) -> Seq<CheckpointView> {
    if s.len() > keep {
        s.subrange(s.len() - keep, s.len() as int)
    } else {
        s
    }
}

/// Paths of the records that retention drops.
pub open spec fn evicted_paths(s: Seq<CheckpointView>, keep: nat) -> Seq<Seq<char>> {
    if s.len() > keep {
        s.subrange(0, s.len() - keep).map_values(|v: CheckpointView| v.path)
    } else {
        Seq::empty()
    }
}

/// Steps strictly ascend.
pub open spec fn steps_ascending(s: Seq<CheckpointView>) -> bool {
    forall|a: int, b: int| 0 <= a < b < s.len() ==> s[a].step < s[b].step
}

/// Views of records.
pub open spec fn record_views(s: Seq<CheckpointMetadata>) -> Seq<CheckpointView> {
    s.map_values(|m: CheckpointMetadata| m@)
}

/// Views of strings.
pub open spec fn text_views(s: Seq<String>) -> Seq<Seq<char>> {
    s.map_values(|x: String| x@)
}

/// The identifier of a checkpoint written locally: `ckpt-<step>-<uuid>`.
pub open spec fn local_checkpoint_id(step: u64, uuid: Seq<char>) -> Seq<char> {
    "ckpt-"@ + decimal_chars(step as nat) + "-"@ + uuid
}

/// The file of a checkpoint in `base`: `<base>/<id>.ckpt`.
pub open spec fn checkpoint_path(base: Seq<char>, id: Seq<char>) -> Seq<char> {
    if base.len() == 0 {
        id + ".ckpt"@
    } else if utf8(base).len() > 0 && utf8(base).last() == 47u8 {
        base + id + ".ckpt"@
    } else {
        base + "/"@ + id + ".ckpt"@
    }
}

/// Builds `<base>/<id>.ckpt`.
pub fn make_checkpoint_path(base: &String, id: &String) -> (r: String)
    ensures
        r@ == checkpoint_path(base@, id@),
{
    proof {
        reveal_strlit("/");
        reveal_strlit(".ckpt");
    }
    let mut r = base.clone();
    let bytes = base.as_str().as_bytes();
    let ends_with_slash = bytes.len() > 0 && bytes[bytes.len() - 1] == 47u8;
    if !base.as_str().is_empty() && !ends_with_slash {
        r.append("/");
    }
    r.append(id.as_str());
    r.append(".ckpt");
    proof {
        assert(r@ =~= checkpoint_path(base@, id@));
    }
    r
}

/// Relies on uuid::Uuid::new_v4 and its hyphenated text form: a fresh
/// random identifier; nothing is known of its value.
#[verifier::external_body]
fn new_uuid() -> (r: String) {
    uuid::Uuid::new_v4().to_string()
}

/// The record of a checkpoint registered from outside: a full checkpoint
/// without model hash.
pub open spec fn external_record(
    id: Seq<char>,
    step: u64,
    epoch: u64,
    path: Seq<char>,
    size_bytes: u64,
    now_ms: i64,
    metadata: Seq<(Seq<char>, Seq<char>)>,
) -> CheckpointView {
    CheckpointView {
        id,
        step,
        epoch,
        path,
        size_bytes,
        created_at_ms: now_ms,
        checkpoint_type: CheckpointType::Full,
        model_hash: None,
        metadata,
    }
}

/// The checkpoint registry.
pub struct CheckpointManager {
    /// Settings.
    config: CheckpointManagerConfig,
    /// Records in strictly ascending step order, at most `keep_count` of them.
    checkpoints: Vec<CheckpointMetadata>,
    /// Writes by checkpoint id.
    pending: Vec<PendingCheckpoint>,
}

impl CheckpointManager {
    /// The records, ascending by step.
    pub closed spec fn index(&self) -> Seq<CheckpointView> {
        record_views(self.checkpoints@)
    }

    pub closed spec fn keep(&self) -> nat {
        self.config.keep_count as nat
    }

    pub closed spec fn base(&self) -> Seq<char> {
        self.config.base_path@
    }

    pub closed spec fn pending_list(&self) -> Seq<PendingCheckpoint> {
        self.pending@
    }

    /// Steps strictly ascend and retention holds.
    pub open spec fn wf(&self) -> bool {
        &&& steps_ascending(self.index())
        &&& self.index().len() <= self.keep()
    }

    /// An empty registry.
    pub fn new(config: CheckpointManagerConfig) -> (r: Self)
        ensures
            r.wf(),
            r.index().len() == 0,
            r.pending_list().len() == 0,
            r.keep() == config.keep_count,
            r.base() == config.base_path@,
    {
        let r = CheckpointManager { config, checkpoints: Vec::new(), pending: Vec::new() };
        assert(r.index() =~= Seq::empty());
        r
    }

    /// Records `m` at its step: replaces a record at that step or inserts it.
    fn insert_record(&mut self, m: CheckpointMetadata)
        requires
            steps_ascending(old(self).index()),
        ensures
            final(self).index() == insert_at_step(old(self).index(), m@),
            steps_ascending(final(self).index()),
            final(self).config == old(self).config,
            final(self).pending == old(self).pending,
    {
        let ghost pre = self.index();
        let ghost step = m.step;
        let mut p: usize = 0;
        while p < self.checkpoints.len() && self.checkpoints[p].step < m.step
            invariant
                p <= self.checkpoints@.len(),
                self.index() == pre,
                step == m.step,
                step_lower_bound(pre, step, 0) == step_lower_bound(pre, step, p as int),
                forall|a: int| 0 <= a < p ==> pre[a].step < step,
            decreases self.checkpoints@.len() - p,
        {
            p = p + 1;
        }
        assert(step_lower_bound(pre, step, 0) == p);
        if p < self.checkpoints.len() && self.checkpoints[p].step == m.step {
            let ghost mv = m@;
            self.checkpoints.set(p, m);
            proof {
                assert(self.index() =~= pre.update(p as int, mv));
                assert forall|a: int, b: int| 0 <= a < b < self.index().len() implies self.index()[a].step < self.index()[b].step by {
                    assert(pre[a].step < pre[b].step || a == p || b == p);
                }
            }
        } else {
            let ghost mv = m@;
            self.checkpoints.insert(p, m);
            proof {
                assert(self.index() =~= pre.insert(p as int, mv));
                assert forall|a: int, b: int| 0 <= a < b < self.index().len() implies self.index()[a].step < self.index()[b].step by {
                    if a < p && b == p {
                    } else if a == p {
                        assert(pre[p as int].step >= step);
                        assert(pre[p as int].step != step);
                        if b > p + 1 {
                            assert(pre[p as int].step < pre[b - 1].step);
                        }
                    } else if a < p && b > p {
                        assert(pre[a].step < pre[b - 1].step);
                    } else if a > p {
                        assert(pre[a - 1].step < pre[b - 1].step);
                    }
                }
            }
        }
    }

    /// Drops the oldest records beyond `keep_count`; returns their paths,
    /// oldest first.
    fn apply_retention(&mut self) -> (r: Vec<String>)
        requires
            steps_ascending(old(self).index()),
        ensures
            final(self).index() == keep_newest(old(self).index(), old(self).keep()),
            text_views(r@) == evicted_paths(old(self).index(), old(self).keep()),
            final(self).wf(),
            final(self).config == old(self).config,
            final(self).pending == old(self).pending,
    {
        let ghost pre = self.index();
        let keep = self.config.keep_count;
        let mut gone: Vec<String> = Vec::new();
        let ghost mut d: int = 0;
        while self.checkpoints.len() > keep
            invariant
                keep == self.config.keep_count,
                self.config == old(self).config,
                self.pending == old(self).pending,
                0 <= d <= pre.len(),
                pre.len() > keep ==> d <= pre.len() - keep,
                pre.len() <= keep ==> d == 0,
                self.index() == pre.subrange(d, pre.len() as int),
                text_views(gone@) == pre.subrange(0, d).map_values(|v: CheckpointView| v.path),
            decreases self.checkpoints@.len(),
        {
            let ghost cur = self.checkpoints@;
            proof {
                assert(self.index().len() == cur.len());
                assert(self.index()[0] == pre[d]);
                assert(record_views(cur)[0] == cur[0]@);
            }
            let m = self.checkpoints.remove(0);
            let ghost prev = gone@;
            proof {
                assert(self.checkpoints@ =~= cur.subrange(1, cur.len() as int));
                assert(record_views(self.checkpoints@) =~= record_views(cur).subrange(1, cur.len() as int));
            }
            gone.push(m.path);
            proof {
                assert(m@ == pre[d]);
                assert(text_views(gone@) =~= text_views(prev).push(m@.path));
                assert(text_views(gone@) =~= pre.subrange(0, d + 1).map_values(|v: CheckpointView| v.path));
                d = d + 1;
                assert(self.index() =~= pre.subrange(d, pre.len() as int));
            }
        }
        proof {
            if pre.len() > keep {
                assert(d == pre.len() - keep);
            } else {
                assert(pre.subrange(0, 0).map_values(|v: CheckpointView| v.path) =~= Seq::<Seq<char>>::empty());
                assert(pre.subrange(0, pre.len() as int) =~= pre);
            }
            assert forall|a: int, b: int| 0 <= a < b < self.index().len() implies self.index()[a].step < self.index()[b].step by {
                assert(pre[a + d].step < pre[b + d].step);
            }
        }
        gone
    }

    /// Registers a checkpoint written elsewhere, replacing any record at the
    /// same step, then applies retention. Returns the paths of the records
    /// that retention dropped, for deletion from storage.
    pub fn register_external_checkpoint_at(
        &mut self,
        checkpoint_id: &str,
        step: u64,
        epoch: u64,
        path: &str,
        size_bytes: u64,
        metadata: Vec<(String, String)>,
        now_ms: i64,
    ) -> (r: Vec<String>)
        requires
            old(self).wf(),
        ensures
            final(self).wf(),
            ({
                let rec = external_record(checkpoint_id@, step, epoch, path@, size_bytes, now_ms, pair_views(metadata@));
                let ins = insert_at_step(old(self).index(), rec);
                &&& final(self).index() == keep_newest(ins, old(self).keep())
                &&& text_views(r@) == evicted_paths(ins, old(self).keep())
            }),
            final(self).keep() == old(self).keep(),
            final(self).base() == old(self).base(),
            final(self).pending_list() == old(self).pending_list(),
    {
        let m = CheckpointMetadata {
            id: checkpoint_id.to_owned(),
            step,
            epoch,
            path: path.to_owned(),
            size_bytes,
            created_at_ms: now_ms,
            checkpoint_type: CheckpointType::Full,
            model_hash: None,
            metadata,
        };
        self.insert_record(m);
        self.apply_retention()
    }

    /// Registers a checkpoint written elsewhere, stamped with the clock.
    pub fn register_external_checkpoint(
        &mut self,
        checkpoint_id: &str,
        step: u64,
        epoch: u64,
        path: &str,
        size_bytes: u64,
        metadata: Vec<(String, String)>,
    ) -> (r: Vec<String>)
        requires
            old(self).wf(),
        ensures
            final(self).wf(),
            exists|now: i64| {
                let rec = #[trigger] external_record(checkpoint_id@, step, epoch, path@, size_bytes, now, pair_views(metadata@));
                let ins = insert_at_step(old(self).index(), rec);
                &&& final(self).index() == keep_newest(ins, old(self).keep())
                &&& text_views(r@) == evicted_paths(ins, old(self).keep())
            },
            final(self).keep() == old(self).keep(),
            final(self).base() == old(self).base(),
            final(self).pending_list() == old(self).pending_list(),
    {
        let now = crate::clock::unix_millis();
        self.register_external_checkpoint_at(checkpoint_id, step, epoch, path, size_bytes, metadata, now)
    }

    /// The record with the highest step.
    pub fn latest(&self) -> (r: Option<CheckpointMetadata>)
        ensures
            r is None <==> self.index().len() == 0,
            r is Some ==> r->Some_0@ == self.index().last(),
    {
        let n = self.checkpoints.len();
        if n == 0 {
            None
        } else {
            Some(self.checkpoints[n - 1].copy())
        }
    }

    /// The record chosen for recovery: the latest one.
    pub fn find_recovery_checkpoint(&self) -> (r: Option<CheckpointMetadata>)
        ensures
            r is None <==> self.index().len() == 0,
            r is Some ==> r->Some_0@ == self.index().last(),
    {
        self.latest()
    }

    /// The record at a step.
    pub fn get_by_step(&self, step: u64) -> (r: Option<CheckpointMetadata>)
        ensures
            r is None <==> forall|i: int| 0 <= i < self.index().len() ==> self.index()[i].step != step,
            r is Some ==> r->Some_0@.step == step && self.index().contains(r->Some_0@),
    {
        let mut i: usize = 0;
        while i < self.checkpoints.len()
            invariant
                i <= self.checkpoints@.len(),
                forall|a: int| 0 <= a < i ==> self.index()[a].step != step,
            decreases self.checkpoints@.len() - i,
        {
            if self.checkpoints[i].step == step {
                let c = self.checkpoints[i].copy();
                assert(self.index()[i as int] == c@);
                return Some(c);
            }
            i = i + 1;
        }
        None
    }

    /// Every record, ascending by step.
    pub fn all_checkpoints(&self) -> (r: Vec<CheckpointMetadata>)
        ensures
            record_views(r@) == self.index(),
    {
        let mut r: Vec<CheckpointMetadata> = Vec::new();
        let mut i: usize = 0;
        while i < self.checkpoints.len()
            invariant
                i <= self.checkpoints@.len(),
                record_views(r@) == self.index().subrange(0, i as int),
            decreases self.checkpoints@.len() - i,
        {
            let c = self.checkpoints[i].copy();
            let ghost prev = r@;
            r.push(c);
            proof {
                assert(record_views(r@) =~= record_views(prev).push(c@));
            }
            i = i + 1;
            assert(record_views(r@) =~= self.index().subrange(0, i as int));
        }
        assert(self.index().subrange(0, i as int) =~= self.index());
        r
    }

    /// Index of the first pending entry of `id`.
    fn find_pending(&self, id: &str) -> (r: Option<usize>)
        ensures
            match r {
                Some(i) => i < self.pending@.len() && self.pending@[i as int].id@ == id@
                    && forall|a: int| 0 <= a < i ==> self.pending@[a].id@ != id@,
                None => forall|a: int| 0 <= a < self.pending@.len() ==> self.pending@[a].id@ != id@,
            },
    {
        let name = id.to_owned();
        let mut i: usize = 0;
        while i < self.pending.len()
            invariant
                name@ == id@,
                i <= self.pending@.len(),
                forall|a: int| 0 <= a < i ==> self.pending@[a].id@ != id@,
            decreases self.pending@.len() - i,
        {
            if self.pending[i].id == name {
                return Some(i);
            }
            i = i + 1;
        }
        None
    }

    /// Queues a local checkpoint under `ckpt-<step>-<uuid>`: records it as
    /// pending and returns the request for the writer.
    pub fn save_async_with(
        &mut self,
        uuid: &str,
        data: Vec<u8>,
        step: u64,
        epoch: u64,
        checkpoint_type: CheckpointType,
        metadata: Vec<(String, String)>,
    ) -> (r: WriteRequest)
        requires
            old(self).wf(),
        ensures
            final(self).wf(),
            final(self).index() == old(self).index(),
            final(self).keep() == old(self).keep(),
            final(self).base() == old(self).base(),
            save_queued(*old(self), *final(self), uuid@, data@, step, epoch, checkpoint_type, pair_views(metadata@), r),
    {
        proof {
            reveal_strlit("ckpt-");
            reveal_strlit("-");
        }
        let mut id = String::from_str("ckpt-");
        append_decimal(&mut id, step);
        id.append("-");
        id.append(uuid);
        assert(id@ =~= local_checkpoint_id(step, uuid@));
        let path = make_checkpoint_path(&self.config.base_path, &id);
        let ghost pre = self.pending@;
        self.pending.push(PendingCheckpoint { id: id.clone(), step, epoch, status: WriteStatus::Pending, error: None });
        proof {
            assert forall|i: int| 0 <= i < pre.len() implies #[trigger] self.pending_list()[i] == pre[i] by {}
        }
        WriteRequest { checkpoint_id: id, data, path, step, epoch, checkpoint_type, metadata }
    }

    /// Queues a local checkpoint under a fresh random identifier.
    pub fn save_async(
        &mut self,
        data: Vec<u8>,
        step: u64,
        epoch: u64,
        checkpoint_type: CheckpointType,
        metadata: Vec<(String, String)>,
    ) -> (r: WriteRequest)
        requires
            old(self).wf(),
        ensures
            final(self).wf(),
            final(self).index() == old(self).index(),
            exists|uuid: Seq<char>| #[trigger] save_queued(*old(self), *final(self), uuid, data@, step, epoch, checkpoint_type, pair_views(metadata@), r),
    {
        let uuid = new_uuid();
        self.save_async_with(uuid.as_str(), data, step, epoch, checkpoint_type, metadata)
    }

    /// Marks a pending write as completed at time `now_ms`: its record (a
    /// full checkpoint at `<base>/<id>.ckpt`) enters the index and retention
    /// applies. Returns the paths retention dropped. An unknown id changes
    /// nothing.
    pub fn mark_completed_at(&mut self, checkpoint_id: &str, size_bytes: u64, now_ms: i64) -> (r: Vec<String>)
        requires
            old(self).wf(),
        ensures
            final(self).wf(),
            final(self).keep() == old(self).keep(),
            final(self).base() == old(self).base(),
            completion(*old(self), *final(self), checkpoint_id@, size_bytes, now_ms, text_views(r@)),
    {
        match self.find_pending(checkpoint_id) {
            Some(i) => {
                let step = self.pending[i].step;
                let epoch = self.pending[i].epoch;
                let id = self.pending[i].id.clone();
                let err = self.pending[i].error.clone();
                self.pending.set(i, PendingCheckpoint { id, step, epoch, status: WriteStatus::Completed, error: err });
                let name = checkpoint_id.to_owned();
                let path = make_checkpoint_path(&self.config.base_path, &name);
                let m = CheckpointMetadata {
                    id: name,
                    step,
                    epoch,
                    path,
                    size_bytes,
                    created_at_ms: now_ms,
                    checkpoint_type: CheckpointType::Full,
                    model_hash: None,
                    metadata: Vec::new(),
                };
                assert(pair_views(m.metadata@) =~= Seq::empty());
                self.insert_record(m);
                self.apply_retention()
            },
            None => Vec::new(),
        }
    }

    /// Marks a pending write as completed, stamped with the clock.
    pub fn mark_completed(&mut self, checkpoint_id: &str, size_bytes: u64) -> (r: Vec<String>)
        requires
            old(self).wf(),
        ensures
            final(self).wf(),
            final(self).keep() == old(self).keep(),
            final(self).base() == old(self).base(),
            exists|now: i64| #[trigger] completion(*old(self), *final(self), checkpoint_id@, size_bytes, now, text_views(r@)),
    {
        let now = crate::clock::unix_millis();
        self.mark_completed_at(checkpoint_id, size_bytes, now)
    }

    /// Marks a pending write as failed with its error; an unknown id changes nothing.
    pub fn mark_failed(&mut self, checkpoint_id: &str, error: String)
        requires
            old(self).wf(),
        ensures
            final(self).wf(),
            final(self).index() == old(self).index(),
            final(self).keep() == old(self).keep(),
            final(self).base() == old(self).base(),
            failure(*old(self), *final(self), checkpoint_id@, error@),
    {
        match self.find_pending(checkpoint_id) {
            Some(i) => {
                let step = self.pending[i].step;
                let epoch = self.pending[i].epoch;
                let id = self.pending[i].id.clone();
                self.pending.set(i, PendingCheckpoint { id, step, epoch, status: WriteStatus::Failed, error: Some(error) });
            },
            None => {},
        }
    }

    /// Applies a writer outcome at time `now_ms`; returns the paths that
    /// retention dropped.
    pub fn handle_event_at(&mut self, event: WriterEvent, now_ms: i64) -> (r: Vec<String>)
        requires
            old(self).wf(),
        ensures
            final(self).wf(),
            final(self).keep() == old(self).keep(),
            final(self).base() == old(self).base(),
            match event {
                WriterEvent::Completed { checkpoint_id, size_bytes } =>
                    completion(*old(self), *final(self), checkpoint_id@, size_bytes, now_ms, text_views(r@)),
                WriterEvent::Failed { checkpoint_id, error } =>
                    failure(*old(self), *final(self), checkpoint_id@, error@) && r@.len() == 0,
            },
    {
        match event {
            WriterEvent::Completed { checkpoint_id, size_bytes } => {
                self.mark_completed_at(checkpoint_id.as_str(), size_bytes, now_ms)
            },
            WriterEvent::Failed { checkpoint_id, error } => {
                self.mark_failed(checkpoint_id.as_str(), error);
                let r: Vec<String> = Vec::new();
                assert(text_views(r@) =~= Seq::<Seq<char>>::empty());
                r
            },
        }
    }

    /// Copies of the pending entries.
    pub fn pending_writes(&self) -> (r: Vec<PendingCheckpoint>)
        ensures
            r@.len() == self.pending_list().len(),
            forall|i: int| 0 <= i < r@.len() ==> {
                &&& (#[trigger] r@[i]).id@ == self.pending_list()[i].id@
                &&& r@[i].step == self.pending_list()[i].step
                &&& r@[i].epoch == self.pending_list()[i].epoch
                &&& r@[i].status == self.pending_list()[i].status
            },
    {
        let mut r: Vec<PendingCheckpoint> = Vec::new();
        let mut i: usize = 0;
        while i < self.pending.len()
            invariant
                i <= self.pending@.len(),
                r@.len() == i,
                forall|j: int| 0 <= j < i ==> {
                    &&& (#[trigger] r@[j]).id@ == self.pending@[j].id@
                    &&& r@[j].step == self.pending@[j].step
                    &&& r@[j].epoch == self.pending@[j].epoch
                    &&& r@[j].status == self.pending@[j].status
                },
            decreases self.pending@.len() - i,
        {
            let p = &self.pending[i];
            let e = match &p.error {
                Some(x) => Some(x.clone()),
                None => None,
            };
            r.push(PendingCheckpoint { id: p.id.clone(), step: p.step, epoch: p.epoch, status: p.status, error: e });
            i = i + 1;
        }
        r
    }

    /// Where the pending writes stand: `None` while one is pending or in
    /// progress; else `Ok` when none failed, or an error naming each failure
    /// as `<id>: <error>`.
    pub fn wait_pending_status(&self) -> (r: Option<Result<(), Error>>)
        ensures
            r is None <==> exists|i: int| 0 <= i < self.pending_list().len()
                && (self.pending_list()[i].status == WriteStatus::Pending || self.pending_list()[i].status == WriteStatus::InProgress),
            r is Some ==> (r->Some_0 is Ok <==> forall|i: int| 0 <= i < self.pending_list().len()
                ==> self.pending_list()[i].status != WriteStatus::Failed),
            r is Some && r->Some_0 is Err ==> r->Some_0->Err_0 is CheckpointWriteFailed,
            match r {
                Some(Err(Error::CheckpointWriteFailed { message })) => message@ == failure_report(self.pending_list()),
                _ => true,
            },
    {
        let mut i: usize = 0;
        while i < self.pending.len()
            invariant
                i <= self.pending@.len(),
                forall|a: int| 0 <= a < i ==> self.pending@[a].status != WriteStatus::Pending && self.pending@[a].status != WriteStatus::InProgress,
            decreases self.pending@.len() - i,
        {
            if self.pending[i].status == WriteStatus::Pending || self.pending[i].status == WriteStatus::InProgress {
                return None;
            }
            i = i + 1;
        }
        proof {
            reveal_strlit(", ");
            reveal_strlit(": ");
            reveal_strlit("unknown error");
        }
        let mut message = String::new();
        let mut failed = false;
        let mut j: usize = 0;
        while j < self.pending.len()
            invariant
                j <= self.pending@.len(),
                failed <==> exists|a: int| 0 <= a < j && self.pending@[a].status == WriteStatus::Failed,
                message@ == failure_report(self.pending@.subrange(0, j as int)),
                failed <==> message@.len() > 0,
                ", "@.len() == 2 && ": "@.len() == 2,
            decreases self.pending@.len() - j,
        {
            proof {
                assert(self.pending@.subrange(0, j + 1).drop_last() =~= self.pending@.subrange(0, j as int));
            }
            let p = &self.pending[j];
            if p.status == WriteStatus::Failed {
                if failed {
                    message.append(", ");
                }
                message.append(p.id.as_str());
                message.append(": ");
                match &p.error {
                    Some(e) => message.append(e.as_str()),
                    None => message.append("unknown error"),
                }
                failed = true;
            }
            j = j + 1;
        }
        assert(self.pending@.subrange(0, j as int) =~= self.pending@);
        if failed {
            Some(Err(Error::CheckpointWriteFailed { message }))
        } else {
            Some(Ok(()))
        }
    }

    /// The path of the record with identifier `checkpoint_id`.
    pub fn load_path(&self, checkpoint_id: &str) -> (r: Result<String, Error>)
        ensures
            r is Ok <==> exists|i: int| 0 <= i < self.index().len() && self.index()[i].id == checkpoint_id@,
            r is Ok ==> exists|i: int| 0 <= i < self.index().len() && self.index()[i].id == checkpoint_id@
                && self.index()[i].path == r->Ok_0@,
            r is Err ==> r->Err_0 is CheckpointNotFound,
    {
        let name = checkpoint_id.to_owned();
        let mut i: usize = 0;
        while i < self.checkpoints.len()
            invariant
                name@ == checkpoint_id@,
                i <= self.checkpoints@.len(),
                forall|a: int| 0 <= a < i ==> self.index()[a].id != checkpoint_id@,
            decreases self.checkpoints@.len() - i,
        {
            if self.checkpoints[i].id == name {
                assert(self.index()[i as int].id == checkpoint_id@);
                return Ok(self.checkpoints[i].path.clone());
            }
            i = i + 1;
        }
        Err(Error::CheckpointNotFound { checkpoint_id: name })
    }
}

/// `post` is `pre` after queueing a local checkpoint under
/// `ckpt-<step>-<uuid>`: a Pending entry for it is appended, the index is
/// unchanged, and `r` asks the writer for `<base>/<id>.ckpt` with the data,
/// step, epoch, type and metadata.
pub open spec fn save_queued(
    pre: CheckpointManager,
    post: CheckpointManager,
    uuid: Seq<char>,
    data: Seq<u8>,
    step: u64,
    epoch: u64,
    checkpoint_type: CheckpointType,
    metadata: Seq<(Seq<char>, Seq<char>)>,
    r: WriteRequest,
) -> bool {
    let id = local_checkpoint_id(step, uuid);
    &&& post.index() == pre.index()
    &&& post.keep() == pre.keep()
    &&& post.base() == pre.base()
    &&& post.pending_list().len() == pre.pending_list().len() + 1
    &&& forall|i: int| 0 <= i < pre.pending_list().len() ==> #[trigger] post.pending_list()[i] == pre.pending_list()[i]
    &&& post.pending_list().last().id@ == id
    &&& post.pending_list().last().step == step
    &&& post.pending_list().last().epoch == epoch
    &&& post.pending_list().last().status == WriteStatus::Pending
    &&& post.pending_list().last().error is None
    &&& r.checkpoint_id@ == id
    &&& r.path@ == checkpoint_path(pre.base(), id)
    &&& r.data@ == data
    &&& r.step == step
    &&& r.epoch == epoch
    &&& r.checkpoint_type == checkpoint_type
    &&& pair_views(r.metadata@) == metadata
}

/// The text of a failed-writes error: `<id>: <error>` for each Failed entry
/// in order (`unknown error` when none was kept), joined with `, `.
pub open spec fn failure_report(s: Seq<PendingCheckpoint>) -> Seq<char>
    decreases s.len(),
{
    if s.len() == 0 {
        Seq::empty()
    } else {
        let prev = failure_report(s.drop_last());
        let p = s.last();
        if p.status == WriteStatus::Failed {
            let item = p.id@ + ": "@ + match p.error {
                Some(e) => e@,
                None => "unknown error"@,
            };
            if prev.len() == 0 { item } else { prev + ", "@ + item }
        } else {
            prev
        }
    }
}

/// Index of the first pending entry of `id` in `p`, if any: the entry a
/// writer outcome applies to.
pub open spec fn first_pending(p: Seq<PendingCheckpoint>, id: Seq<char>, i: int) -> bool {
    0 <= i < p.len() && p[i].id@ == id && forall|a: int| 0 <= a < i ==> p[a].id@ != id
}

/// `post` is `pre` after the write of `id` completed at `now` with
/// `size` bytes, retention having dropped the files `dropped`: with no
/// pending entry of `id` nothing changes; else the first such entry turns
/// Completed and its record (a full checkpoint at `<base>/<id>.ckpt`) enters
/// the index, which keeps its newest `keep_count` records.
pub open spec fn completion(
    pre: CheckpointManager,
    post: CheckpointManager,
    id: Seq<char>,
    size: u64,
    now: i64,
    dropped: Seq<Seq<char>>,
) -> bool {
    &&& post.keep() == pre.keep()
    &&& post.base() == pre.base()
    &&& post.pending_list().len() == pre.pending_list().len()
    &&& (forall|a: int| 0 <= a < pre.pending_list().len() ==> pre.pending_list()[a].id@ != id)
        ==> post.index() == pre.index() && dropped.len() == 0 && post.pending_list() == pre.pending_list()
    &&& forall|i: int| #[trigger] first_pending(pre.pending_list(), id, i) ==> {
        let p = pre.pending_list()[i];
        let rec = CheckpointView {
            id,
            step: p.step,
            epoch: p.epoch,
            path: checkpoint_path(pre.base(), id),
            size_bytes: size,
            created_at_ms: now,
            checkpoint_type: CheckpointType::Full,
            model_hash: None,
            metadata: Seq::empty(),
        };
        let ins = insert_at_step(pre.index(), rec);
        &&& post.index() == keep_newest(ins, pre.keep())
        &&& dropped == evicted_paths(ins, pre.keep())
        &&& post.pending_list()[i].status == WriteStatus::Completed
        &&& post.pending_list()[i].id == p.id
        &&& post.pending_list()[i].step == p.step
        &&& post.pending_list()[i].epoch == p.epoch
        &&& forall|j: int| 0 <= j < pre.pending_list().len() && j != i ==> post.pending_list()[j] == pre.pending_list()[j]
    }
}

/// `post` is `pre` after the write of `id` failed with `error`: the index
/// is unchanged; the first pending entry of `id`, if any, turns Failed and
/// keeps the error.
pub open spec fn failure(pre: CheckpointManager, post: CheckpointManager, id: Seq<char>, error: Seq<char>) -> bool {
    &&& post.index() == pre.index()
    &&& post.keep() == pre.keep()
    &&& post.base() == pre.base()
    &&& post.pending_list().len() == pre.pending_list().len()
    &&& (forall|a: int| 0 <= a < pre.pending_list().len() ==> pre.pending_list()[a].id@ != id)
        ==> post.pending_list() == pre.pending_list()
    &&& forall|i: int| #[trigger] first_pending(pre.pending_list(), id, i) ==> {
        &&& post.pending_list()[i].status == WriteStatus::Failed
        &&& post.pending_list()[i].error is Some
        &&& post.pending_list()[i].error->Some_0@ == error
        &&& post.pending_list()[i].id == pre.pending_list()[i].id
        &&& post.pending_list()[i].step == pre.pending_list()[i].step
        &&& post.pending_list()[i].epoch == pre.pending_list()[i].epoch
        &&& forall|j: int| 0 <= j < pre.pending_list().len() && j != i ==> post.pending_list()[j] == pre.pending_list()[j]
    }
}

/// Registering a checkpoint whose step is not below any recorded step makes
/// it the latest record, hence the recovery candidate, when at least one
/// checkpoint is kept.
pub proof fn lemma_register_then_latest(old_index: Seq<CheckpointView>, rec: CheckpointView, keep: nat)
    requires
        steps_ascending(old_index),
        keep >= 1,
        forall|i: int| 0 <= i < old_index.len() ==> old_index[i].step <= rec.step,
    ensures
        keep_newest(insert_at_step(old_index, rec), keep).last() == rec,
        keep_newest(insert_at_step(old_index, rec), keep).len() > 0,
{
    let p = step_lower_bound(old_index, rec.step, 0);
    lemma_lower_bound_facts(old_index, rec.step, 0);
    let ins = insert_at_step(old_index, rec);
    if p < old_index.len() && old_index[p].step == rec.step {
        if p < old_index.len() - 1 {
            assert(old_index[p].step < old_index[old_index.len() - 1].step);
        }
        assert(ins.last() == rec);
    } else {
        if p < old_index.len() {
            assert(old_index[p].step >= rec.step);
        }
        assert(p == old_index.len());
        assert(ins.last() == rec);
    }
}

proof fn lemma_lower_bound_facts(s: Seq<CheckpointView>, step: u64, j: int)
    requires
        0 <= j <= s.len(),
    ensures
        j <= step_lower_bound(s, step, j) <= s.len(),
        forall|a: int| j <= a < step_lower_bound(s, step, j) ==> s[a].step < step,
        step_lower_bound(s, step, j) < s.len() ==> s[step_lower_bound(s, step, j)].step >= step,
    decreases s.len() - j,
{
    if j < s.len() && s[j].step < step {
        lemma_lower_bound_facts(s, step, j + 1);
    }
}

} // verus!