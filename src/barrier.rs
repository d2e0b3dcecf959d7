//! Barriers: arrival counting with release at the expected count.
//!
//! Waiting and waking happen outside: an arrival that does not release the
//! barrier waits for the release signal, which carries the participant count.

use vstd::prelude::*;

verus! {

/// A barrier record with the list of arrived workers.
#[derive(Debug, Clone)]
pub struct BarrierState {
    /// Barrier identifier.
    pub id: String,
    /// Training step of the barrier.
    pub step: u64,
    /// Expected number of participants.
    pub expected_participants: usize,
    /// Workers that have arrived, in order of arrival.
    pub arrived_workers: Vec<String>,
    /// Whether the barrier has been released.
    pub released: bool,
    /// Creation time, milliseconds since the Unix epoch.
    pub created_at_ms: i64,
    /// Release time, milliseconds since the Unix epoch.
    pub released_at_ms: Option<i64>,
}

/// Views of a list of strings.
pub open spec fn names(s: Seq<String>) -> Seq<Seq<char>> {
    s.map_values(|x: String| x@)
}

impl BarrierState {
    /// A barrier with nobody arrived.
    pub fn new(id: String, step: u64, expected_participants: usize, now_ms: i64) -> (r: Self)
        ensures
            r.id == id,
            r.step == step,
            r.expected_participants == expected_participants,
            r.arrived_workers@.len() == 0,
            !r.released,
            r.created_at_ms == now_ms,
            r.released_at_ms is None,
    {
        BarrierState {
            id,
            step,
            expected_participants,
            arrived_workers: Vec::new(),
            released: false,
            created_at_ms: now_ms,
            released_at_ms: None,
        }
    }

    /// Records an arrival (a worker counts once) and returns true when this
    /// arrival releases the barrier.
    pub fn arrive(&mut self, worker_id: String, now_ms: i64) -> (r: bool)
        ensures
            names(final(self).arrived_workers@) == if names(old(self).arrived_workers@).contains(worker_id@) {
                names(old(self).arrived_workers@)
            } else {
                names(old(self).arrived_workers@).push(worker_id@)
            },
            r == (!old(self).released && final(self).arrived_workers@.len() >= old(self).expected_participants),
            final(self).released == (old(self).released || r),
            r ==> final(self).released_at_ms == Some(now_ms),
            !r ==> final(self).released_at_ms == old(self).released_at_ms,
            final(self).id == old(self).id,
            final(self).step == old(self).step,
            final(self).expected_participants == old(self).expected_participants,
    {
        let present = self.position(&worker_id);
        if present.is_none() {
            let ghost prev = self.arrived_workers@;
            self.arrived_workers.push(worker_id);
            proof {
                assert(names(self.arrived_workers@) =~= names(prev).push(worker_id@));
            }
        }
        if self.arrived_workers.len() >= self.expected_participants && !self.released {
            self.released = true;
            self.released_at_ms = Some(now_ms);
            return true;
        }
        false
    }

    fn position(&self, worker_id: &String) -> (r: Option<usize>)
        ensures
            match r {
                Some(i) => i < self.arrived_workers@.len() && names(self.arrived_workers@)[i as int] == worker_id@
                    && forall|a: int| 0 <= a < i ==> names(self.arrived_workers@)[a] != worker_id@,
                None => !names(self.arrived_workers@).contains(worker_id@),
            },
    {
        let mut i: usize = 0;
        while i < self.arrived_workers.len()
            invariant
                i <= self.arrived_workers@.len(),
                forall|a: int| 0 <= a < i ==> names(self.arrived_workers@)[a] != worker_id@,
            decreases self.arrived_workers@.len() - i,
        {
            if self.arrived_workers[i] == *worker_id {
                return Some(i);
            }
            i = i + 1;
        }
        None
    }

    /// Place of a worker in the arrival order, counting from 1.
    pub fn arrival_order(&self, worker_id: &str) -> (r: Option<usize>)
        ensures
            match r {
                Some(k) => 1 <= k <= self.arrived_workers@.len() && names(self.arrived_workers@)[k - 1] == worker_id@
                    && forall|a: int| 0 <= a < k - 1 ==> names(self.arrived_workers@)[a] != worker_id@,
                None => !names(self.arrived_workers@).contains(worker_id@),
            },
    {
        let name = worker_id.to_owned();
        let n = self.arrived_workers.len();
        match self.position(&name) {
            Some(i) => Some(i + 1),
            None => None,
        }
    }
}

/// What an arrival at a barrier gets.
#[derive(Debug, Clone, Copy, PartialEq, Eq, Structural)]
pub enum BarrierArrival {
    /// This arrival completes the barrier: every waiter is to be woken with
    /// `participants`.
    Released { participants: u64, arrival_order: u64 },
    /// The caller waits for the release signal.
    Waiting { arrival_order: u64 },
}

/// One arrival at a barrier whose record is `entry` (expected, arrived), or
/// none yet; a new barrier expects the current world size. The arrival that
/// reaches the expected count releases it and the record goes away.
pub open spec fn barrier_step(entry: Option<(u64, u64)>, world_size: u64) -> (Option<(u64, u64)>, BarrierArrival) {
    let (expected, arrived) = match entry {
        Some(e) => e,
        None => (world_size, 0u64),
    };
    let order = (arrived + 1) as u64;
    if order >= expected {
        (None, BarrierArrival::Released { participants: order, arrival_order: order })
    } else {
        (Some((expected, order)), BarrierArrival::Waiting { arrival_order: order })
    }
}

/// One live barrier.
#[derive(Debug)]
struct BarrierEntry {
    id: String,
    expected: u64,
    arrived: u64,
    /// Workers that arrived, in order of arrival.
    workers: Vec<String>,
}

/// The live barriers by id.
#[derive(Debug)]
pub struct BarrierRegistry {
    entries: Vec<BarrierEntry>,
}

impl BarrierRegistry {
    /// The record of a barrier, if live.
    closed spec fn record(&self, id: Seq<char>) -> Option<BarrierEntry> {
        if exists|i: int| 0 <= i < self.entries@.len() && self.entries@[i].id@ == id {
            Some(self.entries@[choose|i: int| 0 <= i < self.entries@.len() && self.entries@[i].id@ == id])
        } else {
            None
        }
    }

    /// The record of a barrier, if live: (expected, arrived).
    pub closed spec fn entry(&self, id: Seq<char>) -> Option<(u64, u64)> {
        match self.record(id) {
            Some(e) => Some((e.expected, e.arrived)),
            None => None,
        }
    }

    /// The workers that arrived at a live barrier, in order; none for a
    /// barrier that is not live.
    pub closed spec fn arrivals(&self, id: Seq<char>) -> Seq<Seq<char>> {
        match self.record(id) {
            Some(e) => names(e.workers@),
            None => Seq::empty(),
        }
    }

    /// Ids are distinct and a live barrier has not reached its count.
    pub closed spec fn wf(&self) -> bool {
        &&& forall|a: int, b: int| 0 <= a < b < self.entries@.len() ==> self.entries@[a].id@ != self.entries@[b].id@
        &&& forall|a: int| 0 <= a < self.entries@.len() ==> (#[trigger] self.entries@[a]).arrived < self.entries@[a].expected
    }

    /// No live barrier.
    pub fn new() -> (r: Self)
        ensures
            r.wf(),
            r.live() == 0,
            forall|id: Seq<char>| #[trigger] r.entry(id) is None,
    {
        BarrierRegistry { entries: Vec::new() }
    }

    /// Number of live barriers.
    pub closed spec fn live(&self) -> nat {
        self.entries@.len()
    }

    /// The workers that arrived at a live barrier, in order.
    pub fn arrived_workers(&self, barrier_id: &str) -> (r: Vec<String>)
        requires
            self.wf(),
        ensures
            names(r@) == self.arrivals(barrier_id@),
    {
        match self.find(barrier_id) {
            Some(i) => {
                proof {
                    let k = choose|k: int| 0 <= k < self.entries@.len() && self.entries@[k].id@ == barrier_id@;
                    if k != i { if k < i { assert(self.entries@[k].id@ != self.entries@[i as int].id@); } else { assert(self.entries@[i as int].id@ != self.entries@[k].id@); } }
                }
                let mut r: Vec<String> = Vec::new();
                let mut j: usize = 0;
                while j < self.entries[i].workers.len()
                    invariant
                        i < self.entries@.len(),
                        j <= self.entries@[i as int].workers@.len(),
                        names(r@) == names(self.entries@[i as int].workers@).subrange(0, j as int),
                    decreases self.entries@[i as int].workers@.len() - j,
                {
                    let ghost prev = r@;
                    r.push(self.entries[i].workers[j].clone());
                    proof {
                        assert(names(r@) =~= names(prev).push(self.entries@[i as int].workers@[j as int]@));
                    }
                    j = j + 1;
                    assert(names(r@) =~= names(self.entries@[i as int].workers@).subrange(0, j as int));
                }
                assert(names(self.entries@[i as int].workers@).subrange(0, j as int) =~= names(self.entries@[i as int].workers@));
                r
            },
            None => {
                let r: Vec<String> = Vec::new();
                assert(names(r@) =~= Seq::<Seq<char>>::empty());
                r
            },
        }
    }

    /// Number of live barriers.
    pub fn live_count(&self) -> (r: usize)
        ensures
            r == self.live(),
    {
        self.entries.len()
    }

    /// Records an arrival at `barrier_id` with the current world size.
    pub fn arrive(&mut self, barrier_id: &str, worker_id: &str, world_size: u64) -> (r: BarrierArrival)
        requires
            old(self).wf(),
        ensures
            final(self).wf(),
            (final(self).entry(barrier_id@), r) == barrier_step(old(self).entry(barrier_id@), world_size),
            r is Waiting ==> final(self).arrivals(barrier_id@) == old(self).arrivals(barrier_id@).push(worker_id@),
            forall|id: Seq<char>| id != barrier_id@ ==> #[trigger] final(self).entry(id) == old(self).entry(id),
            forall|id: Seq<char>| id != barrier_id@ ==> #[trigger] final(self).arrivals(id) == old(self).arrivals(id),
    {
        let name = barrier_id.to_owned();
        let found = self.find(barrier_id);
        let i: usize = match found {
            Some(j) => j,
            None => self.entries.len(),
        };
        let ghost pre = self.entries@;
        proof {
            if i < pre.len() {
                let c = choose|c: int| 0 <= c < pre.len() && pre[c].id@ == barrier_id@;
                if c != i {
                    if c < i { assert(pre[c].id@ != pre[i as int].id@); } else { assert(pre[i as int].id@ != pre[c].id@); }
                }
                assert(old(self).record(barrier_id@) == Some(pre[i as int]));
            } else {
                assert(old(self).entry(barrier_id@) is None);
            }
        }
        if i < self.entries.len() {
            let expected = self.entries[i].expected;
            let order = self.entries[i].arrived + 1;
            if order >= expected {
                let gone = self.entries.remove(i);
                proof {
                    assert(self.entries@ =~= pre.remove(i as int));
                    assert forall|id: Seq<char>| id != barrier_id@ implies #[trigger] self.record(id) == old(self).record(id) by {
                        self.lemma_entry_after_remove(pre, i as int, id);
                    }
                    assert forall|id: Seq<char>| id != barrier_id@ implies #[trigger] self.entry(id) == old(self).entry(id) by {
                        assert(self.record(id) == old(self).record(id));
                    }
                    assert forall|id: Seq<char>| id != barrier_id@ implies #[trigger] self.arrivals(id) == old(self).arrivals(id) by {
                        assert(self.record(id) == old(self).record(id));
                    }
                    assert(self.entry(barrier_id@) is None) by {
                        if exists|j: int| 0 <= j < self.entries@.len() && self.entries@[j].id@ == barrier_id@ {
                            let j = choose|j: int| 0 <= j < self.entries@.len() && self.entries@[j].id@ == barrier_id@;
                            if j < i { assert(pre[j].id@ != pre[i as int].id@); } else { assert(pre[i as int].id@ != pre[j + 1].id@); }
                        }
                    }
                }
                BarrierArrival::Released { participants: order, arrival_order: order }
            } else {
                let mut e = self.entries.remove(i);
                e.arrived = order;
                let ghost before = names(e.workers@);
                e.workers.push(worker_id.to_owned());
                assert(names(e.workers@) =~= before.push(worker_id@));
                self.entries.insert(i, e);
                proof {
                    assert(self.entries@ =~= pre.update(i as int, self.entries@[i as int]));
                    assert forall|id2: Seq<char>| id2 != barrier_id@ implies #[trigger] self.record(id2) == old(self).record(id2) by {
                        if exists|j: int| 0 <= j < pre.len() && pre[j].id@ == id2 {
                            let j = choose|j: int| 0 <= j < pre.len() && pre[j].id@ == id2;
                            assert(self.entries@[j].id@ == id2);
                            let k = choose|k: int| 0 <= k < self.entries@.len() && self.entries@[k].id@ == id2;
                            if k != j { if k < j { assert(pre[k].id@ != pre[j].id@); } else { assert(pre[j].id@ != pre[k].id@); } }
                        }
                        if exists|j: int| 0 <= j < self.entries@.len() && self.entries@[j].id@ == id2 {
                            let j = choose|j: int| 0 <= j < self.entries@.len() && self.entries@[j].id@ == id2;
                            assert(pre[j].id@ == id2);
                        }
                    }
                    assert(self.entries@[i as int].id@ == barrier_id@);
                    let k = choose|k: int| 0 <= k < self.entries@.len() && self.entries@[k].id@ == barrier_id@;
                    if k != i { if k < i { assert(pre[k].id@ != pre[i as int].id@); } else { assert(pre[i as int].id@ != pre[k].id@); } }
                    assert(self.record(barrier_id@) == Some(self.entries@[i as int]));
                    assert forall|id2: Seq<char>| id2 != barrier_id@ implies #[trigger] self.entry(id2) == old(self).entry(id2) by {
                        assert(self.record(id2) == old(self).record(id2));
                    }
                    assert forall|id2: Seq<char>| id2 != barrier_id@ implies #[trigger] self.arrivals(id2) == old(self).arrivals(id2) by {
                        assert(self.record(id2) == old(self).record(id2));
                    }
                }
                BarrierArrival::Waiting { arrival_order: order }
            }
        } else {
            if 1 >= world_size {
                proof {
                    assert(self.entry(barrier_id@) is None);
                }
                BarrierArrival::Released { participants: 1, arrival_order: 1 }
            } else {
                let mut workers: Vec<String> = Vec::new();
                workers.push(worker_id.to_owned());
                self.entries.push(BarrierEntry { id: name, expected: world_size, arrived: 1, workers });
                proof {
                    let n = pre.len() as int;
                    assert(self.entries@[n].id@ == barrier_id@);
                    assert forall|a: int, b: int| 0 <= a < b < self.entries@.len() implies self.entries@[a].id@ != self.entries@[b].id@ by {
                        if b == n { assert(pre[a].id@ != barrier_id@); }
                    }
                    let k = choose|k: int| 0 <= k < self.entries@.len() && self.entries@[k].id@ == barrier_id@;
                    assert(k == n);
                    assert(names(self.entries@[n].workers@) =~= Seq::<Seq<char>>::empty().push(worker_id@));
                    assert(old(self).arrivals(barrier_id@) =~= Seq::<Seq<char>>::empty());
                    assert forall|id2: Seq<char>| id2 != barrier_id@ implies #[trigger] self.record(id2) == old(self).record(id2) by {
                        if exists|j: int| 0 <= j < pre.len() && pre[j].id@ == id2 {
                            let j = choose|j: int| 0 <= j < pre.len() && pre[j].id@ == id2;
                            assert(self.entries@[j].id@ == id2);
                            let k2 = choose|k2: int| 0 <= k2 < self.entries@.len() && self.entries@[k2].id@ == id2;
                            assert(k2 != n);
                            if k2 != j { if k2 < j { assert(pre[k2].id@ != pre[j].id@); } else { assert(pre[j].id@ != pre[k2].id@); } }
                        }
                        if exists|j: int| 0 <= j < self.entries@.len() && self.entries@[j].id@ == id2 {
                            let j = choose|j: int| 0 <= j < self.entries@.len() && self.entries@[j].id@ == id2;
                            assert(j != n);
                            assert(pre[j].id@ == id2);
                        }
                    }
                    assert forall|id2: Seq<char>| id2 != barrier_id@ implies #[trigger] self.entry(id2) == old(self).entry(id2) by {
                        assert(self.record(id2) == old(self).record(id2));
                    }
                    assert forall|id2: Seq<char>| id2 != barrier_id@ implies #[trigger] self.arrivals(id2) == old(self).arrivals(id2) by {
                        assert(self.record(id2) == old(self).record(id2));
                    }
                }
                BarrierArrival::Waiting { arrival_order: 1 }
            }
        }
    }

    fn find(&self, barrier_id: &str) -> (r: Option<usize>)
        ensures
            match r {
                Some(i) => i < self.entries@.len() && self.entries@[i as int].id@ == barrier_id@,
                None => forall|a: int| 0 <= a < self.entries@.len() ==> self.entries@[a].id@ != barrier_id@,
            },
    {
        let name = barrier_id.to_owned();
        let mut i: usize = 0;
        while i < self.entries.len()
            invariant
                name@ == barrier_id@,
                i <= self.entries@.len(),
                forall|a: int| 0 <= a < i ==> self.entries@[a].id@ != barrier_id@,
            decreases self.entries@.len() - i,
        {
            if self.entries[i].id == name {
                return Some(i);
            }
            i = i + 1;
        }
        None
    }

    proof fn lemma_entry_after_remove(&self, pre: Seq<BarrierEntry>, i: int, id: Seq<char>)
        requires
            0 <= i < pre.len(),
            self.entries@ == pre.remove(i),
            forall|a: int, b: int| 0 <= a < b < pre.len() ==> pre[a].id@ != pre[b].id@,
            pre[i].id@ != id,
        ensures
            self.record(id) == (if exists|j: int| 0 <= j < pre.len() && pre[j].id@ == id {
                Some(pre[choose|j: int| 0 <= j < pre.len() && pre[j].id@ == id])
            } else {
                None
            }),
    {
        if exists|j: int| 0 <= j < pre.len() && pre[j].id@ == id {
            let j = choose|j: int| 0 <= j < pre.len() && pre[j].id@ == id;
            let jj = if j < i { j } else { j - 1 };
            assert(self.entries@[jj] == pre[j]);
            let k = choose|k: int| 0 <= k < self.entries@.len() && self.entries@[k].id@ == id;
            let kk = if k < i { k } else { k + 1 };
            assert(self.entries@[k] == pre[kk]);
            if kk != j { if kk < j { assert(pre[kk].id@ != pre[j].id@); } else { assert(pre[j].id@ != pre[kk].id@); } }
        }
        if exists|k: int| 0 <= k < self.entries@.len() && self.entries@[k].id@ == id {
            let k = choose|k: int| 0 <= k < self.entries@.len() && self.entries@[k].id@ == id;
            let kk = if k < i { k } else { k + 1 };
            assert(pre[kk].id@ == id);
        }
    }
}

/// The outcomes of `n` arrivals at a fresh barrier while the world size is
/// `world_size`, with the record left behind.
pub open spec fn run_arrivals(world_size: u64, n: nat) -> (Option<(u64, u64)>, Seq<BarrierArrival>)
    decreases n,
{
    if n == 0 {
        (None, Seq::empty())
    } else {
        let (entry, outs) = run_arrivals(world_size, (n - 1) as nat);
        let (next, out) = barrier_step(entry, world_size);
        (next, outs.push(out))
    }
}

/// With `k` expected participants, the `k` arrivals get the orders 1 to `k`
/// in turn; the first `k - 1` wait and the last releases the barrier with `k`
/// participants, waking every waiter, and the barrier record goes away.
pub proof fn lemma_barrier_releases_once(k: u64)
    requires
        k >= 1,
    ensures
        run_arrivals(k, k as nat).0 is None,
        run_arrivals(k, k as nat).1.len() == k,
        forall|i: int| 0 <= i < k - 1 ==> #[trigger] run_arrivals(k, k as nat).1[i] == (BarrierArrival::Waiting { arrival_order: (i + 1) as u64 }),
        run_arrivals(k, k as nat).1[k - 1] == (BarrierArrival::Released { participants: k, arrival_order: k }),
{
    lemma_barrier_prefix(k, (k - 1) as nat);
}

proof fn lemma_barrier_prefix(k: u64, n: nat)
    requires
        k >= 1,
        n < k,
    ensures
        run_arrivals(k, n).0 == (if n == 0 { None } else { Some((k, n as u64)) }),
        run_arrivals(k, n).1.len() == n,
        forall|i: int| 0 <= i < n ==> #[trigger] run_arrivals(k, n).1[i] == (BarrierArrival::Waiting { arrival_order: (i + 1) as u64 }),
    decreases n,
{
    if n > 0 {
        lemma_barrier_prefix(k, (n - 1) as nat);
        let prev = run_arrivals(k, (n - 1) as nat).1;
        assert forall|i: int| 0 <= i < n implies #[trigger] run_arrivals(k, n).1[i] == BarrierArrival::Waiting { arrival_order: (i + 1) as u64 } by {
            if i < n - 1 {
                assert(run_arrivals(k, n).1[i] == prev[i]);
            }
        }
    }
}

} // verus!
