//! Request checks: input validation, per-client rate limiting, request metrics.

use vstd::prelude::*;
use vstd::string::StringExecFns;
use crate::hashing::utf8;
use crate::types::pair_views;

verus! {

/// Kind of a request failure.
#[derive(Debug, Clone, Copy, PartialEq, Eq, Structural)]
pub enum StatusCode {
    InvalidArgument,
    NotFound,
    AlreadyExists,
    ResourceExhausted,
    DeadlineExceeded,
    Internal,
}

/// A request failure with its message.
#[derive(Debug, Clone)]
pub struct Status {
    pub code: StatusCode,
    pub message: String,
}

/// A failure of kind `code`.
pub fn status(code: StatusCode, message: &str) -> (r: Status)
    ensures
        r.code == code,
        r.message@ == message@,
{
    Status { code, message: message.to_owned() }
}

/// Whether the regex `pattern` matches `text` (false if it does not compile).
pub uninterp spec fn regex_matches(pattern: Seq<char>, text: Seq<char>) -> bool;

/// Relies on regex::Regex::new and Regex::is_match: whether the compiled
/// pattern matches the text, a function of the two alone.
#[verifier::external_body]
fn regex_is_match(pattern: &str, text: &str) -> (r: bool)
    ensures
        r == regex_matches(pattern@, text@),
{
    match regex::Regex::new(pattern) {
        Ok(re) => re.is_match(text),
        Err(_) => false,
    }
}

/// Identifier pattern: letters, digits, `_`, `-` and `.`.
pub open spec fn id_pattern() -> Seq<char> {
    "^[a-zA-Z0-9_\\-\\.]+$"@
}

/// Whether some place of `b` holds two dots in a row.
pub open spec fn has_dot_dot(b: Seq<u8>) -> bool {
    exists|i: int| 0 <= i < b.len() - 1 && #[trigger] b[i] == 46u8 && b[i + 1] == 46u8
}

/// Whether `b` holds a zero byte.
pub open spec fn has_nul(b: Seq<u8>) -> bool {
    exists|i: int| 0 <= i < b.len() && b[i] == 0u8
}

/// Limits that requests are held to.
pub struct InputValidator {
    pub max_worker_id_len: usize,
    pub max_dataset_id_len: usize,
    pub max_path_len: usize,
    pub max_metadata_entries: usize,
    pub max_metadata_key_len: usize,
    pub max_metadata_value_len: usize,
}

impl InputValidator {
    /// The default limits: ids of 128 (workers) and 256 (datasets) bytes,
    /// paths of 4096, 64 metadata entries, keys of 128, values of 1024.
    pub fn new() -> (r: Self)
        ensures
            r.max_worker_id_len == 128,
            r.max_dataset_id_len == 256,
            r.max_path_len == 4096,
            r.max_metadata_entries == 64,
            r.max_metadata_key_len == 128,
            r.max_metadata_value_len == 1024,
    {
        InputValidator {
            max_worker_id_len: 128,
            max_dataset_id_len: 256,
            max_path_len: 4096,
            max_metadata_entries: 64,
            max_metadata_key_len: 128,
            max_metadata_value_len: 1024,
        }
    }

    /// An identifier is valid when non-empty, within `max` bytes, and
    /// matched by the identifier pattern (the outcome of that match is
    /// `pattern_ok`).
    pub fn check_id(&self, id: &str, max: usize, pattern_ok: bool) -> (r: Result<(), Status>)
        ensures
            r is Ok <==> (id@.len() > 0 && utf8(id@).len() <= max && pattern_ok),
            r is Err ==> r->Err_0.code == StatusCode::InvalidArgument,
    {
        if id.is_empty() {
            return Err(status(StatusCode::InvalidArgument, "ID cannot be empty"));
        }
        if id.as_bytes().len() > max {
            return Err(status(StatusCode::InvalidArgument, "ID exceeds maximum length"));
        }
        if !pattern_ok {
            return Err(status(StatusCode::InvalidArgument, "ID contains invalid characters"));
        }
        Ok(())
    }

    /// Validates a worker id: non-empty, at most 128 bytes, only letters,
    /// digits, `_`, `-` and `.`.
    pub fn validate_worker_id(&self, id: &str) -> (r: Result<(), Status>)
        ensures
            r is Ok <==> (id@.len() > 0 && utf8(id@).len() <= self.max_worker_id_len && regex_matches(id_pattern(), id@)),
            r is Err ==> r->Err_0.code == StatusCode::InvalidArgument,
    {
        proof {
            reveal_strlit("^[a-zA-Z0-9_\\-\\.]+$");
        }
        let ok = regex_is_match("^[a-zA-Z0-9_\\-\\.]+$", id);
        self.check_id(id, self.max_worker_id_len, ok)
    }

    /// Validates a dataset id like a worker id, with at most 256 bytes.
    pub fn validate_dataset_id(&self, id: &str) -> (r: Result<(), Status>)
        ensures
            r is Ok <==> (id@.len() > 0 && utf8(id@).len() <= self.max_dataset_id_len && regex_matches(id_pattern(), id@)),
            r is Err ==> r->Err_0.code == StatusCode::InvalidArgument,
    {
        proof {
            reveal_strlit("^[a-zA-Z0-9_\\-\\.]+$");
        }
        let ok = regex_is_match("^[a-zA-Z0-9_\\-\\.]+$", id);
        self.check_id(id, self.max_dataset_id_len, ok)
    }

    /// Validates a path: at most 4096 bytes, no `..`, no zero byte.
    pub fn validate_path(&self, path: &str) -> (r: Result<(), Status>)
        ensures
            r is Ok <==> (utf8(path@).len() <= self.max_path_len && !has_dot_dot(utf8(path@)) && !has_nul(utf8(path@))),
            r is Err ==> r->Err_0.code == StatusCode::InvalidArgument,
    {
        let b = path.as_bytes();
        assert(b@ == utf8(path@));
        if b.len() > self.max_path_len {
            return Err(status(StatusCode::InvalidArgument, "Path exceeds maximum length"));
        }
        let mut i: usize = 0;
        while b.len() > 1 && i < b.len() - 1
            invariant
                b@ == utf8(path@),
                i <= b@.len(),
                forall|a: int| 0 <= a < i && a < b@.len() - 1 ==> !(#[trigger] b@[a] == 46u8 && b@[a + 1] == 46u8),
            decreases b@.len() - i,
        {
            if b[i] == 46u8 && b[i + 1] == 46u8 {
                assert(has_dot_dot(b@));
                return Err(status(StatusCode::InvalidArgument, "Path traversal sequences are not allowed"));
            }
            i = i + 1;
        }
        let mut j: usize = 0;
        while j < b.len()
            invariant
                b@ == utf8(path@),
                j <= b@.len(),
                forall|a: int| 0 <= a < j ==> b@[a] != 0u8,
            decreases b@.len() - j,
        {
            if b[j] == 0u8 {
                assert(has_nul(b@));
                return Err(status(StatusCode::InvalidArgument, "Path contains null bytes"));
            }
            j = j + 1;
        }
        Ok(())
    }

    /// Validates metadata: at most 64 entries, keys of at most 128 bytes,
    /// values of at most 1024 bytes.
    pub fn validate_metadata(&self, metadata: &Vec<(String, String)>) -> (r: Result<(), Status>)
        ensures
            r is Ok <==> (metadata@.len() <= self.max_metadata_entries && forall|i: int| 0 <= i < metadata@.len()
                ==> utf8(#[trigger] pair_views(metadata@)[i].0).len() <= self.max_metadata_key_len
                && utf8(pair_views(metadata@)[i].1).len() <= self.max_metadata_value_len),
            r is Err ==> r->Err_0.code == StatusCode::InvalidArgument,
    {
        if metadata.len() > self.max_metadata_entries {
            return Err(status(StatusCode::InvalidArgument, "Metadata exceeds maximum entries"));
        }
        let mut i: usize = 0;
        while i < metadata.len()
            invariant
                i <= metadata@.len(),
                forall|a: int| 0 <= a < i ==> utf8(#[trigger] pair_views(metadata@)[a].0).len() <= self.max_metadata_key_len
                    && utf8(pair_views(metadata@)[a].1).len() <= self.max_metadata_value_len,
            decreases metadata@.len() - i,
        {
            assert(pair_views(metadata@)[i as int] == (metadata@[i as int].0@, metadata@[i as int].1@));
            let kb = metadata[i].0.as_str().as_bytes();
            let vb = metadata[i].1.as_str().as_bytes();
            assert(kb@ == utf8(pair_views(metadata@)[i as int].0));
            assert(vb@ == utf8(pair_views(metadata@)[i as int].1));
            if kb.len() > self.max_metadata_key_len {
                return Err(status(StatusCode::InvalidArgument, "Metadata key too long"));
            }
            if vb.len() > self.max_metadata_value_len {
                return Err(status(StatusCode::InvalidArgument, "Metadata value exceeds maximum length"));
            }
            assert(utf8(pair_views(metadata@)[i as int].0).len() <= self.max_metadata_key_len);
            assert(utf8(pair_views(metadata@)[i as int].1).len() <= self.max_metadata_value_len);
            i = i + 1;
        }
        Ok(())
    }

    /// A numeric field must not be negative.
    pub fn validate_positive(&self, value: i64, field_name: &str) -> (r: Result<(), Status>)
        ensures
            r is Ok <==> value >= 0,
            r is Err ==> r->Err_0.code == StatusCode::InvalidArgument,
    {
        if value < 0 {
            let mut m = field_name.to_owned();
            m.append(" must be non-negative");
            return Err(Status { code: StatusCode::InvalidArgument, message: m });
        }
        Ok(())
    }

    /// A port must lie in `[1, 65535]`.
    pub fn validate_port(&self, port: i32) -> (r: Result<(), Status>)
        ensures
            r is Ok <==> 1 <= port <= 65535,
            r is Err ==> r->Err_0.code == StatusCode::InvalidArgument,
    {
        if port < 1 || port > 65535 {
            return Err(status(StatusCode::InvalidArgument, "Port must be between 1 and 65535"));
        }
        Ok(())
    }
}

impl Default for InputValidator {
    fn default() -> (r: Self)
        ensures
            r.max_worker_id_len == 128,
            r.max_path_len == 4096,
    {
        Self::new()
    }
}

/// Idle time after which a client's bucket is dropped by a sweep, in ms.
pub const BUCKET_IDLE_MS: u64 = 300_000;

/// Least time between two sweeps, in ms.
pub const SWEEP_INTERVAL_MS: u64 = 60_000;

/// Token bucket of one client.
#[derive(Debug)]
struct Bucket {
    client: String,
    tokens: u64,
    last_update_ms: u64,
}

/// Per-client token buckets: `rate` tokens per second, at most `burst`.
pub struct RateLimiter {
    rate: u64,
    burst: u64,
    /// Buckets; client ids are distinct.
    buckets: Vec<Bucket>,
    last_cleanup_ms: u64,
}

/// Tokens and refill time after refilling at `now`: `floor(elapsed * rate)`
/// tokens for the elapsed seconds, capped at `burst`.
pub open spec fn refill(tokens: u64, last: u64, now: u64, rate: u64, burst: u64) -> (u64, u64) {
    let elapsed: int = if now > last { now - last } else { 0 };
    let add: int = elapsed * rate / 1000;
    if add > 0 {
        (if tokens + add > burst { burst } else { (tokens + add) as u64 }, now)
    } else {
        (tokens, last)
    }
}

/// Wait suggested to a rejected client, in ms: one token's worth.
pub open spec fn retry_after(rate: u64) -> u64 {
    if rate == 0 { u64::MAX } else { 1000u64 / rate }
}

/// `post` is `pre` after a check of `client` at `now` with outcome `r`:
/// the client's bucket (after a due sweep, or a full new one) is refilled,
/// a token is taken when there is one, and the request is admitted exactly
/// then; a rejection carries the suggested wait. Other clients keep their
/// buckets, but for the idle ones a due sweep drops.
pub open spec fn admitted(pre: RateLimiter, post: RateLimiter, client: Seq<char>, now: u64, r: Result<(), u64>) -> bool {
    let start = pre.start_bucket(client, now);
    let filled = refill(start.0, start.1, now, pre.spec_rate(), pre.spec_burst());
    let sweep = now > pre.last_sweep() && now - pre.last_sweep() > SWEEP_INTERVAL_MS;
    &&& post.spec_rate() == pre.spec_rate()
    &&& post.spec_burst() == pre.spec_burst()
    &&& (r is Ok <==> filled.0 > 0)
    &&& post.bucket_of(client) == Some(if filled.0 > 0 { ((filled.0 - 1) as u64, filled.1) } else { filled })
    &&& (r is Err ==> r->Err_0 == retry_after(pre.spec_rate()))
    &&& forall|c: Seq<char>| c != client ==> #[trigger] post.bucket_of(c) == match pre.bucket_of(c) {
        Some(b) => if sweep && now >= b.1 && now - b.1 >= BUCKET_IDLE_MS { None } else { Some(b) },
        None => None,
    }
}

impl RateLimiter {
    /// The bucket of a client: (tokens, last refill).
    pub closed spec fn bucket_of(&self, client: Seq<char>) -> Option<(u64, u64)> {
        if exists|i: int| 0 <= i < self.buckets@.len() && self.buckets@[i].client@ == client {
            let i = choose|i: int| 0 <= i < self.buckets@.len() && self.buckets@[i].client@ == client;
            Some((self.buckets@[i].tokens, self.buckets@[i].last_update_ms))
        } else {
            None
        }
    }

    pub closed spec fn spec_rate(&self) -> u64 {
        self.rate
    }

    pub closed spec fn spec_burst(&self) -> u64 {
        self.burst
    }

    pub closed spec fn last_sweep(&self) -> u64 {
        self.last_cleanup_ms
    }

    /// Client ids are distinct.
    pub closed spec fn wf(&self) -> bool {
        forall|a: int, b: int| 0 <= a < b < self.buckets@.len() ==> self.buckets@[a].client@ != self.buckets@[b].client@
    }

    /// The bucket a check at `now` starts from: after a due sweep a bucket
    /// idle for `BUCKET_IDLE_MS` or more is gone; a missing bucket is full.
    pub open spec fn start_bucket(&self, client: Seq<char>, now: u64) -> (u64, u64) {
        let sweep = now > self.last_sweep() && now - self.last_sweep() > SWEEP_INTERVAL_MS;
        match self.bucket_of(client) {
            Some(b) => if sweep && now >= b.1 && now - b.1 >= BUCKET_IDLE_MS { (self.spec_burst(), now) } else { b },
            None => (self.spec_burst(), now),
        }
    }

    /// A limiter with no client yet, last swept at `now_ms`.
    pub fn new_at(rate: u64, burst: u64, now_ms: u64) -> (r: Self)
        ensures
            r.wf(),
            r.spec_rate() == rate,
            r.spec_burst() == burst,
            r.last_sweep() == now_ms,
            forall|c: Seq<char>| #[trigger] r.bucket_of(c) is None,
    {
        RateLimiter { rate, burst, buckets: Vec::new(), last_cleanup_ms: now_ms }
    }

    /// A limiter with no client yet, swept from now on.
    pub fn new(rate: u64, burst: u64) -> (r: Self)
        ensures
            r.wf(),
            r.spec_rate() == rate,
            r.spec_burst() == burst,
    {
        let now = crate::clock::unix_millis();
        Self::new_at(rate, burst, if now < 0 { 0 } else { now as u64 })
    }

    fn find(&self, client: &str) -> (r: Option<usize>)
        requires
            self.wf(),
        ensures
            match r {
                Some(i) => i < self.buckets@.len() && self.buckets@[i as int].client@ == client@
                    && self.bucket_of(client@) == Some((self.buckets@[i as int].tokens, self.buckets@[i as int].last_update_ms)),
                None => self.bucket_of(client@) is None,
            },
    {
        let name = client.to_owned();
        let mut i: usize = 0;
        while i < self.buckets.len()
            invariant
                self.wf(),
                name@ == client@,
                i <= self.buckets@.len(),
                forall|a: int| 0 <= a < i ==> self.buckets@[a].client@ != client@,
            decreases self.buckets@.len() - i,
        {
            if self.buckets[i].client == name {
                proof {
                    let c = choose|c: int| 0 <= c < self.buckets@.len() && self.buckets@[c].client@ == client@;
                    if c != i {
                        if c < i { assert(self.buckets@[c].client@ != self.buckets@[i as int].client@); }
                        else { assert(self.buckets@[i as int].client@ != self.buckets@[c].client@); }
                    }
                }
                return Some(i);
            }
            i = i + 1;
        }
        None
    }

    /// Drops, when a sweep is due, the buckets idle for `BUCKET_IDLE_MS` or more.
    fn maybe_cleanup(&mut self, now_ms: u64)
        requires
            old(self).wf(),
        ensures
            final(self).wf(),
            final(self).rate == old(self).rate,
            final(self).burst == old(self).burst,
            forall|c: Seq<char>| #[trigger] final(self).bucket_of(c) == {
                let sweep = now_ms > old(self).last_sweep() && now_ms - old(self).last_sweep() > SWEEP_INTERVAL_MS;
                match old(self).bucket_of(c) {
                    Some(b) => if sweep && now_ms >= b.1 && now_ms - b.1 >= BUCKET_IDLE_MS { None } else { Some(b) },
                    None => None,
                }
            },
    {
        if !(now_ms > self.last_cleanup_ms && now_ms - self.last_cleanup_ms > SWEEP_INTERVAL_MS) {
            return;
        }
        self.last_cleanup_ms = now_ms;
        let ghost pre = self.buckets@;
        let mut old_b: Vec<Bucket> = Vec::new();
        std::mem::swap(&mut old_b, &mut self.buckets);
        let ghost mut k: int = 0;
        while old_b.len() > 0
            invariant
                0 <= k <= pre.len(),
                old_b@ == pre.subrange(k, pre.len() as int),
                self.rate == old(self).rate,
                self.burst == old(self).burst,
                forall|a: int, b: int| 0 <= a < b < pre.len() ==> pre[a].client@ != pre[b].client@,
                forall|a: int| 0 <= a < self.buckets@.len() ==> exists|b: int| 0 <= b < k && pre[b] == #[trigger] self.buckets@[a],
                forall|b: int| 0 <= b < k && !(now_ms >= pre[b].last_update_ms && now_ms - pre[b].last_update_ms >= BUCKET_IDLE_MS)
                    ==> exists|a: int| 0 <= a < self.buckets@.len() && self.buckets@[a] == #[trigger] pre[b],
                forall|a: int| 0 <= a < self.buckets@.len() ==> !(now_ms >= (#[trigger] self.buckets@[a]).last_update_ms && now_ms - self.buckets@[a].last_update_ms >= BUCKET_IDLE_MS),
                forall|a: int, b: int| 0 <= a < b < self.buckets@.len() ==> self.buckets@[a].client@ != self.buckets@[b].client@,
            decreases old_b@.len(),
        {
            let x = old_b.remove(0);
            proof {
                assert(x == pre[k]);
                assert(old_b@ =~= pre.subrange(k + 1, pre.len() as int));
            }
            let ghost prev = self.buckets@;
            if !(now_ms >= x.last_update_ms && now_ms - x.last_update_ms >= BUCKET_IDLE_MS) {
                self.buckets.push(x);
                proof {
                    assert(self.buckets@[prev.len() as int] == pre[k]);
                    assert forall|a: int| 0 <= a < self.buckets@.len() implies exists|b: int| 0 <= b < k + 1 && pre[b] == #[trigger] self.buckets@[a] by {
                        if a < prev.len() {
                            assert(self.buckets@[a] == prev[a]);
                            let b = choose|b: int| 0 <= b < k && pre[b] == prev[a];
                        }
                    }
                    assert forall|b: int| 0 <= b < k + 1 && !(now_ms >= pre[b].last_update_ms && now_ms - pre[b].last_update_ms >= BUCKET_IDLE_MS)
                        implies exists|a: int| 0 <= a < self.buckets@.len() && self.buckets@[a] == #[trigger] pre[b] by {
                        if b < k {
                            let a = choose|a: int| 0 <= a < prev.len() && prev[a] == pre[b];
                            assert(self.buckets@[a] == prev[a]);
                        }
                    }
                    assert forall|a: int, b: int| 0 <= a < b < self.buckets@.len() implies self.buckets@[a].client@ != self.buckets@[b].client@ by {
                        if b == prev.len() {
                            assert(self.buckets@[a] == prev[a]);
                            let q = choose|q: int| 0 <= q < k && pre[q] == prev[a];
                            assert(pre[q].client@ != pre[k].client@);
                        } else {
                            assert(self.buckets@[a] == prev[a]);
                            assert(self.buckets@[b] == prev[b]);
                        }
                    }
                }
            }
            proof { k = k + 1; }
        }
        proof {
            assert forall|c: Seq<char>| #[trigger] self.bucket_of(c) == (match old(self).bucket_of(c) {
                Some(b) => if now_ms >= b.1 && now_ms - b.1 >= BUCKET_IDLE_MS { None } else { Some(b) },
                None => None,
            }) by {
                if exists|i: int| 0 <= i < self.buckets@.len() && self.buckets@[i].client@ == c {
                    let i = choose|i: int| 0 <= i < self.buckets@.len() && self.buckets@[i].client@ == c;
                    let b = choose|b: int| 0 <= b < k && pre[b] == self.buckets@[i];
                    assert(pre[b].client@ == c);
                    let j = choose|j: int| 0 <= j < pre.len() && pre[j].client@ == c;
                    if j != b { if j < b { assert(pre[j].client@ != pre[b].client@); } else { assert(pre[b].client@ != pre[j].client@); } }
                } else {
                    if exists|j: int| 0 <= j < pre.len() && pre[j].client@ == c {
                        let j = choose|j: int| 0 <= j < pre.len() && pre[j].client@ == c;
                        if !(now_ms >= pre[j].last_update_ms && now_ms - pre[j].last_update_ms >= BUCKET_IDLE_MS) {
                            let a = choose|a: int| 0 <= a < self.buckets@.len() && self.buckets@[a] == pre[j];
                            assert(self.buckets@[a].client@ == c);
                        }
                    }
                }
            }
        }
    }

    /// Admits or rejects a request of a client at time `now_ms`: the bucket
    /// is refilled, then one token is taken if there is one; a rejection
    /// carries the suggested wait in ms.
    pub fn check_at(&mut self, client_id: &str, now_ms: u64) -> (r: Result<(), u64>)
        requires
            old(self).wf(),
        ensures
            final(self).wf(),
            admitted(*old(self), *final(self), client_id@, now_ms, r),
    {
        let ghost start = old(self).start_bucket(client_id@, now_ms);
        self.maybe_cleanup(now_ms);
        let ghost swept = self.buckets@;
        let ghost swept_self = *self;
        let i = match self.find(client_id) {
            Some(i) => {
                assert((self.buckets@[i as int].tokens, self.buckets@[i as int].last_update_ms) == start);
                i
            },
            None => {
                let ghost pre = self.buckets@;
                self.buckets.push(Bucket { client: client_id.to_owned(), tokens: self.burst, last_update_ms: now_ms });
                proof {
                    let n = pre.len() as int;
                    assert(self.buckets@[n].client@ == client_id@);
                    assert forall|a: int, b: int| 0 <= a < b < self.buckets@.len() implies self.buckets@[a].client@ != self.buckets@[b].client@ by {
                        if b == n {
                            if pre[a].client@ == client_id@ {
                                assert(exists|i: int| 0 <= i < pre.len() && pre[i].client@ == client_id@);
                            }
                        }
                    }
                    assert((self.buckets@[n].tokens, self.buckets@[n].last_update_ms) == start);
                }
                self.buckets.len() - 1
            },
        };
        let ghost mid = self.buckets@;
        let ghost mid_self = *self;
        proof {
            assert forall|c: Seq<char>| c != client_id@ implies #[trigger] self.bucket_of(c) == swept_self.bucket_of(c) by {
                if exists|j: int| 0 <= j < swept.len() && swept[j].client@ == c {
                    let j = choose|j: int| 0 <= j < swept.len() && swept[j].client@ == c;
                    assert(mid[j] == swept[j]);
                    let k = choose|k: int| 0 <= k < mid.len() && mid[k].client@ == c;
                    if k != j {
                        if k < swept.len() {
                            assert(mid[k] == swept[k]);
                            if k < j { assert(swept[k].client@ != swept[j].client@); } else { assert(swept[j].client@ != swept[k].client@); }
                        }
                    }
                }
                if exists|k: int| 0 <= k < mid.len() && mid[k].client@ == c {
                    let k = choose|k: int| 0 <= k < mid.len() && mid[k].client@ == c;
                    if k >= swept.len() {
                        assert(mid[k].client@ == client_id@);
                    } else {
                        assert(mid[k] == swept[k]);
                    }
                }
            }
        }
        assert(mid[i as int].client@ == client_id@);
        assert((mid[i as int].tokens, mid[i as int].last_update_ms) == start);
        let tokens = self.buckets[i].tokens;
        let last = self.buckets[i].last_update_ms;
        let elapsed: u64 = if now_ms > last { now_ms - last } else { 0 };
        let e128 = elapsed as u128;
        let r128 = self.rate as u128;
        assert(e128 * r128 <= 0xffff_ffff_ffff_ffff_ffff_ffff_ffff_ffffu128) by (nonlinear_arith)
            requires e128 <= 0xffff_ffff_ffff_ffffu128, r128 <= 0xffff_ffff_ffff_ffffu128;
        let add128: u128 = e128 * r128 / 1000;
        let (mut t, l) = if add128 > 0 {
            let sum: u128 = tokens as u128 + add128;
            (if sum > self.burst as u128 { self.burst } else { sum as u64 }, now_ms)
        } else {
            (tokens, last)
        };
        let allowed = t > 0;
        if allowed {
            t = t - 1;
        }
        let client = self.buckets[i].client.clone();
        self.buckets.set(i, Bucket { client, tokens: t, last_update_ms: l });
        proof {
            assert forall|a: int, b: int| 0 <= a < b < self.buckets@.len() implies self.buckets@[a].client@ != self.buckets@[b].client@ by {
                assert(self.buckets@[a].client@ == mid[a].client@);
                assert(self.buckets@[b].client@ == mid[b].client@);
            }
            assert(self.buckets@[i as int].client@ == client_id@);
            let c = choose|c: int| 0 <= c < self.buckets@.len() && self.buckets@[c].client@ == client_id@;
            if c != i {
                assert(mid[c].client@ == client_id@);
                if c < i { assert(mid[c].client@ != mid[i as int].client@); } else { assert(mid[i as int].client@ != mid[c].client@); }
            }
            assert((elapsed as int) * (self.rate as int) / 1000 == add128 as int);
            assert forall|c: Seq<char>| c != client_id@ implies #[trigger] self.bucket_of(c) == mid_self.bucket_of(c) by {
                let post = self.buckets@;
                if exists|j: int| 0 <= j < mid.len() && mid[j].client@ == c {
                    let j = choose|j: int| 0 <= j < mid.len() && mid[j].client@ == c;
                    assert(j != i);
                    assert(post[j] == mid[j]);
                    let k = choose|k: int| 0 <= k < post.len() && post[k].client@ == c;
                    if k != j {
                        assert(k != i);
                        assert(post[k] == mid[k]);
                        if k < j { assert(mid[k].client@ != mid[j].client@); } else { assert(mid[j].client@ != mid[k].client@); }
                    }
                    assert(self.bucket_of(c) == Some((mid[j].tokens, mid[j].last_update_ms)));
                    let k2 = choose|k2: int| 0 <= k2 < mid.len() && mid[k2].client@ == c;
                    if k2 != j { if k2 < j { assert(mid[k2].client@ != mid[j].client@); } else { assert(mid[j].client@ != mid[k2].client@); } }
                }
                if exists|k: int| 0 <= k < post.len() && post[k].client@ == c {
                    let k = choose|k: int| 0 <= k < post.len() && post[k].client@ == c;
                    assert(k != i);
                    assert(post[k] == mid[k]);
                }
            }
            assert forall|c: Seq<char>| c != client_id@ implies #[trigger] self.bucket_of(c) == swept_self.bucket_of(c) by {
                assert(self.bucket_of(c) == mid_self.bucket_of(c));
                assert(mid_self.bucket_of(c) == swept_self.bucket_of(c));
            }
        }
        if allowed {
            Ok(())
        } else {
            Err(if self.rate == 0 { u64::MAX } else { 1000 / self.rate })
        }
    }

    /// Admits or rejects a request of a client, using the clock.
    pub fn check(&mut self, client_id: &str) -> (r: Result<(), u64>)
        requires
            old(self).wf(),
        ensures
            final(self).wf(),
            exists|now: u64| #[trigger] admitted(*old(self), *final(self), client_id@, now, r),
    {
        let now = crate::clock::unix_millis();
        self.check_at(client_id, if now < 0 { 0 } else { now as u64 })
    }
}

/// Views of per-method counters.
pub open spec fn counter_views(s: Seq<(String, u64)>) -> Seq<(Seq<char>, u64)> {
    s.map_values(|e: (String, u64)| (e.0@, e.1))
}

/// The count recorded for `method`, 0 if none is.
pub open spec fn count_for(s: Seq<(Seq<char>, u64)>, method: Seq<char>) -> u64 {
    if exists|i: int| 0 <= i < s.len() && s[i].0 == method {
        s[choose|i: int| 0 <= i < s.len() && s[i].0 == method].1
    } else {
        0
    }
}

/// Keys are distinct.
pub open spec fn distinct_keys(s: Seq<(Seq<char>, u64)>) -> bool {
    forall|a: int, b: int| 0 <= a < b < s.len() ==> s[a].0 != s[b].0
}

/// Ascending order.
pub open spec fn ascending(s: Seq<u64>) -> bool {
    forall|a: int, b: int| 0 <= a < b < s.len() ==> s[a] <= s[b]
}

/// Index of the 99th percentile among `n` sorted samples.
pub open spec fn p99_index(n: nat) -> int {
    if n * 99 / 100 < n { (n * 99 / 100) as int } else { n - 1 }
}

/// Adds one to the counter of `method`, creating it at 1.
fn bump(v: &mut Vec<(String, u64)>, method: &str)
    requires
        distinct_keys(counter_views(old(v)@)),
    ensures
        distinct_keys(counter_views(final(v)@)),
        count_for(counter_views(final(v)@), method@) == if count_for(counter_views(old(v)@), method@) == u64::MAX {
            u64::MAX
        } else {
            (count_for(counter_views(old(v)@), method@) + 1) as u64
        },
        forall|m: Seq<char>| m != method@ ==> #[trigger] count_for(counter_views(final(v)@), m) == count_for(counter_views(old(v)@), m),
{
    let ghost pre = counter_views(v@);
    let name = method.to_owned();
    let found = find_key(v, method);
    if let Some(i) = found {
        let c = v[i].1;
        let key = v[i].0.clone();
        let n = if c == u64::MAX { c } else { c + 1 };
        v.set(i, (key, n));
        proof {
            assert(pre[i as int].1 == c);
            let post = counter_views(v@);
            assert(post =~= pre.update(i as int, (method@, n)));
            assert(pre[i as int].0 == method@);
            let c1 = choose|j: int| 0 <= j < pre.len() && pre[j].0 == method@;
            if c1 != i as int { if c1 < i { assert(pre[c1].0 != pre[i as int].0); } else { assert(pre[i as int].0 != pre[c1].0); } }
            assert(post[i as int].0 == method@);
            let c2 = choose|j: int| 0 <= j < post.len() && post[j].0 == method@;
            if c2 != i as int { if c2 < i { assert(pre[c2].0 != pre[i as int].0); } else { assert(pre[i as int].0 != pre[c2].0); } }
            assert(count_for(pre, method@) == c);
            assert(count_for(post, method@) == n);
            assert forall|a: int, b: int| 0 <= a < b < post.len() implies post[a].0 != post[b].0 by {
                assert(post[a].0 == pre[a].0);
                assert(post[b].0 == pre[b].0);
            }
            assert forall|m: Seq<char>| m != method@ implies #[trigger] count_for(post, m) == count_for(pre, m) by {
                if exists|j: int| 0 <= j < pre.len() && pre[j].0 == m {
                    let j = choose|j: int| 0 <= j < pre.len() && pre[j].0 == m;
                    assert(post[j].0 == m);
                    let k = choose|k: int| 0 <= k < post.len() && post[k].0 == m;
                    if k != j { if k < j { assert(pre[k].0 != pre[j].0); } else { assert(pre[j].0 != pre[k].0); } }
                }
                if exists|j: int| 0 <= j < post.len() && post[j].0 == m {
                    let j = choose|j: int| 0 <= j < post.len() && post[j].0 == m;
                    assert(pre[j].0 == m);
                }
            }
        }
        return;
    }
    v.push((name, 1));
    proof {
        let post = counter_views(v@);
        let n = pre.len() as int;
        assert(post =~= pre.push((method@, 1u64)));
        assert(post[n].0 == method@);
        let c2 = choose|j: int| 0 <= j < post.len() && post[j].0 == method@;
        assert(c2 == n);
        assert forall|a: int, b: int| 0 <= a < b < post.len() implies post[a].0 != post[b].0 by {
            if b == n { assert(pre[a].0 != method@); }
        }
        assert forall|m: Seq<char>| m != method@ implies #[trigger] count_for(post, m) == count_for(pre, m) by {
            if exists|j: int| 0 <= j < pre.len() && pre[j].0 == m {
                let j = choose|j: int| 0 <= j < pre.len() && pre[j].0 == m;
                assert(post[j].0 == m);
                let k = choose|k: int| 0 <= k < post.len() && post[k].0 == m;
                if k != j { if k < j { assert(pre[k].0 != pre[j].0); } else if k < n { assert(pre[j].0 != pre[k].0); } }
            }
            if exists|j: int| 0 <= j < post.len() && post[j].0 == m {
                let j = choose|j: int| 0 <= j < post.len() && post[j].0 == m;
                assert(j < n);
                assert(pre[j].0 == m);
            }
        }
    }
}

/// Index of the counter of `method`.
fn find_key(v: &Vec<(String, u64)>, method: &str) -> (r: Option<usize>)
    ensures
        match r {
            Some(i) => i < v@.len() && counter_views(v@)[i as int].0 == method@,
            None => forall|a: int| 0 <= a < v@.len() ==> counter_views(v@)[a].0 != method@,
        },
{
    let name = method.to_owned();
    let mut i: usize = 0;
    while i < v.len()
        invariant
            name@ == method@,
            i <= v@.len(),
            forall|a: int| 0 <= a < i ==> counter_views(v@)[a].0 != method@,
        decreases v@.len() - i,
    {
        if v[i].0 == name {
            return Some(i);
        }
        i = i + 1;
    }
    None
}

/// The count of `method`.
fn read_count(v: &Vec<(String, u64)>, method: &str) -> (r: u64)
    requires
        distinct_keys(counter_views(v@)),
    ensures
        r == count_for(counter_views(v@), method@),
{
    let name = method.to_owned();
    let mut i: usize = 0;
    while i < v.len()
        invariant
            name@ == method@,
            i <= v@.len(),
            distinct_keys(counter_views(v@)),
            forall|a: int| 0 <= a < i ==> counter_views(v@)[a].0 != method@,
        decreases v@.len() - i,
    {
        if v[i].0 == name {
            proof {
                let s = counter_views(v@);
                assert(s[i as int].0 == method@);
                let c = choose|j: int| 0 <= j < s.len() && s[j].0 == method@;
                if c != i as int { if c < i { assert(s[c].0 != s[i as int].0); } else { assert(s[i as int].0 != s[c].0); } }
            }
            return v[i].1;
        }
        i = i + 1;
    }
    0
}

/// Sorts samples ascending.
pub fn sort_samples(v: &Vec<u64>) -> (r: Vec<u64>)
    ensures
        ascending(r@),
        r@.to_multiset() == v@.to_multiset(),
        r@.len() == v@.len(),
{
    broadcast use vstd::seq_lib::group_to_multiset_ensures, vstd::seq_lib::to_multiset_insert;
    let mut out: Vec<u64> = Vec::new();
    let mut i: usize = 0;
    proof {
        assert(v@.subrange(0, 0) =~= Seq::<u64>::empty());
        assert(out@ =~= Seq::<u64>::empty());
        assert(Seq::<u64>::empty().to_multiset().len() == 0);
        assert(Seq::<u64>::empty().to_multiset() =~= vstd::multiset::Multiset::<u64>::empty());
    }
    while i < v.len()
        invariant
            i <= v@.len(),
            ascending(out@),
            out@.to_multiset() == v@.subrange(0, i as int).to_multiset(),
            out@.len() == i,
        decreases v@.len() - i,
    {
        let x = v[i];
        let mut p: usize = 0;
        while p < out.len() && out[p] <= x
            invariant
                p <= out@.len(),
                forall|a: int| 0 <= a < p ==> out@[a] <= x,
            decreases out@.len() - p,
        {
            p = p + 1;
        }
        let ghost prev = out@;
        out.insert(p, x);
        proof {
            assert(out@ == prev.insert(p as int, x));
            assert forall|a: int, b: int| 0 <= a < b < out@.len() implies out@[a] <= out@[b] by {
                if a < p && b == p {
                } else if a == p && b > p {
                    assert(prev[p as int] > x);
                    assert(prev[p as int] <= prev[b - 1]);
                } else if a < p && b > p {
                    assert(prev[a] <= prev[b - 1]);
                } else if a > p {
                    assert(prev[a - 1] <= prev[b - 1]);
                }
            }
            assert(v@.subrange(0, i + 1) =~= v@.subrange(0, i as int).push(x));
            v@.subrange(0, i as int).to_multiset_ensures();
            vstd::seq_lib::to_multiset_insert(prev, p as int, x);
            assert(v@.subrange(0, i as int).push(x).to_multiset() =~= v@.subrange(0, i as int).to_multiset().insert(x));
            assert(prev.insert(p as int, x).to_multiset() =~= prev.to_multiset().insert(x));
        }
        i = i + 1;
    }
    assert(v@.subrange(0, i as int) =~= v@);
    out
}

/// Per-method request, error and latency records.
pub struct RequestMetrics {
    requests: Vec<(String, u64)>,
    errors: Vec<(String, u64)>,
    /// Recent latencies per method, in microseconds, oldest first.
    latencies: Vec<(String, Vec<u64>)>,
    max_samples: usize,
}

impl RequestMetrics {
    pub closed spec fn request_counts(&self) -> Seq<(Seq<char>, u64)> {
        counter_views(self.requests@)
    }

    pub closed spec fn error_counts(&self) -> Seq<(Seq<char>, u64)> {
        counter_views(self.errors@)
    }

    /// Latency samples of a method, oldest first.
    pub closed spec fn samples(&self, method: Seq<char>) -> Seq<u64> {
        if exists|i: int| 0 <= i < self.latencies@.len() && self.latencies@[i].0@ == method {
            self.latencies@[choose|i: int| 0 <= i < self.latencies@.len() && self.latencies@[i].0@ == method].1@
        } else {
            Seq::empty()
        }
    }

    pub closed spec fn capacity(&self) -> nat {
        self.max_samples as nat
    }

    /// Counter keys are distinct; latency keys are distinct; at least one
    /// sample is kept.
    pub closed spec fn wf(&self) -> bool {
        &&& distinct_keys(self.request_counts())
        &&& distinct_keys(self.error_counts())
        &&& forall|a: int, b: int| 0 <= a < b < self.latencies@.len() ==> self.latencies@[a].0@ != self.latencies@[b].0@
        &&& self.max_samples > 0
    }

    /// No records; 1000 samples kept per method.
    pub fn new() -> (r: Self)
        ensures
            r.wf(),
            r.capacity() == 1000,
            forall|m: Seq<char>| #[trigger] count_for(r.request_counts(), m) == 0 && count_for(r.error_counts(), m) == 0
                && r.samples(m).len() == 0,
    {
        let r = RequestMetrics { requests: Vec::new(), errors: Vec::new(), latencies: Vec::new(), max_samples: 1000 };
        assert(r.request_counts() =~= Seq::empty());
        assert(r.error_counts() =~= Seq::empty());
        r
    }

    /// Counts a request of `method` (saturating).
    pub fn record_request(&mut self, method: &str)
        requires
            old(self).wf(),
        ensures
            final(self).wf(),
            count_for(final(self).request_counts(), method@) == if count_for(old(self).request_counts(), method@) == u64::MAX {
                u64::MAX
            } else {
                (count_for(old(self).request_counts(), method@) + 1) as u64
            },
            forall|m: Seq<char>| m != method@ ==> #[trigger] count_for(final(self).request_counts(), m) == count_for(old(self).request_counts(), m),
            final(self).error_counts() == old(self).error_counts(),
    {
        bump(&mut self.requests, method);
    }

    /// Counts an error of `method` (saturating).
    pub fn record_error(&mut self, method: &str)
        requires
            old(self).wf(),
        ensures
            final(self).wf(),
            count_for(final(self).error_counts(), method@) == if count_for(old(self).error_counts(), method@) == u64::MAX {
                u64::MAX
            } else {
                (count_for(old(self).error_counts(), method@) + 1) as u64
            },
            forall|m: Seq<char>| m != method@ ==> #[trigger] count_for(final(self).error_counts(), m) == count_for(old(self).error_counts(), m),
            final(self).request_counts() == old(self).request_counts(),
    {
        bump(&mut self.errors, method);
    }

    /// Requests counted for `method`.
    pub fn get_request_count(&self, method: &str) -> (r: u64)
        requires
            self.wf(),
        ensures
            r == count_for(self.request_counts(), method@),
    {
        read_count(&self.requests, method)
    }

    /// Errors counted for `method`.
    pub fn get_error_count(&self, method: &str) -> (r: u64)
        requires
            self.wf(),
        ensures
            r == count_for(self.error_counts(), method@),
    {
        read_count(&self.errors, method)
    }

    /// Records a latency of `method`; the oldest sample goes when the
    /// capacity is reached.
    pub fn record_latency(&mut self, method: &str, latency_us: u64)
        requires
            old(self).wf(),
        ensures
            final(self).wf(),
            final(self).samples(method@) == if old(self).samples(method@).len() >= old(self).capacity() {
                old(self).samples(method@).drop_first().push(latency_us)
            } else {
                old(self).samples(method@).push(latency_us)
            },
    {
        let name = method.to_owned();
        let mut i: usize = 0;
        while i < self.latencies.len()
            invariant
                name@ == method@,
                i <= self.latencies@.len(),
                self.wf(),
                self == old(self),
                forall|a: int| 0 <= a < i ==> self.latencies@[a].0@ != method@,
            decreases self.latencies@.len() - i,
        {
            if self.latencies[i].0 == name {
                let ghost pre = self.latencies@;
                proof {
                    let c = choose|j: int| 0 <= j < pre.len() && pre[j].0@ == method@;
                    if c != i as int { if c < i { assert(pre[c].0@ != pre[i as int].0@); } else { assert(pre[i as int].0@ != pre[c].0@); } }
                }
                let (key, mut samples) = self.latencies.remove(i);
                let ghost old_samples = samples@;
                if samples.len() >= self.max_samples {
                    samples.remove(0);
                    assert(samples@ =~= old_samples.drop_first());
                }
                samples.push(latency_us);
                self.latencies.insert(i, (key, samples));
                proof {
                    let post = self.latencies@;
                    assert(post[i as int].0@ == method@);
                    assert forall|a: int, b: int| 0 <= a < b < post.len() implies post[a].0@ != post[b].0@ by {
                        assert(post[a].0@ == pre[a].0@);
                        assert(post[b].0@ == pre[b].0@);
                    }
                    let c = choose|j: int| 0 <= j < post.len() && post[j].0@ == method@;
                    if c != i as int { if c < i { assert(post[c].0@ != post[i as int].0@); } else { assert(post[i as int].0@ != post[c].0@); } }
                }
                return;
            }
            i = i + 1;
        }
        let ghost pre = self.latencies@;
        let mut samples: Vec<u64> = Vec::new();
        samples.push(latency_us);
        self.latencies.push((name, samples));
        proof {
            let post = self.latencies@;
            let n = pre.len() as int;
            assert(post[n].0@ == method@);
            assert forall|a: int, b: int| 0 <= a < b < post.len() implies post[a].0@ != post[b].0@ by {
                if b == n { assert(pre[a].0@ != method@); } else { assert(pre[a].0@ != pre[b].0@); }
            }
            let c = choose|j: int| 0 <= j < post.len() && post[j].0@ == method@;
            assert(c == n);
            assert(old(self).samples(method@) =~= Seq::<u64>::empty());
            assert(post[n].1@ =~= Seq::<u64>::empty().push(latency_us));
        }
    }

    /// The 99th-percentile latency of `method`: the sample at place
    /// `floor(n * 99 / 100)` (at most `n - 1`) in ascending order; `None`
    /// without samples.
    pub fn get_p99_latency(&self, method: &str) -> (r: Option<u64>)
        requires
            self.wf(),
        ensures
            r is None <==> self.samples(method@).len() == 0,
            r is Some ==> exists|s: Seq<u64>| #![trigger ascending(s)] ascending(s) && s.to_multiset() == self.samples(method@).to_multiset()
                && s.len() == self.samples(method@).len() && r->Some_0 == s[p99_index(s.len())],
    {
        let name = method.to_owned();
        let mut i: usize = 0;
        while i < self.latencies.len()
            invariant
                name@ == method@,
                i <= self.latencies@.len(),
                self.wf(),
                forall|a: int| 0 <= a < i ==> self.latencies@[a].0@ != method@,
            decreases self.latencies@.len() - i,
        {
            if self.latencies[i].0 == name {
                proof {
                    let pre = self.latencies@;
                    let c = choose|j: int| 0 <= j < pre.len() && pre[j].0@ == method@;
                    if c != i as int { if c < i { assert(pre[c].0@ != pre[i as int].0@); } else { assert(pre[i as int].0@ != pre[c].0@); } }
                }
                let samples = &self.latencies[i].1;
                if samples.len() == 0 {
                    return None;
                }
                let sorted = sort_samples(samples);
                let n = sorted.len();
                let q: usize = ((n as u128) * 99 / 100) as usize;
                let idx = if q < n { q } else { n - 1 };
                proof {
                    assert((n as int) * 99 / 100 == q as int);
                }
                return Some(sorted[idx]);
            }
            i = i + 1;
        }
        None
    }

    /// For each method with requests, in order of first request: its
    /// request count, error count and p99 latency.
    pub fn summary(&self) -> (r: Vec<(String, u64, u64, Option<u64>)>)
        requires
            self.wf(),
        ensures
            r@.len() == self.request_counts().len(),
            forall|i: int| 0 <= i < r@.len() ==> {
                let row = #[trigger] r@[i];
                &&& row.0@ == self.request_counts()[i].0
                &&& row.1 == self.request_counts()[i].1
                &&& row.2 == count_for(self.error_counts(), row.0@)
                &&& (row.3 is None <==> self.samples(row.0@).len() == 0)
            },
    {
        let mut r: Vec<(String, u64, u64, Option<u64>)> = Vec::new();
        let mut i: usize = 0;
        while i < self.requests.len()
            invariant
                self.wf(),
                i <= self.requests@.len(),
                r@.len() == i,
                forall|j: int| 0 <= j < i ==> {
                    let row = #[trigger] r@[j];
                    &&& row.0@ == self.request_counts()[j].0
                    &&& row.1 == self.request_counts()[j].1
                    &&& row.2 == count_for(self.error_counts(), row.0@)
                    &&& (row.3 is None <==> self.samples(row.0@).len() == 0)
                },
            decreases self.requests@.len() - i,
        {
            let method = self.requests[i].0.clone();
            let count = self.requests[i].1;
            let errors = self.get_error_count(method.as_str());
            let p99 = self.get_p99_latency(method.as_str());
            r.push((method, count, errors, p99));
            i = i + 1;
        }
        r
    }
}

impl Default for RequestMetrics {
    fn default() -> (r: Self)
        ensures
            r.wf(),
    {
        Self::new()
    }
}

} // verus!
