//! The checkpoint file: a fixed little-endian header, JSON metadata, payload.
//!
//! ```text
//! offset  size  field
//! 0       4     magic = "CKPT"
//! 4       4     version = 1
//! 8       8     step
//! 16      8     epoch
//! 24      1     type (0 Full, 1 Incremental, 2 OptimizerOnly, 3 ModelOnly)
//! 25      1     compressed flag
//! 26      8     data size
//! 34      4     metadata length M
//! 38      M     metadata, a JSON object of strings
//! 38+M    data  payload
//! ```

use vstd::prelude::*;
use crate::error::Error;
use crate::hashing::{le_bytes, push_le};
use crate::types::{CheckpointType, pair_views};
use vstd::string::StringExecFns;

verus! {

/// Magic bytes that open every checkpoint file.
pub const CHECKPOINT_MAGIC: [u8; 4] = [67u8, 75u8, 80u8, 84u8];

/// Version of the format written here.
pub const CHECKPOINT_VERSION: u32 = 1;

/// Length of the fixed part of the header.
pub const FIXED_HEADER_LEN: usize = 38;

/// The magic as a sequence: "CKPT".
pub open spec fn magic() -> Seq<u8> {
    seq![67u8, 75u8, 80u8, 84u8]
}

/// What serde_json writes for a JSON object holding the pairs as strings
/// (a later pair replaces an earlier one with the same key).
pub uninterp spec fn json_object_of(pairs: Seq<(Seq<char>, Seq<char>)>) -> Seq<char>;

/// Relies on serde_json::to_string on a BTreeMap of strings: a JSON object
/// of the pairs, keys in order, a function of the pairs alone; writing
/// string keys and string values into a String never fails.
#[verifier::external_body]
fn metadata_json(entries: &Vec<(String, String)>) -> (r: Result<String, String>)
    ensures
        r is Ok,
        r->Ok_0@ == json_object_of(pair_views(entries@)),
{
    let map: std::collections::BTreeMap<&str, &str> = entries.iter().map(|(k, v)| (k.as_str(), v.as_str())).collect();
    match serde_json::to_string(&map) {
        Ok(text) => Ok(text),
        Err(e) => Err(e.to_string()),
    }
}

/// Numeric code of a checkpoint type.
pub open spec fn type_code(t: CheckpointType) -> u8 {
    match t {
        CheckpointType::Full => 0,
        CheckpointType::Incremental => 1,
        CheckpointType::OptimizerOnly => 2,
        CheckpointType::ModelOnly => 3,
    }
}

/// Numeric code of a checkpoint type.
pub fn checkpoint_type_code(t: CheckpointType) -> (r: u8)
    ensures
        r == type_code(t),
{
    match t {
        CheckpointType::Full => 0,
        CheckpointType::Incremental => 1,
        CheckpointType::OptimizerOnly => 2,
        CheckpointType::ModelOnly => 3,
    }
}

/// The header bytes of a checkpoint.
pub open spec fn header_bytes(
    step: u64,
    epoch: u64,
    t: CheckpointType,
    compressed: bool,
    data_size: u64,
    meta: Seq<u8>,
) -> Seq<u8> {
    magic() + le_bytes(CHECKPOINT_VERSION as nat, 4) + le_bytes(step as nat, 8) + le_bytes(
        epoch as nat,
        8,
    ) + seq![type_code(t), if compressed { 1u8 } else { 0u8 }] + le_bytes(data_size as nat, 8)
        + le_bytes(meta.len(), 4) + meta
}

/// Little-endian value of a byte sequence.
pub open spec fn le_value(s: Seq<u8>) -> nat
    decreases s.len(),
{
    if s.len() == 0 {
        0
    } else {
        s[0] as nat + 256 * le_value(s.drop_first())
    }
}

/// `256` to the power `n`.
pub open spec fn pow256(n: nat) -> nat
    decreases n,
{
    if n == 0 {
        1
    } else {
        256 * pow256((n - 1) as nat)
    }
}

/// Encoding `n` bytes of a value below `256^n` and reading them back gives it.
pub proof fn lemma_le_round_trip(v: nat, n: nat)
    requires
        v < pow256(n),
    ensures
        le_bytes(v, n).len() == n,
        le_value(le_bytes(v, n)) == v,
    decreases n,
{
    if n > 0 {
        let q = v / 256;
        assert(q < pow256((n - 1) as nat)) by (nonlinear_arith)
            requires q == v / 256, v < 256 * pow256((n - 1) as nat);
        lemma_le_round_trip(q, (n - 1) as nat);
        let s = le_bytes(v, n);
        assert(s.drop_first() =~= le_bytes(q, (n - 1) as nat));
        assert(v == v % 256 + 256 * q) by (nonlinear_arith)
            requires q == v / 256;
    }
}

/// A little-endian value of `n` bytes is below `256^n`.
pub proof fn lemma_le_value_bound(s: Seq<u8>)
    ensures
        le_value(s) < pow256(s.len()),
    decreases s.len(),
{
    if s.len() > 0 {
        lemma_le_value_bound(s.drop_first());
        let a = s[0] as nat;
        let b = le_value(s.drop_first());
        let p = pow256((s.len() - 1) as nat);
        assert(a + 256 * b < 256 * p) by (nonlinear_arith)
            requires a < 256, b < p;
    }
}

proof fn lemma_pow256_facts()
    ensures
        pow256(4) == 0x1_0000_0000,
        pow256(8) == 0x1_0000_0000_0000_0000,
{
    reveal_with_fuel(pow256, 9);
}

/// Reads `n` little-endian bytes at `off`.
fn read_le(b: &[u8], off: usize, n: usize) -> (r: u64)
    requires
        n <= 8,
        off + n <= b@.len(),
        off + n <= usize::MAX,
    ensures
        r as nat == le_value(b@.subrange(off as int, off + n)),
{
    proof {
        lemma_pow256_facts();
    }
    let mut acc: u64 = 0;
    let mut i: usize = n;
    while i > 0
        invariant
            i <= n <= 8,
            off + n <= b@.len(),
            off + n <= usize::MAX,
            acc as nat == le_value(b@.subrange(off + i, off + n)),
            pow256(8) == 0x1_0000_0000_0000_0000,
        decreases i,
    {
        let ghost tail = b@.subrange(off + i, off + n);
        i = i - 1;
        let ghost s = b@.subrange(off + i, off + n);
        assert(s.drop_first() =~= tail);
        proof {
            lemma_le_value_bound(s);
            assert(pow256(s.len()) <= pow256(8)) by {
                lemma_pow256_mono(s.len(), 8);
            }
            assert(s[0] == b@[off + i]);
            assert(le_value(s) == s[0] as nat + 256 * le_value(tail));
            assert(b@[off + i] as nat + 256 * (acc as nat) < 0x1_0000_0000_0000_0000);
        }
        let idx = off + i;
        let byte = b[idx] as u64;
        let hi = 256 * acc;
        acc = byte + hi;
    }
    acc
}

proof fn lemma_pow256_mono(a: nat, b: nat)
    requires
        a <= b,
    ensures
        pow256(a) <= pow256(b),
    decreases b,
{
    if a < b {
        lemma_pow256_mono(a, (b - 1) as nat);
    }
}

/// Encoding `n` bytes always gives `n` bytes.
pub proof fn lemma_le_len(v: nat, n: nat)
    ensures
        le_bytes(v, n).len() == n,
    decreases n,
{
    if n > 0 {
        lemma_le_len(v / 256, (n - 1) as nat);
    }
}

/// Header of a checkpoint file.
#[derive(Debug)]
pub struct CheckpointHeader {
    pub magic: [u8; 4],
    pub version: u32,
    pub step: u64,
    pub epoch: u64,
    pub checkpoint_type: u8,
    pub compressed: bool,
    pub data_size: u64,
    pub metadata_json: String,
}

impl CheckpointHeader {
    /// The bytes of this header.
    pub open spec fn spec_bytes(&self) -> Seq<u8> {
        self.magic@ + le_bytes(self.version as nat, 4) + le_bytes(self.step as nat, 8) + le_bytes(
            self.epoch as nat,
            8,
        ) + seq![self.checkpoint_type, if self.compressed { 1u8 } else { 0u8 }] + le_bytes(
            self.data_size as nat,
            8,
        ) + le_bytes(crate::hashing::utf8(self.metadata_json@).len(), 4) + crate::hashing::utf8(
            self.metadata_json@,
        )
    }

    /// Serializes the header; fails when the metadata does not fit a 32-bit length.
    pub fn to_bytes(&self) -> (r: Result<Vec<u8>, Error>)
        ensures
            r is Ok <==> crate::hashing::utf8(self.metadata_json@).len() <= u32::MAX,
            r is Ok ==> r->Ok_0@ == self.spec_bytes(),
            r is Err ==> r->Err_0 is Serialization,
    {
        let meta = self.metadata_json.as_str().as_bytes();
        if meta.len() > 0xffff_ffffusize {
            return Err(Error::Serialization(String::from_str("checkpoint metadata too long")));
        }
        let mut buf: Vec<u8> = Vec::new();
        buf.push(self.magic[0]);
        buf.push(self.magic[1]);
        buf.push(self.magic[2]);
        buf.push(self.magic[3]);
        assert(buf@ =~= self.magic@);
        push_le(&mut buf, self.version as u64, 4);
        push_le(&mut buf, self.step, 8);
        push_le(&mut buf, self.epoch, 8);
        buf.push(self.checkpoint_type);
        buf.push(if self.compressed { 1u8 } else { 0u8 });
        push_le(&mut buf, self.data_size, 8);
        push_le(&mut buf, meta.len() as u64, 4);
        let ghost head = buf@;
        let mut i: usize = 0;
        while i < meta.len()
            invariant
                i <= meta@.len(),
                buf@ == head + meta@.subrange(0, i as int),
            decreases meta@.len() - i,
        {
            buf.push(meta[i]);
            i = i + 1;
            assert(buf@ =~= head + meta@.subrange(0, i as int));
        }
        assert(meta@.subrange(0, i as int) =~= meta@);
        assert(buf@ =~= self.spec_bytes());
        Ok(buf)
    }
}

/// Request to write one checkpoint file.
#[derive(Debug)]
pub struct WriteRequest {
    /// Checkpoint identifier.
    pub checkpoint_id: String,
    /// Payload.
    pub data: Vec<u8>,
    /// Target path.
    pub path: String,
    /// Training step.
    pub step: u64,
    /// Training epoch.
    pub epoch: u64,
    /// Kind of checkpoint.
    pub checkpoint_type: CheckpointType,
    /// Additional key/value metadata.
    pub metadata: Vec<(String, String)>,
}

/// Builds the header of a request: magic, version 1, the request's fields,
/// and its metadata as a JSON object.
pub fn create_header(request: &WriteRequest, compressed: bool) -> (r: Result<Vec<u8>, Error>)
    ensures
        r is Ok ==> r->Ok_0@ == header_bytes(
            request.step,
            request.epoch,
            request.checkpoint_type,
            compressed,
            request.data@.len() as u64,
            crate::hashing::utf8(json_object_of(pair_views(request.metadata@))),
        ),
        r is Ok <==> crate::hashing::utf8(json_object_of(pair_views(request.metadata@))).len() <= u32::MAX,
        r is Err ==> r->Err_0 is Serialization,
{
    let json = match metadata_json(&request.metadata) {
        Ok(j) => j,
        Err(msg) => {
            return Err(Error::Serialization(msg));
        },
    };
    let header = CheckpointHeader {
        magic: CHECKPOINT_MAGIC,
        version: CHECKPOINT_VERSION,
        step: request.step,
        epoch: request.epoch,
        checkpoint_type: checkpoint_type_code(request.checkpoint_type),
        compressed,
        data_size: request.data.len() as u64,
        metadata_json: json,
    };
    proof {
        assert(header.magic@ =~= magic());
    }
    header.to_bytes()
}

/// The whole file of a request: header, then payload.
pub fn encode_checkpoint(request: &WriteRequest, compressed: bool) -> (r: Result<Vec<u8>, Error>)
    ensures
        r is Ok ==> r->Ok_0@ == header_bytes(
            request.step,
            request.epoch,
            request.checkpoint_type,
            compressed,
            request.data@.len() as u64,
            crate::hashing::utf8(json_object_of(pair_views(request.metadata@))),
        ) + request.data@,
        r is Ok <==> crate::hashing::utf8(json_object_of(pair_views(request.metadata@))).len() <= u32::MAX,
        r is Ok ==> r->Ok_0@.subrange(0, 4) == magic(),
        r is Err ==> r->Err_0 is Serialization,
{
    let mut buf = match create_header(request, compressed) {
        Ok(b) => b,
        Err(e) => {
            return Err(e);
        },
    };
    let ghost head = buf@;
    let mut i: usize = 0;
    while i < request.data.len()
        invariant
            i <= request.data@.len(),
            buf@ == head + request.data@.subrange(0, i as int),
        decreases request.data@.len() - i,
    {
        buf.push(request.data[i]);
        i = i + 1;
        assert(buf@ =~= head + request.data@.subrange(0, i as int));
    }
    assert(request.data@.subrange(0, i as int) =~= request.data@);
    assert(buf@.subrange(0, 4) =~= magic());
    Ok(buf)
}

/// Where reading a checkpoint file fails, and how.
pub enum ReadFailure {
    /// The file ends early.
    Truncated,
    /// The file does not open with the magic.
    BadMagic,
}

/// The payload of checkpoint file bytes, or why it cannot be read. The
/// version is not checked.
pub open spec fn read_payload(b: Seq<u8>) -> Result<Seq<u8>, ReadFailure> {
    if b.len() < 4 {
        Err(ReadFailure::Truncated)
    } else if b.subrange(0, 4) != magic() {
        Err(ReadFailure::BadMagic)
    } else if b.len() < 38 {
        Err(ReadFailure::Truncated)
    } else {
        let d = le_value(b.subrange(26, 34));
        let m = le_value(b.subrange(34, 38));
        if 38 + m + d > b.len() {
            Err(ReadFailure::Truncated)
        } else {
            Ok(b.subrange(38 + m as int, 38 + m as int + d as int))
        }
    }
}

/// Reads the payload of checkpoint file bytes: checks the magic, skips the
/// header and the metadata.
pub fn read_checkpoint_data(b: &[u8]) -> (r: Result<Vec<u8>, Error>)
    ensures
        match read_payload(b@) {
            Ok(p) => r is Ok && r->Ok_0@ == p,
            Err(ReadFailure::BadMagic) => r is Err && r->Err_0 is Storage,
            Err(ReadFailure::Truncated) => r is Err && r->Err_0 is Io,
        },
{
    if b.len() < 4 {
        return Err(Error::Io { message: String::from_str("unexpected end of checkpoint file") });
    }
    if b[0] != 67u8 || b[1] != 75u8 || b[2] != 80u8 || b[3] != 84u8 {
        proof {
            if b@.subrange(0, 4) == magic() {
                assert(b@.subrange(0, 4)[0] == b@[0]);
                assert(b@.subrange(0, 4)[1] == b@[1]);
                assert(b@.subrange(0, 4)[2] == b@[2]);
                assert(b@.subrange(0, 4)[3] == b@[3]);
            }
        }
        return Err(Error::Storage { message: String::from_str("Invalid checkpoint magic") });
    }
    assert(b@.subrange(0, 4) =~= magic());
    if b.len() < 38 {
        return Err(Error::Io { message: String::from_str("unexpected end of checkpoint file") });
    }
    let data_size = read_le(b, 26, 8);
    let meta_len = read_le(b, 34, 4);
    proof {
        lemma_le_value_bound(b@.subrange(34, 38));
        lemma_pow256_facts();
        assert(meta_len < 0x1_0000_0000);
    }
    let avail = b.len() - 38;
    if meta_len as usize > avail || data_size > (avail - meta_len as usize) as u64 {
        return Err(Error::Io { message: String::from_str("unexpected end of checkpoint file") });
    }
    let start = 38 + meta_len as usize;
    let end = start + data_size as usize;
    let mut out: Vec<u8> = Vec::new();
    let mut i: usize = start;
    while i < end
        invariant
            start <= i <= end <= b@.len(),
            out@ == b@.subrange(start as int, i as int),
        decreases end - i,
    {
        out.push(b[i]);
        i = i + 1;
        assert(out@ =~= b@.subrange(start as int, i as int));
    }
    Ok(out)
}

/// Reading back what was written for a payload yields the payload, and the
/// file opens with "CKPT".
pub proof fn lemma_write_read_round_trip(
    step: u64,
    epoch: u64,
    t: CheckpointType,
    compressed: bool,
    meta: Seq<u8>,
    payload: Seq<u8>,
)
    requires
        meta.len() <= u32::MAX,
        payload.len() <= u64::MAX,
    ensures
        ({
            let file = header_bytes(step, epoch, t, compressed, payload.len() as u64, meta) + payload;
            &&& file.subrange(0, 4) == magic()
            &&& read_payload(file) == Ok::<Seq<u8>, ReadFailure>(payload)
        }),
{
    let file = header_bytes(step, epoch, t, compressed, payload.len() as u64, meta) + payload;
    lemma_le_len(CHECKPOINT_VERSION as nat, 4);
    lemma_le_len(step as nat, 8);
    lemma_le_len(epoch as nat, 8);
    lemma_le_len(payload.len(), 8);
    lemma_le_len(meta.len(), 4);
    lemma_pow256_facts();
    lemma_le_round_trip(payload.len(), 8);
    lemma_le_round_trip(meta.len(), 4);
    assert(file.subrange(0, 4) =~= magic());
    assert(file.subrange(26, 34) =~= le_bytes(payload.len(), 8));
    assert(file.subrange(34, 38) =~= le_bytes(meta.len(), 4));
    assert(file.subrange(38 + meta.len() as int, 38 + meta.len() as int + payload.len() as int) =~= payload);
}

} // verus!
