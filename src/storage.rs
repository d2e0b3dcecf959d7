//! Naming in the storage backends: local paths under a base directory and
//! object keys under a prefix. The byte transfers themselves happen outside.

use vstd::prelude::*;
use vstd::string::StringExecFns;

verus! {

/// `s` without its trailing `/` characters.
pub open spec fn trim_trailing_slashes(s: Seq<char>) -> Seq<char>
    decreases s.len(),
{
    if s.len() > 0 && s.last() == '/' {
        trim_trailing_slashes(s.drop_last())
    } else {
        s
    }
}

/// Relies on str::trim_end_matches with a char pattern: the slice with
/// every trailing `/` removed.
#[verifier::external_body]
fn trim_end_slashes(s: &str) -> (r: &str)
    ensures
        r@ == trim_trailing_slashes(s@),
{
    s.trim_end_matches('/')
}

/// The object key of `path` under `prefix`: the path itself without a
/// prefix, else the prefix without trailing slashes, `/`, and the path.
pub open spec fn object_key(prefix: Seq<char>, path: Seq<char>) -> Seq<char> {
    if prefix.len() == 0 {
        path
    } else {
        trim_trailing_slashes(prefix) + "/"@ + path
    }
}

/// Builds the object key of `path` under `prefix`.
pub fn s3_key(prefix: &str, path: &str) -> (r: String)
    ensures
        r@ == object_key(prefix@, path@),
{
    if prefix.is_empty() {
        return path.to_owned();
    }
    proof {
        reveal_strlit("/");
    }
    let mut r = trim_end_slashes(prefix).to_owned();
    r.append("/");
    r.append(path);
    r
}

/// Settings of an S3-compatible object store.
#[derive(Debug, Clone)]
pub struct S3Config {
    /// Bucket name.
    pub bucket: String,
    /// Prefix of every key.
    pub prefix: Option<String>,
    /// Custom endpoint (MinIO, LocalStack, ...).
    pub endpoint_url: Option<String>,
    /// Region; "us-east-1" by default.
    pub region: Option<String>,
    /// Path-style addressing (needed by MinIO).
    pub force_path_style: bool,
}

impl Default for S3Config {
    fn default() -> (r: Self)
        ensures
            r.bucket@.len() == 0,
            r.prefix is None,
            r.endpoint_url is None,
            r.region is Some && r.region->Some_0@ == "us-east-1"@,
            !r.force_path_style,
    {
        S3Config {
            bucket: String::new(),
            prefix: None,
            endpoint_url: None,
            region: Some(String::from_str("us-east-1")),
            force_path_style: false,
        }
    }
}

impl S3Config {
    /// Settings for a MinIO endpoint: path-style addressing, default region.
    pub fn minio(endpoint: &str, bucket: &str) -> (r: Self)
        ensures
            r.bucket@ == bucket@,
            r.endpoint_url is Some && r.endpoint_url->Some_0@ == endpoint@,
            r.force_path_style,
            r.prefix is None,
            r.region is Some && r.region->Some_0@ == "us-east-1"@,
    {
        S3Config {
            bucket: bucket.to_owned(),
            prefix: None,
            endpoint_url: Some(endpoint.to_owned()),
            region: Some(String::from_str("us-east-1")),
            force_path_style: true,
        }
    }
}

/// Object-store naming: bucket and key prefix.
#[derive(Debug, Clone)]
pub struct S3Storage {
    bucket: String,
    prefix: String,
}

impl S3Storage {
    /// Naming for a configuration; no prefix reads as the empty one.
    pub fn from_config(config: &S3Config) -> (r: Self)
        ensures
            r.bucket_name()@ == config.bucket@,
            r.key_prefix()@ == match config.prefix { Some(p) => p@, None => Seq::empty() },
    {
        let prefix = match &config.prefix {
            Some(p) => p.clone(),
            None => String::new(),
        };
        S3Storage { bucket: config.bucket.clone(), prefix }
    }

    pub closed spec fn bucket_name(&self) -> String {
        self.bucket
    }

    pub closed spec fn key_prefix(&self) -> String {
        self.prefix
    }

    /// The bucket.
    pub fn bucket(&self) -> (r: &String)
        ensures
            *r == self.bucket_name(),
    {
        &self.bucket
    }

    /// The object key of a path.
    pub fn key_for(&self, path: &str) -> (r: String)
        ensures
            r@ == object_key(self.key_prefix()@, path@),
    {
        s3_key(self.prefix.as_str(), path)
    }
}

/// The file of `path` under `base`: `base/path`, without doubling a slash.
pub open spec fn joined_path(base: Seq<char>, path: Seq<char>) -> Seq<char> {
    if base.len() == 0 {
        path
    } else if path.len() > 0 && path[0] == '/' {
        path
    } else if base.last() == '/' {
        base + path
    } else {
        base + "/"@ + path
    }
}

/// Local file storage rooted at a directory.
#[derive(Debug, Clone)]
pub struct LocalStorage {
    base_path: String,
}

impl LocalStorage {
    pub closed spec fn base(&self) -> Seq<char> {
        self.base_path@
    }

    /// Storage rooted at `base_path`.
    pub fn new(base_path: &str) -> (r: Self)
        ensures
            r.base() == base_path@,
    {
        LocalStorage { base_path: base_path.to_owned() }
    }

    /// The root directory.
    pub fn base_path(&self) -> (r: &str)
        ensures
            r@ == self.base(),
    {
        self.base_path.as_str()
    }

    /// The file of a relative path; an absolute path stands for itself.
    pub fn resolve_path(&self, path: &str) -> (r: String)
        ensures
            r@ == joined_path(self.base(), path@),
    {
        proof {
            reveal_strlit("/");
        }
        if self.base_path.as_str().is_empty() {
            return path.to_owned();
        }
        let path_abs = first_is_slash(path);
        if path_abs {
            return path.to_owned();
        }
        let base_slash = last_is_slash(self.base_path.as_str());
        let mut r = self.base_path.clone();
        if !base_slash {
            r.append("/");
        }
        r.append(path);
        r
    }
}

/// Whether the first character is `/`.
fn first_is_slash(s: &str) -> (r: bool)
    ensures
        r == (s@.len() > 0 && s@[0] == '/'),
{
    let mut it = s.chars();
    match it.next() {
        Some(c) => c == '/',
        None => false,
    }
}

/// Whether the last character is `/`.
fn last_is_slash(s: &str) -> (r: bool)
    ensures
        r == (s@.len() > 0 && s@.last() == '/'),
{
    let t = trim_end_slashes(s);
    proof {
        if s@.len() > 0 && s@.last() == '/' {
            assert(trim_trailing_slashes(s@) == trim_trailing_slashes(s@.drop_last()));
            lemma_trim_shorter(s@.drop_last());
        }
    }
    let a = t.to_owned();
    let b = s.to_owned();
    !(a == b)
}

proof fn lemma_trim_shorter(s: Seq<char>)
    ensures
        trim_trailing_slashes(s).len() <= s.len(),
    decreases s.len(),
{
    if s.len() > 0 && s.last() == '/' {
        lemma_trim_shorter(s.drop_last());
    }
}

/// Attempts of an object-store operation before giving up.
pub const MAX_RETRIES: u32 = 3;

/// Wait after the first failed attempt, in ms; it doubles per attempt.
pub const BASE_RETRY_DELAY_MS: u64 = 100;

/// What to do after attempt `attempt` (from 0) failed.
#[derive(Debug, Clone, Copy, PartialEq, Eq, Structural)]
pub enum RetryStep {
    /// Give up and report the error.
    Stop,
    /// Wait `delay_ms`, then make attempt `next_attempt`.
    Wait { delay_ms: u64, next_attempt: u32 },
}

/// After a failed attempt: stop on an error that is not retryable or when
/// the attempts are used up; else wait `100 * 2^attempt` ms and try again.
pub fn retry_step(attempt: u32, retryable: bool) -> (r: RetryStep)
    requires
        attempt < MAX_RETRIES,
    ensures
        (!retryable || attempt + 1 >= MAX_RETRIES) ==> r == RetryStep::Stop,
        (retryable && attempt + 1 < MAX_RETRIES) ==> r == (RetryStep::Wait {
            delay_ms: (BASE_RETRY_DELAY_MS * vstd::arithmetic::power2::pow2(attempt as nat)) as u64,
            next_attempt: (attempt + 1) as u32,
        }),
{
    if !retryable || attempt + 1 >= MAX_RETRIES {
        return RetryStep::Stop;
    }
    let factor: u64 = if attempt == 0 { 1 } else { 2 };
    proof {
        vstd::arithmetic::power2::lemma2_to64();
    }
    RetryStep::Wait { delay_ms: BASE_RETRY_DELAY_MS * factor, next_attempt: attempt + 1 }
}

} // verus!
