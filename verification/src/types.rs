//! Plain data types shared across the crate: arenas, paths, hashes,
//! rolling-checksum blobs, file listings and job descriptions.

use vstd::prelude::*;

verus! {

/// Byte value of `/`, the path separator.
pub const SLASH: u8 = 47;

/// Byte value of `.`.
pub const DOT: u8 = 46;

/// An opaque name for a replication domain shared among peers.
#[derive(Debug)]
pub struct Arena {
    name: Vec<u8>,
}

impl Clone for Arena {
    fn clone(&self) -> (r: Self)
        ensures
            r@ == self@,
    {
        Arena { name: self.name.clone() }
    }
}

impl View for Arena {
    type V = Seq<u8>;

    closed spec fn view(&self) -> Seq<u8> {
        self.name@
    }
}

impl Arena {
    /// Wrap a name.
    pub fn new(name: Vec<u8>) -> (r: Arena)
        ensures
            r@ == name@,
    {
        Arena { name }
    }

    /// The bytes of the name.
    pub fn as_bytes(&self) -> (r: &Vec<u8>)
        ensures
            r@ == self@,
    {
        &self.name
    }
}

impl PartialEq for Arena {
    fn eq(&self, other: &Arena) -> (r: bool) {
        let r = self.name == other.name;
        proof {
            if r {
                assert(self.name@ =~= other.name@);
            }
        }
        r
    }
}

impl Eq for Arena {

}

impl vstd::std_specs::cmp::PartialEqSpecImpl for Arena {
    open spec fn obeys_eq_spec() -> bool {
        true
    }

    open spec fn eq_spec(&self, other: &Arena) -> bool {
        self@ == other@
    }
}

/// True when `k` starts a path component made of one or two dots.
pub open spec fn dot_component_at(s: Seq<u8>, k: int) -> bool {
    &&& 0 <= k < s.len()
    &&& (k == 0 || s[k - 1] == SLASH)
    &&& s[k] == DOT
    &&& (k + 1 == s.len() || s[k + 1] == SLASH || (s[k + 1] == DOT && (k + 2 == s.len() || s[k
        + 2] == SLASH)))
}

/// A valid relative path: nonempty, no leading, trailing or doubled
/// separator, and no `.` or `..` component.
pub open spec fn valid_path(s: Seq<u8>) -> bool {
    &&& s.len() > 0
    &&& s[0] != SLASH
    &&& s[s.len() - 1] != SLASH
    &&& forall|k: int| 0 <= k < s.len() - 1 ==> !(s[k] == SLASH && #[trigger] s[k + 1] == SLASH)
    &&& forall|k: int| !dot_component_at(s, k)
}

/// The bytes offered to [`Path::parse`] do not form a valid relative path.
#[derive(Clone, Copy, Debug, PartialEq, Eq, Structural)]
pub struct PathError;

/// A canonical relative slash-separated path within an arena.
#[derive(Debug)]
pub struct Path {
    rel: Vec<u8>,
}

impl Clone for Path {
    fn clone(&self) -> (r: Self)
        ensures
            r@ == self@,
    {
        proof {
            use_type_invariant(self);
        }
        Path { rel: self.rel.clone() }
    }
}

impl View for Path {
    type V = Seq<u8>;

    closed spec fn view(&self) -> Seq<u8> {
        self.rel@
    }
}

impl Path {
    /// Every path the crate hands out went through [`Path::parse`].
    #[verifier::type_invariant]
    closed spec fn type_inv(self) -> bool {
        valid_path(self.rel@)
    }
    /// Validate `bytes` as a relative path and wrap them.
    pub fn parse(bytes: Vec<u8>) -> (r: Result<Path, PathError>)
        ensures
            r matches Ok(p) ==> p@ == bytes@ && valid_path(bytes@),
            r is Err ==> !valid_path(bytes@),
    {
        let n = bytes.len();
        if n == 0 {
            return Err(PathError);
        }
        if bytes[0] == SLASH {
            return Err(PathError);
        }
        if bytes[n - 1] == SLASH {
            return Err(PathError);
        }
        let mut k: usize = 0;
        while k < n
            invariant
                n == bytes.len() > 0,
                k <= n,
                bytes@[0] != SLASH,
                bytes@[n - 1] != SLASH,
                forall|j: int|
                    0 <= j < k && j < n - 1 ==> !(bytes@[j] == SLASH && #[trigger] bytes@[j + 1]
                        == SLASH),
                forall|j: int| 0 <= j < k ==> !dot_component_at(bytes@, j),
            decreases n - k,
        {
            if k + 1 < n && bytes[k] == SLASH && bytes[k + 1] == SLASH {
                return Err(PathError);
            }
            if (k == 0 || bytes[k - 1] == SLASH) && bytes[k] == DOT {
                if k + 1 == n || bytes[k + 1] == SLASH {
                    assert(dot_component_at(bytes@, k as int));
                    return Err(PathError);
                }
                if bytes[k + 1] == DOT && (k + 2 == n || bytes[k + 2] == SLASH) {
                    assert(dot_component_at(bytes@, k as int));
                    return Err(PathError);
                }
            }
            k = k + 1;
        }
        proof {
            assert(forall|j: int| j < 0 || j >= n ==> !dot_component_at(bytes@, j));
        }
        Ok(Path { rel: bytes })
    }

    /// The bytes of the path.
    pub fn as_bytes(&self) -> (r: &Vec<u8>)
        ensures
            r@ == self@,
    {
        &self.rel
    }

    /// A copy with the same bytes.
    pub fn duplicate(&self) -> (r: Path)
        ensures
            r@ == self@,
    {
        proof {
            use_type_invariant(self);
        }
        Path { rel: self.rel.clone() }
    }
}

impl PartialEq for Path {
    fn eq(&self, other: &Path) -> (r: bool) {
        let r = self.rel == other.rel;
        proof {
            if r {
                assert(self.rel@ =~= other.rel@);
            }
        }
        r
    }
}

impl Eq for Path {

}

impl vstd::std_specs::cmp::PartialEqSpecImpl for Path {
    open spec fn obeys_eq_spec() -> bool {
        true
    }

    open spec fn eq_spec(&self, other: &Path) -> bool {
        self@ == other@
    }
}

/// A fixed-width content digest, 32 bytes held as four words, with a
/// distinguished all-zero value.
#[derive(Clone, Copy, Debug, PartialEq, Eq, Hash, Structural)]
pub struct Hash {
    pub w0: u64,
    pub w1: u64,
    pub w2: u64,
    pub w3: u64,
}

impl Hash {
    /// The distinguished all-zero digest, used by peers to report a range
    /// past the end of a file.
    pub fn zero() -> (r: Hash)
        ensures
            r == Hash::spec_zero(),
    {
        Hash { w0: 0, w1: 0, w2: 0, w3: 0 }
    }

    /// The all-zero digest.
    pub open spec fn spec_zero() -> Hash {
        Hash { w0: 0, w1: 0, w2: 0, w3: 0 }
    }

    /// Build a digest from its four words.
    pub fn from_words(w0: u64, w1: u64, w2: u64, w3: u64) -> (r: Hash)
        ensures
            r == (Hash { w0, w1, w2, w3 }),
    {
        Hash { w0, w1, w2, w3 }
    }

    /// True when the digest is the distinguished zero value.
    pub fn is_zero(&self) -> (r: bool)
        ensures
            r == (*self == Hash::spec_zero()),
    {
        self.w0 == 0 && self.w1 == 0 && self.w2 == 0 && self.w3 == 0
    }
}

/// A serialized rolling-checksum signature of a byte range, as the
/// destination peer produced it.
#[derive(Clone, Debug)]
pub struct Signature(pub Vec<u8>);

/// A serialized delta that patches a byte range of the destination file
/// toward the source file.
#[derive(Clone, Debug)]
pub struct Delta(pub Vec<u8>);

/// A file modification time, seconds and nanoseconds since the epoch.
#[derive(Clone, Copy, Debug, PartialEq, Eq, Structural)]
pub struct UnixTime {
    pub secs: u64,
    pub nanos: u32,
}

/// One file in a peer's listing of an arena.
#[derive(Clone, Debug)]
pub struct SyncedFile {
    pub path: Path,
    pub size: u64,
    pub mtime: UnixTime,
}

/// A monotonically increasing job identifier, issued by storage and
/// unique within an arena.
#[derive(Clone, Copy, Debug, PartialEq, Eq, Hash, Structural)]
pub struct JobId(pub u64);

/// One unit of reconciliation work issued by storage.
#[derive(Debug, PartialEq, Eq)]
pub enum Job {
    /// Fetch the content with this digest from a peer and stage it.
    Download(Path, Hash),
    /// Install staged content into the index; the optional digest is the
    /// expected prior indexed state, for a compare-and-swap.
    Realize(Path, Hash, Option<Hash>),
    /// Demote an indexed file back to a staged blob.
    Unrealize(Path, Hash),
}

/// Two jobs that ask for the same work.
pub open spec fn job_like(a: Job, b: Job) -> bool {
    match (a, b) {
        (Job::Download(p1, h1), Job::Download(p2, h2)) => p1@ == p2@ && h1 == h2,
        (Job::Realize(p1, h1, i1), Job::Realize(p2, h2, i2)) => p1@ == p2@ && h1 == h2 && i1 == i2,
        (Job::Unrealize(p1, h1), Job::Unrealize(p2, h2)) => p1@ == p2@ && h1 == h2,
        _ => false,
    }
}

impl Clone for Job {
    fn clone(&self) -> (r: Self)
        ensures
            job_like(r, *self),
    {
        match self {
            Job::Download(p, h) => Job::Download(p.clone(), *h),
            Job::Realize(p, h, i) => Job::Realize(p.clone(), *h, *i),
            Job::Unrealize(p, h) => Job::Unrealize(p.clone(), *h),
        }
    }
}

impl Job {
    /// The path the job works on.
    pub open spec fn spec_path(self) -> Seq<u8> {
        match self {
            Job::Download(p, _) => p@,
            Job::Realize(p, _, _) => p@,
            Job::Unrealize(p, _) => p@,
        }
    }

    /// The digest the job expects of the content.
    pub open spec fn spec_hash(self) -> Hash {
        match self {
            Job::Download(_, h) => h,
            Job::Realize(_, h, _) => h,
            Job::Unrealize(_, h) => h,
        }
    }

    /// The path the job works on.
    pub fn path(&self) -> (r: &Path)
        ensures
            r@ == self.spec_path(),
    {
        match self {
            Job::Download(p, _) => p,
            Job::Realize(p, _, _) => p,
            Job::Unrealize(p, _) => p,
        }
    }
}

/// The terminal outcome a job reports back to storage. A job that ends
/// `Done` or `Abandoned` is retired; anything else is retained for reissue.
#[derive(Clone, Copy, Debug, PartialEq, Eq, Structural)]
pub enum JobStatus {
    /// The job did its work.
    Done,
    /// The job was valid when issued but has since become obsolete; not an
    /// error.
    Abandoned,
}

/// Options carried by every store call to a peer.
#[derive(Clone, Copy, Debug, PartialEq, Eq, Structural)]
pub struct RealStoreOptions {
    pub ignore_partial: bool,
}

/// Options used for store calls on the source peer: files still being
/// transferred are not candidates to sync from.
pub fn src_options() -> (r: RealStoreOptions)
    ensures
        r.ignore_partial,
{
    RealStoreOptions { ignore_partial: true }
}

/// Options used for store calls on the destination peer: a partial file
/// there is reused as the starting point.
pub fn dst_options() -> (r: RealStoreOptions)
    ensures
        !r.ignore_partial,
{
    RealStoreOptions { ignore_partial: false }
}

} // verus!
