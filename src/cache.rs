//! The plugin directory's files for each component, and the validation
//! stamps that tell whether a cached sidecar still describes its module.

use vstd::prelude::*;
use vstd::string::StringExecFns;

verus! {

/// The lowercase hex SHA-256 digest of some bytes.
pub uninterp spec fn sha256_hex_of(data: Seq<u8>) -> Seq<char>;

/// Relies on sha2::Sha256: the SHA-256 digest of `data`, written as
/// lowercase hex; it depends on the bytes alone.
#[verifier::external_body]
fn sha256_hex(data: &[u8]) -> (r: String)
    ensures
        r@ == sha256_hex_of(data@),
{
    format!("{:x}", <sha2::Sha256 as sha2::Digest>::digest(data))
}

/// Size and modification time of a module file (and, optionally, a digest of
/// its bytes), recorded to detect a replaced module.
#[derive(Debug)]
pub struct ValidationStamp {
    /// File size in bytes.
    pub file_size: u64,
    /// Modification time, in seconds since the epoch.
    pub mtime: u64,
    /// Lowercase hex SHA-256 of the file's bytes.
    pub content_hash: Option<String>,
}

impl ValidationStamp {
    pub fn duplicate(&self) -> (r: ValidationStamp)
        ensures
            r == *self,
    {
        ValidationStamp {
            file_size: self.file_size,
            mtime: self.mtime,
            content_hash: match &self.content_hash {
                Some(h) => Some(h.clone()),
                None => None,
            },
        }
    }
}

/// Whether what is observed of a file now agrees with `stamp`: same size,
/// same modification time, and, when the stamp carries a digest, bytes with
/// that digest. Anything that could not be observed is a mismatch.
pub open spec fn stamp_holds(
    stamp: ValidationStamp,
    size: Option<u64>,
    mtime: Option<u64>,
    content: Option<Seq<u8>>,
) -> bool {
    &&& size == Some(stamp.file_size)
    &&& mtime == Some(stamp.mtime)
    &&& match stamp.content_hash {
        None => true,
        Some(h) => match content {
            Some(c) => sha256_hex_of(c) == h@,
            None => false,
        },
    }
}

/// The stamp of a file of `file_size` bytes modified at `mtime`, with the
/// digest of `content` when it is given.
pub fn create_validation_stamp(file_size: u64, mtime: u64, content: Option<&[u8]>) -> (r: ValidationStamp)
    ensures
        r.file_size == file_size,
        r.mtime == mtime,
        match content {
            Some(c) => r.content_hash is Some && r.content_hash->0@ == sha256_hex_of(c@),
            None => r.content_hash is None,
        },
{
    let content_hash = match content {
        Some(c) => Some(sha256_hex(c)),
        None => None,
    };
    ValidationStamp { file_size, mtime, content_hash }
}

/// Whether the file observed now still matches `stamp` (see [`stamp_holds`]).
/// `content` is read only when the stamp carries a digest.
pub fn validate_stamp(stamp: &ValidationStamp, size: Option<u64>, mtime: Option<u64>, content: Option<&[u8]>) -> (r: bool)
    ensures
        r == stamp_holds(
            *stamp,
            size,
            mtime,
            match content {
                Some(c) => Some(c@),
                None => None,
            },
        ),
{
    match size {
        Some(s) => {
            if s != stamp.file_size {
                return false;
            }
        },
        None => {
            return false;
        },
    }
    match mtime {
        Some(m) => {
            if m != stamp.mtime {
                return false;
            }
        },
        None => {
            return false;
        },
    }
    match &stamp.content_hash {
        Some(expected) => match content {
            Some(c) => {
                let actual = sha256_hex(c);
                actual == *expected
            },
            None => false,
        },
        None => true,
    }
}

/// `<id>.wasm`: the component module.
pub open spec fn module_file(id: Seq<char>) -> Seq<char> {
    id + seq!['.', 'w', 'a', 's', 'm']
}

/// `<id>.cwasm`: the precompiled artifact.
pub open spec fn precompiled_file(id: Seq<char>) -> Seq<char> {
    id + seq!['.', 'c', 'w', 'a', 's', 'm']
}

/// `<id>.metadata.json`: the metadata sidecar.
pub open spec fn metadata_file(id: Seq<char>) -> Seq<char> {
    id + ".metadata.json"@
}

/// `<id>.policy.yaml`: the co-located policy.
pub open spec fn policy_file(id: Seq<char>) -> Seq<char> {
    id + ".policy.yaml"@
}

fn with_suffix(id: &str, suffix: &str) -> (r: String)
    ensures
        r@ == id@ + suffix@,
{
    String::from_str(id).concat(suffix)
}

/// The name of the module file of component `id`.
pub fn component_file_name(id: &str) -> (r: String)
    ensures
        r@ == module_file(id@),
{
    proof {
        reveal_strlit(".wasm");
    }
    let r = with_suffix(id, ".wasm");
    assert(r@ =~= module_file(id@));
    r
}

/// The name of the precompiled artifact of component `id`.
pub fn precompiled_file_name(id: &str) -> (r: String)
    ensures
        r@ == precompiled_file(id@),
{
    proof {
        reveal_strlit(".cwasm");
    }
    let r = with_suffix(id, ".cwasm");
    assert(r@ =~= precompiled_file(id@));
    r
}

/// The name of the metadata sidecar of component `id`.
pub fn metadata_file_name(id: &str) -> (r: String)
    ensures
        r@ == metadata_file(id@),
{
    with_suffix(id, ".metadata.json")
}

/// The name of the co-located policy of component `id`.
pub fn policy_file_name(id: &str) -> (r: String)
    ensures
        r@ == policy_file(id@),
{
    with_suffix(id, ".policy.yaml")
}

/// Every file the store keeps for component `id`, in the order unloading
/// removes them: module, policy, metadata, precompiled artifact.
pub fn unload_file_names(id: &str) -> (r: Vec<String>)
    ensures
        r@.map_values(|s: String| s@) == seq![
            module_file(id@),
            policy_file(id@),
            metadata_file(id@),
            precompiled_file(id@),
        ],
{
    let mut v: Vec<String> = Vec::new();
    v.push(component_file_name(id));
    v.push(policy_file_name(id));
    v.push(metadata_file_name(id));
    v.push(precompiled_file_name(id));
    assert(v@.map_values(|s: String| s@) =~= seq![
        module_file(id@),
        policy_file(id@),
        metadata_file(id@),
        precompiled_file(id@),
    ]);
    v
}

/// The component id a directory entry names: the stem of a `<id>.wasm` file
/// with a non-empty stem.
pub open spec fn module_id_of(name: Seq<char>) -> Option<Seq<char>> {
    if name.len() > 5 && name.subrange(name.len() - 5, name.len() as int) == seq!['.', 'w', 'a', 's', 'm'] {
        Some(name.subrange(0, name.len() - 5))
    } else {
        None
    }
}

/// The component id a directory entry names, when it is a module file.
pub fn component_id_from_file_name(name: &str) -> (r: Option<String>)
    ensures
        match r {
            Some(id) => module_id_of(name@) == Some(id@),
            None => module_id_of(name@) is None,
        },
{
    let n = name.unicode_len();
    if n <= 5 {
        return None;
    }
    let tail = name.substring_char(n - 5, n);
    proof {
        reveal_strlit(".wasm");
    }
    if tail.to_owned() == ".wasm".to_owned() {
        assert(name@.subrange(n - 5, n as int) =~= seq!['.', 'w', 'a', 's', 'm']);
        Some(name.substring_char(0, n - 5).to_owned())
    } else {
        assert(name@.subrange(n - 5, n as int) != seq!['.', 'w', 'a', 's', 'm']) by {
            if name@.subrange(n - 5, n as int) == seq!['.', 'w', 'a', 's', 'm'] {
                assert(tail@ =~= ".wasm"@);
            }
        }
        None
    }
}

/// What removing one file came to.
#[derive(Debug, Clone, Copy, PartialEq, Eq, Structural)]
pub enum RemoveOutcome {
    Removed,
    /// The file was not there; not an error when removing.
    AlreadyAbsent,
    /// Any other failure.
    Failed,
}

/// Whether a removal left the file gone.
pub open spec fn removal_ok(o: RemoveOutcome) -> bool {
    o != RemoveOutcome::Failed
}

} // verus!
