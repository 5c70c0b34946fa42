//! The computational core of the file-operation commands.
//!
//! The commands themselves read and write the disk and stay with the
//! caller; what is verified here is what they compute: the content
//! fingerprint used to detect external modification, the conflict decision
//! of the edit-application protocol, and the fallback pattern test of the
//! file listing.

use vstd::prelude::*;
use sha2::Digest;
use vstd::string::StringSliceAdditionalSpecFns;
use vstd::string::StrSliceExecFns;

verus! {

/// Errors from file operations.
#[derive(Debug, Clone)]
pub enum FileError {
    NotFound(String),
    PermissionDenied(String),
    IoError(String),
    ConflictDetected,
}

/// A file's content together with its fingerprint.
#[derive(Debug, Clone)]
pub struct FileReadResult {
    pub content: String,
    pub hash: String,
}

/// The outcome of applying an edit.
#[derive(Debug, Clone)]
pub enum ApplyResult {
    Success,
    Conflict { current_content: String, base_content: String, proposed_content: String },
    Error { message: String },
}

/// Metadata of one filesystem entry.
#[derive(Debug, Clone)]
pub struct FileMetadata {
    pub size: u64,
    pub modified: u64,
    pub is_dir: bool,
}

/// The SHA-256 digest of a byte sequence; its value is fixed by the hash
/// function alone.
pub uninterp spec fn sha256_of(bytes: Seq<u8>) -> Seq<u8>;

pub open spec fn hex_digit(n: u8) -> char {
    if n < 10 {
        (48 + n) as char
    } else {
        (87 + n) as char
    }
}

/// Lowercase hexadecimal: two digits per byte, most significant first.
pub open spec fn hex_of(bytes: Seq<u8>) -> Seq<char>
    decreases bytes.len(),
{
    if bytes.len() == 0 {
        Seq::empty()
    } else {
        hex_of(bytes.drop_last()) + seq![
            hex_digit(bytes.last() / 16),
            hex_digit(bytes.last() % 16),
        ]
    }
}

pub proof fn lemma_hex_of_len(bytes: Seq<u8>)
    ensures
        hex_of(bytes).len() == 2 * bytes.len(),
    decreases bytes.len(),
{
    if bytes.len() > 0 {
        lemma_hex_of_len(bytes.drop_last());
    }
}

/// Relies on `sha2::Sha256::digest`: the SHA-256 digest, 32 bytes long,
/// a function of the input alone.
#[verifier::external_body]
fn sha256(bytes: &[u8]) -> (r: Vec<u8>)
    ensures
        r@ == sha256_of(bytes@),
        r@.len() == 32,
{
    sha2::Sha256::digest(bytes).to_vec()
}

/// Relies on `hex::encode`: two lowercase hexadecimal digits per byte.
#[verifier::external_body]
fn hex_encode(bytes: &Vec<u8>) -> (r: String)
    ensures
        r@ == hex_of(bytes@),
{
    hex::encode(bytes)
}

/// The fingerprint of a file's content: the lowercase hexadecimal SHA-256
/// digest of its bytes.
pub fn compute_hash(content: &str) -> (r: String)
    ensures
        r@ == hex_of(sha256_of(content.spec_bytes())),
        r@.len() == 64,
{
    let digest = sha256(content.as_bytes());
    let r = hex_encode(&digest);
    proof {
        lemma_hex_of_len(sha256_of(content.spec_bytes()));
    }
    r
}

/// Whether a file read back as `content` no longer matches the
/// fingerprint taken when it was last read.
pub fn check_modified(content: &str, expected_hash: &str) -> (r: bool)
    ensures
        r == (hex_of(sha256_of(content.spec_bytes())) != expected_hash@),
{
    let hash = compute_hash(content);
    !hash.eq(&expected_hash.to_owned())
}

/// The conflict decision of the edit protocol: an edit against a
/// non-empty base applies only if the file still holds that base;
/// otherwise the caller gets all three texts back. An empty base marks a
/// new file, which always applies.
pub fn decide_edit(current_content: &str, base_content: &str, proposed_content: &str) -> (r:
    ApplyResult)
    ensures
        (match r {
            ApplyResult::Conflict { current_content: c, base_content: b, proposed_content: p } => {
                &&& base_content@.len() != 0
                &&& current_content@ != base_content@
                &&& c@ == current_content@
                &&& b@ == base_content@
                &&& p@ == proposed_content@
            },
            ApplyResult::Success => base_content@.len() == 0 || current_content@ == base_content@,
            ApplyResult::Error { .. } => false,
        }),
{
    if base_content.is_empty() {
        return ApplyResult::Success;
    }
    if current_content.to_owned().eq(&base_content.to_owned()) {
        return ApplyResult::Success;
    }
    ApplyResult::Conflict {
        current_content: current_content.to_owned(),
        base_content: base_content.to_owned(),
        proposed_content: proposed_content.to_owned(),
    }
}

/// A listing pattern with every leading `*.` removed.
pub open spec fn strip_star_dot(p: Seq<char>) -> Seq<char>
    decreases p.len(),
{
    if p.len() >= 2 && p[0] == '*' && p[1] == '.' {
        strip_star_dot(p.skip(2))
    } else {
        p
    }
}

/// The fallback listing's pattern test: everything matches `*`, and
/// otherwise a file matches when its extension equals the pattern with
/// its leading `*.` removed.
pub fn extension_matches(extension: &str, pattern: &str) -> (r: bool)
    ensures
        r == (pattern@ == "*"@ || extension@ == strip_star_dot(pattern@)),
{
    if pattern.to_owned().eq(&"*".to_owned()) {
        return true;
    }
    let n = pattern.unicode_len();
    let mut k: usize = 0;
    proof {
        assert(pattern@.skip(0) =~= pattern@);
    }
    while k < n && k + 1 < n && pattern.get_char(k) as u32 == 42 && pattern.get_char(k + 1) as u32
        == 46
        invariant
            k <= n == pattern@.len(),
            strip_star_dot(pattern@) == strip_star_dot(pattern@.skip(k as int)),
        decreases n - k,
    {
        proof {
            assert(pattern@.skip(k as int)[0] == pattern@[k as int]);
            assert(pattern@.skip(k as int)[1] == pattern@[k + 1]);
            assert(pattern@.skip(k as int).skip(2) =~= pattern@.skip(k + 2));
        }
        k = k + 2;
    }
    proof {
        let rest = pattern@.skip(k as int);
        if rest.len() >= 2 && rest[0] == '*' && rest[1] == '.' {
            assert(rest[0] == pattern@[k as int]);
            assert(rest[1] == pattern@[k + 1]);
            assert(false);
        }
        assert(strip_star_dot(pattern@) == rest);
    }
    let stripped = pattern.substring_char(k, n);
    proof {
        assert(pattern@.subrange(k as int, n as int) =~= pattern@.skip(k as int));
    }
    extension.to_owned().eq(&stripped.to_owned())
}

} // verus!
