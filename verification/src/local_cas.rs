//! The local content-addressed store: where each blob lives under the store's root.
use vstd::prelude::*;

use crate::text::chars_of;

verus! {

/// The lowercase hexadecimal digit of `n` (below 16).
pub open spec fn hex_char(n: int) -> char {
    seq!['0', '1', '2', '3', '4', '5', '6', '7', '8', '9', 'a', 'b', 'c', 'd', 'e', 'f'][n]
}

/// Each byte as two lowercase hexadecimal digits, high digit first.
pub open spec fn hex_of(bytes: Seq<u8>) -> Seq<char> {
    Seq::new(
        2 * bytes.len(),
        |i: int|
            if i % 2 == 0 {
                hex_char((bytes[i / 2] / 16) as int)
            } else {
                hex_char((bytes[i / 2] % 16) as int)
            },
    )
}

/// The BLAKE3 hash of `data`.
pub uninterp spec fn blake3_of(data: Seq<u8>) -> Seq<u8>;

/// `blake3::Hash::to_hex` on the hash with these bytes. Claimed: the text is each
/// byte as two lowercase hexadecimal digits (the crate's encoding table).
#[verifier::external_body]
fn hash_hex(hash: &[u8; 32]) -> (r: String)
    ensures
        r@ == hex_of(hash@),
{
    blake3::Hash::from_bytes(*hash).to_hex().to_string()
}

/// `blake3::hash`. Claimed: the result is `blake3_of` of the input.
#[verifier::external_body]
fn blake3_hash(data: &[u8]) -> (r: [u8; 32])
    ensures
        r@ == blake3_of(data@),
{
    *blake3::hash(data).as_bytes()
}

/// A blob's size and BLAKE3 hash.
#[derive(Debug, Clone, Copy, PartialEq, Eq, Hash)]
pub struct Digest {
    pub size: u64,
    pub blake3: [u8; 32],
}

impl Digest {
    pub fn new(size: u64, blake3: [u8; 32]) -> (r: Digest)
        ensures
            r.size == size,
            r.blake3 == blake3,
    {
        Digest { size, blake3 }
    }

    pub fn get_hash(&self) -> (r: [u8; 32])
        ensures
            r == self.blake3,
    {
        self.blake3
    }

    /// The hash in lowercase hexadecimal.
    pub fn to_hex(&self) -> (r: String)
        ensures
            r@ == hex_of(self.blake3@),
    {
        hash_hex(&self.blake3)
    }
}

/// `base` with `part` appended as one more component, `/`-separated.
pub open spec fn join_component(base: Seq<char>, part: Seq<char>) -> Seq<char> {
    if base.len() == 0 || base.last() == '/' {
        base + part
    } else {
        base + seq!['/'] + part
    }
}

/// Appends `part` to `path` as one more component.
fn push_component(path: &mut String, part: &str)
    ensures
        final(path)@ == join_component(old(path)@, part@),
{
    let chars = chars_of(path.as_str());
    let n = chars.len();
    if n > 0 && chars[n - 1] != '/' {
        path.append("/");
        proof {
            reveal_strlit("/");
        }
    }
    path.append(part);
}

/// Where the blob with hash `h` lives under `root`.
pub open spec fn blob_path(root: Seq<char>, h: Seq<u8>) -> Seq<char> {
    join_component(join_component(root, hex_of(h).take(2)), hex_of(h).skip(2))
}

/// Where a presence check looks for the blob with hash `h` under `root`: two levels of
/// two hexadecimal digits, then the rest.
pub open spec fn check_path(root: Seq<char>, h: Seq<u8>) -> Seq<char> {
    join_component(
        join_component(join_component(root, hex_of(h).take(2)), hex_of(h).subrange(2, 4)),
        hex_of(h).skip(4),
    )
}

/// A store that keeps each blob in a file under its root.
#[derive(Debug)]
pub struct LocalCas {
    root: String,
}

impl LocalCas {
    pub closed spec fn root(self) -> Seq<char> {
        self.root@
    }

    pub fn new(root: String) -> (r: LocalCas)
        ensures
            r.root() == root@,
    {
        LocalCas { root }
    }

    pub fn get_root(&self) -> (r: &String)
        ensures
            r@ == self.root(),
    {
        &self.root
    }

    /// Where the blob of `digest` lives: under the first two hexadecimal digits of
    /// its hash, in a file named by the rest.
    pub fn get_path_for_digest(&self, digest: &Digest) -> (r: String)
        ensures
            r@ == blob_path(self.root(), digest.blake3@),
    {
        let hex = digest.to_hex();
        assert(hex@.len() == 64);
        let head = hex.as_str().substring_char(0, 2);
        let tail = hex.as_str().substring_char(2, 64);
        let mut path = self.root.clone();
        push_component(&mut path, head);
        push_component(&mut path, tail);
        assert(hex@.take(2) =~= head@);
        assert(hex@.skip(2) =~= tail@);
        path
    }

    /// Where a presence check looks for the blob of `digest`: under the first two
    /// hexadecimal digits of its hash, then the next two, in a file named by the rest.
    pub fn get_check_path_for_digest(&self, digest: &Digest) -> (r: String)
        ensures
            r@ == check_path(self.root(), digest.blake3@),
    {
        let hex = digest.to_hex();
        assert(hex@.len() == 64);
        let first = hex.as_str().substring_char(0, 2);
        let second = hex.as_str().substring_char(2, 4);
        let rest = hex.as_str().substring_char(4, 64);
        let mut path = self.root.clone();
        push_component(&mut path, first);
        push_component(&mut path, second);
        push_component(&mut path, rest);
        assert(hex@.take(2) =~= first@);
        assert(hex@.subrange(2, 4) =~= second@);
        assert(hex@.skip(4) =~= rest@);
        path
    }

    /// The temporary file that storing the blob of `digest` writes before renaming it
    /// into place: `temp_name` under the blob's path.
    pub fn get_temp_path_for_digest(&self, digest: &Digest, temp_name: &str) -> (r: String)
        ensures
            r@ == join_component(blob_path(self.root(), digest.blake3@), temp_name@),
    {
        let mut path = self.get_path_for_digest(digest);
        push_component(&mut path, temp_name);
        path
    }

    /// The local path of the blob of `digest`, given the size a presence check found
    /// (`None` when the blob is absent).
    pub fn local_path_given(&self, digest: &Digest, found: Option<u64>) -> (r: Option<String>)
        ensures
            found is None ==> r is None,
            found is Some ==> (r matches Some(p) && p@ == blob_path(self.root(), digest.blake3@)),
    {
        match found {
            Some(_) => Some(self.get_path_for_digest(digest)),
            None => None,
        }
    }

    /// The digest of a file given its size and content; a symbolic link is hashed by
    /// the text it points to, of `size` bytes.
    pub fn digest_of(size: u64, content: &[u8]) -> (r: Digest)
        ensures
            r.size == size,
            r.blake3@ == blake3_of(content@),
    {
        Digest { size, blake3: blake3_hash(content) }
    }
}

} // verus!
