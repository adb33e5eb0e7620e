use vstd::prelude::*;
use vstd::std_specs::cmp::PartialEqSpecImpl;
use vstd::utf8::encode_utf8;

use crate::digest::{sha256, sha256_spec};
use crate::encode::{be_u64, extend_bytes, framed, push_be_u64, put_framed};
use crate::ids::AuthorityGeneration;
use crate::seqs::{compare_bytes, lex_less};
use crate::text::push_str;
use crate::vector::{hex_lower, hex_spec};

verus! {

pub const LEXICAL_ARTIFACT_VERSION: u32 = 1;

/// The content hash of a lexical artifact's file tree.
#[derive(Clone, Copy, Debug, Hash, PartialOrd, Ord)]
pub struct LexicalArtifactHash([u8; 32]);

impl View for LexicalArtifactHash {
    type V = Seq<u8>;

    closed spec fn view(&self) -> Seq<u8> {
        self.0@
    }
}

impl PartialEq for LexicalArtifactHash {
    fn eq(&self, other: &Self) -> (equal: bool) {
        crate::ids::bytes_equal(self.0.as_slice(), other.0.as_slice())
    }
}

impl Eq for LexicalArtifactHash {}

impl PartialEqSpecImpl for LexicalArtifactHash {
    open spec fn obeys_eq_spec() -> bool {
        true
    }

    open spec fn eq_spec(&self, other: &Self) -> bool {
        self@ == other@
    }
}

impl LexicalArtifactHash {
    pub fn from_bytes(bytes: [u8; 32]) -> (id: Self)
        ensures
            id@ == bytes@,
    {
        LexicalArtifactHash(bytes)
    }

    pub fn as_bytes(&self) -> (bytes: &[u8; 32])
        ensures
            bytes@ == self@,
    {
        &self.0
    }

    pub fn into_bytes(self) -> (bytes: [u8; 32])
        ensures
            bytes@ == self@,
    {
        self.0
    }

    pub proof fn lemma_len(&self)
        ensures
            self@.len() == 32,
    {
    }
}


impl LexicalArtifactHash {
    pub fn as_hex(&self) -> (hex: String)
        ensures
            hex@ == hex_spec(self@),
    {
        hex_lower(self.0.as_slice())
    }
}

/// Where a lexical artifact lives under the derived directory.
pub open spec fn lexical_object_path(hash: Seq<u8>) -> Seq<char> {
    "objects/lexical/"@ + hex_spec(hash)
}

/// A built lexical artifact: its hash, generation, document count and
/// object path.
#[derive(Clone, Debug)]
pub struct LexicalArtifactV1 {
    hash: LexicalArtifactHash,
    authority_generation: AuthorityGeneration,
    document_count: usize,
    object_path: String,
}

impl LexicalArtifactV1 {
    /// The artifact of a tree with `hash`, stored under its content path.
    pub fn new(hash: LexicalArtifactHash, authority_generation: AuthorityGeneration, document_count: usize) -> (artifact: Self)
        ensures
            artifact.spec_hash() == hash,
            artifact.spec_authority_generation() == authority_generation,
            artifact.spec_document_count() == document_count,
            artifact.spec_object_path() == lexical_object_path(hash@),
    {
        let mut object_path = String::new();
        push_str(&mut object_path, "objects/lexical/");
        let hex = hash.as_hex();
        push_str(&mut object_path, hex.as_str());
        LexicalArtifactV1 { hash, authority_generation, document_count, object_path }
    }

    pub closed spec fn spec_hash(&self) -> LexicalArtifactHash {
        self.hash
    }

    pub closed spec fn spec_authority_generation(&self) -> AuthorityGeneration {
        self.authority_generation
    }

    pub closed spec fn spec_document_count(&self) -> usize {
        self.document_count
    }

    pub closed spec fn spec_object_path(&self) -> Seq<char> {
        self.object_path@
    }

    pub fn hash(&self) -> (hash: LexicalArtifactHash)
        ensures
            hash == self.spec_hash(),
    {
        self.hash
    }

    pub fn authority_generation(&self) -> (generation: AuthorityGeneration)
        ensures
            generation == self.spec_authority_generation(),
    {
        self.authority_generation
    }

    pub fn document_count(&self) -> (count: usize)
        ensures
            count == self.spec_document_count(),
    {
        self.document_count
    }

    pub fn object_path(&self) -> (path: &str)
        ensures
            path@ == self.spec_object_path(),
    {
        self.object_path.as_str()
    }
}

/// A file of a tree: its relative path's bytes and its contents.
pub open spec fn file_view(file: (String, Vec<u8>)) -> (Seq<u8>, Seq<u8>) {
    (encode_utf8(file.0@), file.1@)
}

pub open spec fn file_views(files: Seq<(String, Vec<u8>)>) -> Seq<(Seq<u8>, Seq<u8>)> {
    files.map_values(|file: (String, Vec<u8>)| file_view(file))
}

/// `file` placed into path-ordered `sorted` after every file whose path
/// is not greater.
pub open spec fn insert_by_path(sorted: Seq<(Seq<u8>, Seq<u8>)>, file: (Seq<u8>, Seq<u8>)) -> Seq<
    (Seq<u8>, Seq<u8>),
>
    decreases sorted.len(),
{
    if sorted.len() == 0 {
        seq![file]
    } else if lex_less(file.0, sorted.last().0) {
        insert_by_path(sorted.drop_last(), file).push(sorted.last())
    } else {
        sorted.push(file)
    }
}

/// The files ordered by path, equal paths in their given order.
pub open spec fn sorted_by_path(files: Seq<(Seq<u8>, Seq<u8>)>) -> Seq<(Seq<u8>, Seq<u8>)>
    decreases files.len(),
{
    if files.len() == 0 {
        seq![]
    } else {
        insert_by_path(sorted_by_path(files.drop_last()), files.last())
    }
}

/// The digested form of each file: its path, its length and its digest.
pub open spec fn tree_files_bytes(files: Seq<(Seq<u8>, Seq<u8>)>) -> Seq<u8>
    decreases files.len(),
{
    if files.len() == 0 {
        seq![]
    } else {
        tree_files_bytes(files.drop_last()) + framed(files.last().0) + be_u64(
            files.last().1.len() as u64,
        ) + sha256_spec(files.last().1)
    }
}

/// The bytes a tree hash digests.
pub open spec fn tree_preimage(files: Seq<(Seq<u8>, Seq<u8>)>) -> Seq<u8> {
    encode_utf8("memoria-lexical-artifact-v1\0"@) + tree_files_bytes(sorted_by_path(files))
}

fn insert_file(sorted: &mut Vec<(String, Vec<u8>)>, file: (String, Vec<u8>))
    ensures
        file_views(final(sorted)@) == insert_by_path(file_views(old(sorted)@), file_view(file)),
{
    let ghost before = file_views(sorted@);
    let ghost item = file_view(file);
    let mut position: usize = sorted.len();
    assert(before.take(position as int) =~= before);
    assert(before.skip(position as int) =~= Seq::<(Seq<u8>, Seq<u8>)>::empty());
    while position > 0 && compare_bytes(file.0.as_str().as_bytes(), sorted[position - 1].0.as_str().as_bytes()) == -1
        invariant
            before == file_views(sorted@),
            item == file_view(file),
            position <= sorted@.len(),
            insert_by_path(before, item) == insert_by_path(before.take(position as int), item) + before.skip(position as int),
        decreases position,
    {
        proof {
            let prefix = before.take(position as int);
            assert(prefix.last() == before[position - 1]);
            assert(before[position - 1] == file_view(sorted@[position - 1]));
            assert(prefix.drop_last() =~= before.take(position - 1));
            assert(before.skip(position - 1) =~= seq![before[position - 1]] + before.skip(position as int));
            assert(insert_by_path(prefix, item) == insert_by_path(before.take(position - 1), item).push(before[position - 1]));
            assert(insert_by_path(before.take(position - 1), item).push(before[position - 1]) + before.skip(position as int)
                =~= insert_by_path(before.take(position - 1), item) + before.skip(position - 1));
        }
        position = position - 1;
    }
    proof {
        let prefix = before.take(position as int);
        if position > 0 {
            assert(prefix.last() == file_view(sorted@[position - 1]));
            assert(insert_by_path(prefix, item) == prefix.push(item));
        } else {
            assert(prefix =~= Seq::<(Seq<u8>, Seq<u8>)>::empty());
            assert(insert_by_path(prefix, item) == seq![item]);
        }
    }
    sorted.insert(position, file);
    assert(file_views(sorted@) =~= before.take(position as int).push(item) + before.skip(position as int));
}

/// The content hash of a file tree: files ordered by path, each digested
/// with its path and length.
pub fn lexical_tree_hash(files: Vec<(String, Vec<u8>)>) -> (hash: LexicalArtifactHash)
    ensures
        hash@ == sha256_spec(tree_preimage(file_views(files@))),
{
    let ghost all = file_views(files@);
    let mut sorted: Vec<(String, Vec<u8>)> = Vec::new();
    let mut remaining = files;
    let mut taken: usize = 0;
    let ghost original = remaining@;
    assert(all.take(0) =~= Seq::<(Seq<u8>, Seq<u8>)>::empty());
    assert(file_views(sorted@) =~= Seq::<(Seq<u8>, Seq<u8>)>::empty());
    let count = remaining.len();
    let mut reversed: Vec<(String, Vec<u8>)> = Vec::new();
    while remaining.len() > 0
        invariant
            original == files@,
            remaining@.len() + reversed@.len() == original.len(),
            forall|i: int| 0 <= i < remaining@.len() ==> #[trigger] remaining@[i] == original[i],
            forall|i: int| 0 <= i < reversed@.len() ==> #[trigger] reversed@[i] == original[original.len() - 1 - i],
        decreases remaining@.len(),
    {
        let file = remaining.pop().unwrap();
        reversed.push(file);
    }
    assert(count == original.len());
    while taken < count
        invariant
            all == file_views(original),
            count == original.len(),
            reversed@.len() + taken == count,
            forall|i: int| 0 <= i < reversed@.len() ==> #[trigger] reversed@[i] == original[count - 1 - i],
            taken <= count,
            file_views(sorted@) == sorted_by_path(all.take(taken as int)),
        decreases count - taken,
    {
        let file = reversed.pop().unwrap();
        assert(file == original[taken as int]);
        proof {
            assert(all.take(taken + 1).drop_last() =~= all.take(taken as int));
            assert(all.take(taken + 1).last() == file_view(file));
        }
        insert_file(&mut sorted, file);
        taken = taken + 1;
    }
    assert(all.take(count as int) =~= all);
    let mut bytes: Vec<u8> = Vec::new();
    let domain: &str = "memoria-lexical-artifact-v1\0";
    extend_bytes(&mut bytes, domain.as_bytes());
    let ghost head = bytes@;
    let ghost ordered = file_views(sorted@);
    let mut i: usize = 0;
    assert(ordered.take(0) =~= Seq::<(Seq<u8>, Seq<u8>)>::empty());
    while i < sorted.len()
        invariant
            ordered == file_views(sorted@),
            i <= sorted@.len(),
            bytes@ == head + tree_files_bytes(ordered.take(i as int)),
        decreases sorted@.len() - i,
    {
        let entry = &sorted[i];
        assert(ordered[i as int] == file_view(*entry));
        assert(ordered.take(i + 1).drop_last() =~= ordered.take(i as int));
        assert(ordered.take(i + 1).last() == ordered[i as int]);
        put_framed(&mut bytes, entry.0.as_str().as_bytes());
        push_be_u64(&mut bytes, entry.1.len() as u64);
        let digest = sha256(entry.1.as_slice());
        extend_bytes(&mut bytes, digest.as_slice());
        assert(bytes@ =~= head + tree_files_bytes(ordered.take(i + 1)));
        i = i + 1;
    }
    assert(ordered.take(sorted@.len() as int) =~= ordered);
    LexicalArtifactHash(sha256(bytes.as_slice()))
}

} // verus!
