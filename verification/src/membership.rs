use vstd::prelude::*;
use vstd::std_specs::cmp::PartialEqSpecImpl;

use crate::digest::sha256_spec;
use crate::embedding::{embedding_payload_preimage, EmbeddingSignature, EmbeddingVector, SignatureView};
use crate::ids::{bytes_equal, AuthorityGeneration, MemoryId, RevisionId, SpaceId};
use crate::{invalid, invalid_value, DerivedError};

verus! {

/// What a vector artifact holds: its producer, its payload hash and its values
/// (each the bit pattern of an `f32`).
pub ghost struct ArtifactView {
    pub signature: SignatureView,
    pub payload_hash: Seq<u8>,
    pub values: Seq<u32>,
}

/// An immutable, content-addressed vector payload.
#[derive(Debug)]
pub struct VectorArtifact {
    signature: EmbeddingSignature,
    payload_hash: [u8; 32],
    values: Vec<u32>,
}

impl View for VectorArtifact {
    type V = ArtifactView;

    closed spec fn view(&self) -> ArtifactView {
        ArtifactView {
            signature: self.signature@,
            payload_hash: self.payload_hash@,
            values: self.values@,
        }
    }
}

impl Clone for VectorArtifact {
    fn clone(&self) -> (copy: Self)
        ensures
            copy@ == self@,
    {
        VectorArtifact {
            signature: self.signature.clone(),
            payload_hash: self.payload_hash,
            values: self.values.clone(),
        }
    }
}

/// Whether a bit pattern is a zero of either sign.
pub open spec fn is_zero_bits(bits: u32) -> bool {
    bits == 0 || bits == 0x8000_0000
}

/// Float equality of two finite bit patterns: equal bits, or two zeros.
pub open spec fn same_float(left: u32, right: u32) -> bool {
    left == right || (is_zero_bits(left) && is_zero_bits(right))
}

/// Element-wise float equality of two value sequences.
pub open spec fn same_floats(left: Seq<u32>, right: Seq<u32>) -> bool {
    left.len() == right.len() && forall|i: int| 0 <= i < left.len() ==> same_float(left[i], right[i])
}

/// Equality of two artifacts as their values compare as floats.
pub open spec fn same_artifact(left: ArtifactView, right: ArtifactView) -> bool {
    left.signature == right.signature && left.payload_hash == right.payload_hash && same_floats(
        left.values,
        right.values,
    )
}

fn floats_equal(left: &[u32], right: &[u32]) -> (equal: bool)
    ensures
        equal == same_floats(left@, right@),
{
    if left.len() != right.len() {
        return false;
    }
    let mut i: usize = 0;
    while i < left.len()
        invariant
            left@.len() == right@.len(),
            i <= left@.len(),
            forall|j: int| 0 <= j < i ==> same_float(left@[j], right@[j]),
        decreases left@.len() - i,
    {
        let a = left[i];
        let b = right[i];
        let zeros = (a == 0 || a == 0x8000_0000u32) && (b == 0 || b == 0x8000_0000u32);
        if a != b && !zeros {
            return false;
        }
        i = i + 1;
    }
    true
}

impl PartialEq for VectorArtifact {
    fn eq(&self, other: &Self) -> (equal: bool) {
        self.signature == other.signature && bytes_equal(
            self.payload_hash.as_slice(),
            other.payload_hash.as_slice(),
        ) && floats_equal(self.values.as_slice(), other.values.as_slice())
    }
}

impl PartialEqSpecImpl for VectorArtifact {
    open spec fn obeys_eq_spec() -> bool {
        true
    }

    open spec fn eq_spec(&self, other: &Self) -> bool {
        same_artifact(self@, other@)
    }
}

impl VectorArtifact {
    /// The artifact of an embedding output: its signature, values and the
    /// digest of the values.
    pub fn from_embedding(vector: EmbeddingVector) -> (artifact: Self)
        ensures
            artifact@.signature == vector@.0,
            artifact@.values == vector@.1,
            artifact@.payload_hash == sha256_spec(embedding_payload_preimage(vector@.1)),
    {
        let signature = vector.signature().clone();
        let payload_hash = vector.payload_hash();
        let values = vstd::slice::slice_to_vec(vector.values());
        VectorArtifact { signature, payload_hash, values }
    }

    pub fn signature(&self) -> (signature: &EmbeddingSignature)
        ensures
            signature@ == self@.signature,
    {
        &self.signature
    }

    pub fn payload_hash(&self) -> (hash: &[u8; 32])
        ensures
            hash@ == self@.payload_hash,
    {
        &self.payload_hash
    }

    pub fn values(&self) -> (values: &[u32])
        ensures
            values@ == self@.values,
    {
        self.values.as_slice()
    }

    pub proof fn lemma_hash_len(&self)
        ensures
            self@.payload_hash.len() == 32,
    {
    }
}

/// What a membership names: where a payload is attached, at which
/// generation, and which payload.
pub ghost struct MembershipView {
    pub space_id: Seq<u8>,
    pub memory_id: Seq<u8>,
    pub revision_id: Seq<u8>,
    pub generation: u64,
    pub payload_hash: Seq<u8>,
}

/// The authority-scoped membership of a vector payload.
#[derive(Clone, Copy, Debug, Hash, PartialOrd, Ord)]
pub struct VectorMembership {
    space_id: SpaceId,
    memory_id: MemoryId,
    revision_id: RevisionId,
    authority_generation: AuthorityGeneration,
    payload_hash: [u8; 32],
}

impl View for VectorMembership {
    type V = MembershipView;

    closed spec fn view(&self) -> MembershipView {
        MembershipView {
            space_id: self.space_id@,
            memory_id: self.memory_id@,
            revision_id: self.revision_id@,
            generation: self.authority_generation.spec_value(),
            payload_hash: self.payload_hash@,
        }
    }
}

impl PartialEq for VectorMembership {
    fn eq(&self, other: &Self) -> (equal: bool) {
        self.space_id == other.space_id && self.memory_id == other.memory_id && self.revision_id
            == other.revision_id && self.authority_generation.value()
            == other.authority_generation.value() && bytes_equal(
            self.payload_hash.as_slice(),
            other.payload_hash.as_slice(),
        )
    }
}

impl Eq for VectorMembership {}

impl PartialEqSpecImpl for VectorMembership {
    open spec fn obeys_eq_spec() -> bool {
        true
    }

    open spec fn eq_spec(&self, other: &Self) -> bool {
        self@ == other@
    }
}

/// Two memberships name the same attachment, whatever payload they hold.
pub open spec fn same_identity(left: MembershipView, right: MembershipView) -> bool {
    left.space_id == right.space_id && left.memory_id == right.memory_id && left.revision_id
        == right.revision_id && left.generation == right.generation
}

impl VectorMembership {
    /// The membership of `artifact` at the given attachment.
    pub fn new(
        space_id: SpaceId,
        memory_id: MemoryId,
        revision_id: RevisionId,
        authority_generation: AuthorityGeneration,
        artifact: &VectorArtifact,
    ) -> (membership: Self)
        ensures
            membership@ == (MembershipView {
                space_id: space_id@,
                memory_id: memory_id@,
                revision_id: revision_id@,
                generation: authority_generation.spec_value(),
                payload_hash: artifact@.payload_hash,
            }),
    {
        VectorMembership {
            space_id,
            memory_id,
            revision_id,
            authority_generation,
            payload_hash: *artifact.payload_hash(),
        }
    }

    pub fn from_parts(
        space_id: SpaceId,
        memory_id: MemoryId,
        revision_id: RevisionId,
        authority_generation: AuthorityGeneration,
        payload_hash: [u8; 32],
    ) -> (membership: Self)
        ensures
            membership@ == (MembershipView {
                space_id: space_id@,
                memory_id: memory_id@,
                revision_id: revision_id@,
                generation: authority_generation.spec_value(),
                payload_hash: payload_hash@,
            }),
    {
        VectorMembership { space_id, memory_id, revision_id, authority_generation, payload_hash }
    }

    pub fn space_id(self) -> (id: SpaceId)
        ensures
            id@ == self@.space_id,
    {
        self.space_id
    }

    pub fn memory_id(self) -> (id: MemoryId)
        ensures
            id@ == self@.memory_id,
    {
        self.memory_id
    }

    pub fn revision_id(self) -> (id: RevisionId)
        ensures
            id@ == self@.revision_id,
    {
        self.revision_id
    }

    pub fn authority_generation(self) -> (generation: AuthorityGeneration)
        ensures
            generation.spec_value() == self@.generation,
    {
        self.authority_generation
    }

    pub fn payload_hash(self) -> (hash: [u8; 32])
        ensures
            hash@ == self@.payload_hash,
    {
        self.payload_hash
    }

    /// Whether both name the same attachment.
    pub fn same_identity(&self, other: &Self) -> (same: bool)
        ensures
            same == same_identity(self@, other@),
    {
        self.space_id == other.space_id && self.memory_id == other.memory_id && self.revision_id
            == other.revision_id && self.authority_generation.value()
            == other.authority_generation.value()
    }

    pub proof fn lemma_lengths(&self)
        ensures
            self@.space_id.len() == 16,
            self@.memory_id.len() == 16,
            self@.revision_id.len() == 32,
            self@.payload_hash.len() == 32,
    {
        self.space_id.lemma_len();
        self.memory_id.lemma_len();
        self.revision_id.lemma_len();
    }
}

/// What a filter asks for; `None` accepts any value.
pub ghost struct FilterView {
    pub space_id: Option<Seq<u8>>,
    pub memory_id: Option<Seq<u8>>,
    pub revision_id: Option<Seq<u8>>,
    pub generation: Option<u64>,
}

/// A filter on memberships; each field left unset accepts anything.
#[derive(Clone, Copy, Debug)]
pub struct VectorFilter {
    space_id: Option<SpaceId>,
    memory_id: Option<MemoryId>,
    revision_id: Option<RevisionId>,
    authority_generation: Option<AuthorityGeneration>,
}

impl View for VectorFilter {
    type V = FilterView;

    closed spec fn view(&self) -> FilterView {
        FilterView {
            space_id: match self.space_id {
                Some(id) => Some(id@),
                None => None,
            },
            memory_id: match self.memory_id {
                Some(id) => Some(id@),
                None => None,
            },
            revision_id: match self.revision_id {
                Some(id) => Some(id@),
                None => None,
            },
            generation: match self.authority_generation {
                Some(generation) => Some(generation.spec_value()),
                None => None,
            },
        }
    }
}

/// Whether a membership passes a filter.
pub open spec fn filter_matches(filter: FilterView, membership: MembershipView) -> bool {
    &&& (filter.space_id matches Some(id) ==> id == membership.space_id)
    &&& (filter.memory_id matches Some(id) ==> id == membership.memory_id)
    &&& (filter.revision_id matches Some(id) ==> id == membership.revision_id)
    &&& (filter.generation matches Some(generation) ==> generation == membership.generation)
}

/// The filter that accepts every membership.
pub open spec fn any_filter() -> FilterView {
    FilterView { space_id: None, memory_id: None, revision_id: None, generation: None }
}

impl Default for VectorFilter {
    fn default() -> (filter: Self)
        ensures
            filter@ == any_filter(),
    {
        VectorFilter::any()
    }
}

impl VectorFilter {
    pub fn any() -> (filter: Self)
        ensures
            filter@ == any_filter(),
    {
        VectorFilter { space_id: None, memory_id: None, revision_id: None, authority_generation: None }
    }

    pub fn with_space_id(self, space_id: SpaceId) -> (filter: Self)
        ensures
            filter@ == (FilterView { space_id: Some(space_id@), ..self@ }),
    {
        VectorFilter { space_id: Some(space_id), ..self }
    }

    pub fn with_memory_id(self, memory_id: MemoryId) -> (filter: Self)
        ensures
            filter@ == (FilterView { memory_id: Some(memory_id@), ..self@ }),
    {
        VectorFilter { memory_id: Some(memory_id), ..self }
    }

    pub fn with_revision_id(self, revision_id: RevisionId) -> (filter: Self)
        ensures
            filter@ == (FilterView { revision_id: Some(revision_id@), ..self@ }),
    {
        VectorFilter { revision_id: Some(revision_id), ..self }
    }

    pub fn with_authority_generation(self, authority_generation: AuthorityGeneration) -> (filter:
        Self)
        ensures
            filter@ == (FilterView { generation: Some(authority_generation.spec_value()), ..self@ }),
    {
        VectorFilter { authority_generation: Some(authority_generation), ..self }
    }

    /// Whether `membership` passes every field that is set.
    pub fn matches(&self, membership: &VectorMembership) -> (accepted: bool)
        ensures
            accepted == filter_matches(self@, membership@),
    {
        let space = match self.space_id {
            Some(id) => id == membership.space_id,
            None => true,
        };
        let memory = match self.memory_id {
            Some(id) => id == membership.memory_id,
            None => true,
        };
        let revision = match self.revision_id {
            Some(id) => id == membership.revision_id,
            None => true,
        };
        let generation = match self.authority_generation {
            Some(generation) => generation.value() == membership.authority_generation.value(),
            None => true,
        };
        space && memory && revision && generation
    }
}

/// What a membership table holds: the signature every payload must carry,
/// the memberships by key in the order they were added, the stored payloads,
/// and the next key to hand out.
pub ghost struct TableView {
    pub signature: SignatureView,
    pub memberships: Seq<(u64, MembershipView)>,
    pub payloads: Seq<ArtifactView>,
    pub next_key: u64,
}

/// What inserting an artifact under a membership comes to.
pub ghost enum InsertPlan {
    SignatureMismatch,
    PayloadMismatch,
    MembershipConflict,
    HashCollision,
    KeysExhausted,
    Present,
    Add(u64),
}

pub open spec fn has_identity(table: TableView, membership: MembershipView) -> bool {
    exists|i: int|
        0 <= i < table.memberships.len() && same_identity(
            #[trigger] table.memberships[i].1,
            membership,
        )
}

pub open spec fn has_membership(table: TableView, membership: MembershipView) -> bool {
    exists|i: int|
        0 <= i < table.memberships.len() && #[trigger] table.memberships[i].1 == membership
}

pub open spec fn has_payload_hash(table: TableView, hash: Seq<u8>) -> bool {
    exists|j: int| 0 <= j < table.payloads.len() && #[trigger] table.payloads[j].payload_hash == hash
}

pub open spec fn has_collision(table: TableView, artifact: ArtifactView) -> bool {
    exists|j: int|
        0 <= j < table.payloads.len() && #[trigger] table.payloads[j].payload_hash
            == artifact.payload_hash && !same_artifact(table.payloads[j], artifact)
}

/// The outcome of inserting `artifact` under `membership` into `table`.
pub open spec fn insert_plan(
    table: TableView,
    artifact: ArtifactView,
    membership: MembershipView,
) -> InsertPlan {
    if artifact.signature != table.signature {
        InsertPlan::SignatureMismatch
    } else if membership.payload_hash != artifact.payload_hash {
        InsertPlan::PayloadMismatch
    } else if has_identity(table, membership) {
        if has_membership(table, membership) {
            InsertPlan::Present
        } else {
            InsertPlan::MembershipConflict
        }
    } else if has_collision(table, artifact) {
        InsertPlan::HashCollision
    } else if table.next_key == u64::MAX {
        InsertPlan::KeysExhausted
    } else {
        InsertPlan::Add(table.next_key)
    }
}

/// The table after recording `membership` under `key`; the payload is stored
/// only if no payload with its hash is stored yet.
pub open spec fn recorded(
    table: TableView,
    key: u64,
    artifact: ArtifactView,
    membership: MembershipView,
) -> TableView {
    TableView {
        signature: table.signature,
        memberships: table.memberships.push((key, membership)),
        payloads: if has_payload_hash(table, artifact.payload_hash) {
            table.payloads
        } else {
            table.payloads.push(artifact)
        },
        next_key: (key + 1) as u64,
    }
}

/// The table's invariant: keys below `next_key` and increasing, one
/// membership per attachment, one payload per hash, every payload of the
/// table's signature and every membership's payload stored.
pub open spec fn table_wf(table: TableView) -> bool {
    &&& 1 <= table.next_key
    &&& forall|i: int|
        0 <= i < table.memberships.len() ==> #[trigger] table.memberships[i].0 < table.next_key
    &&& forall|i: int, j: int|
        0 <= i < j < table.memberships.len() ==> #[trigger] table.memberships[i].0
            < #[trigger] table.memberships[j].0
    &&& forall|i: int, j: int|
        0 <= i < table.memberships.len() && 0 <= j < table.memberships.len() && i != j
            ==> !same_identity(#[trigger] table.memberships[i].1, #[trigger] table.memberships[j].1)
    &&& forall|i: int, j: int|
        0 <= i < table.payloads.len() && 0 <= j < table.payloads.len() && i != j
            ==> #[trigger] table.payloads[i].payload_hash != #[trigger] table.payloads[j].payload_hash
    &&& forall|j: int|
        0 <= j < table.payloads.len() ==> #[trigger] table.payloads[j].signature == table.signature
    &&& forall|i: int|
        0 <= i < table.memberships.len() ==> has_payload_hash(
            table,
            #[trigger] table.memberships[i].1.payload_hash,
        )
}

/// The bookkeeping of a vector index: which payload each authority
/// membership points to, under which search key, and the stored payloads.
pub struct VectorMembershipTable {
    signature: EmbeddingSignature,
    memberships: Vec<(u64, VectorMembership)>,
    payloads: Vec<VectorArtifact>,
    next_key: u64,
}

impl View for VectorMembershipTable {
    type V = TableView;

    closed spec fn view(&self) -> TableView {
        TableView {
            signature: self.signature@,
            memberships: self.memberships@.map_values(
                |entry: (u64, VectorMembership)| (entry.0, entry.1@),
            ),
            payloads: self.payloads@.map_values(|artifact: VectorArtifact| artifact@),
            next_key: self.next_key,
        }
    }
}

impl VectorMembershipTable {
    pub closed spec fn wf(&self) -> bool {
        table_wf(self@)
    }

    /// An empty table for payloads of `signature`; keys start at one.
    pub fn new(signature: EmbeddingSignature) -> (table: Self)
        ensures
            table.wf(),
            table@ == (TableView {
                signature: signature@,
                memberships: Seq::empty(),
                payloads: Seq::empty(),
                next_key: 1,
            }),
    {
        let table = VectorMembershipTable {
            signature,
            memberships: Vec::new(),
            payloads: Vec::new(),
            next_key: 1,
        };
        assert(table@.memberships =~= Seq::<(u64, MembershipView)>::empty());
        assert(table@.payloads =~= Seq::<ArtifactView>::empty());
        table
    }

    pub fn signature(&self) -> (signature: &EmbeddingSignature)
        ensures
            signature@ == self@.signature,
    {
        &self.signature
    }

    pub fn payload_count(&self) -> (count: usize)
        ensures
            count == self@.payloads.len(),
    {
        self.payloads.len()
    }

    pub fn membership_count(&self) -> (count: usize)
        ensures
            count == self@.memberships.len(),
    {
        self.memberships.len()
    }

    /// The membership recorded under `key`.
    pub fn membership(&self, key: u64) -> (found: Option<VectorMembership>)
        requires
            self.wf(),
        ensures
            found matches Some(membership) ==> exists|i: int|
                0 <= i < self@.memberships.len() && #[trigger] self@.memberships[i] == (
                    key,
                    membership@,
                ),
            found is None ==> forall|i: int|
                0 <= i < self@.memberships.len() ==> #[trigger] self@.memberships[i].0 != key,
    {
        let mut i: usize = 0;
        while i < self.memberships.len()
            invariant
                i <= self.memberships@.len(),
                forall|j: int| 0 <= j < i ==> #[trigger] self@.memberships[j].0 != key,
            decreases self.memberships@.len() - i,
        {
            if self.memberships[i].0 == key {
                assert(self@.memberships[i as int] == (key, self.memberships@[i as int].1@));
                return Some(self.memberships[i].1);
            }
            i = i + 1;
        }
        None
    }

    /// Decides what inserting `artifact` under `membership` comes to,
    /// without changing the table.
    pub fn plan_insert(&self, artifact: &VectorArtifact, membership: &VectorMembership) -> (result:
        Result<Option<u64>, DerivedError>)
        requires
            self.wf(),
        ensures
            insert_plan(self@, artifact@, membership@) == InsertPlan::Present ==> result == Ok::<
                Option<u64>,
                DerivedError,
            >(None),
            insert_plan(self@, artifact@, membership@) matches InsertPlan::Add(key) ==> result
                == Ok::<Option<u64>, DerivedError>(Some(key)),
            insert_plan(self@, artifact@, membership@) == InsertPlan::SignatureMismatch ==> (result
                matches Err(error) && invalid_value(
                error,
                "vector artifact signature does not match index signature"@,
            )),
            insert_plan(self@, artifact@, membership@) == InsertPlan::PayloadMismatch ==> (result
                matches Err(error) && invalid_value(
                error,
                "vector membership payload hash does not match artifact"@,
            )),
            insert_plan(self@, artifact@, membership@) == InsertPlan::MembershipConflict ==> (result
                matches Err(error) && invalid_value(
                error,
                "vector membership already points to a different payload"@,
            )),
            insert_plan(self@, artifact@, membership@) == InsertPlan::HashCollision ==> (result
                matches Err(error) && invalid_value(error, "vector payload hash collision detected"@)),
            insert_plan(self@, artifact@, membership@) == InsertPlan::KeysExhausted ==> (result
                matches Err(DerivedError::VectorIndex { value }) && value@
                == "vector membership key space exhausted"@),
    {
        if !(artifact.signature == self.signature) {
            return Err(invalid("vector artifact signature does not match index signature"));
        }
        if !bytes_equal(membership.payload_hash.as_slice(), artifact.payload_hash.as_slice()) {
            return Err(invalid("vector membership payload hash does not match artifact"));
        }
        let ghost table = self@;
        let mut i: usize = 0;
        while i < self.memberships.len()
            invariant
                table == self@,
                table_wf(table),
                artifact@.signature == table.signature,
                membership@.payload_hash == artifact@.payload_hash,
                i <= self.memberships@.len(),
                forall|j: int|
                    0 <= j < i ==> !same_identity(#[trigger] table.memberships[j].1, membership@),
            decreases self.memberships@.len() - i,
        {
            let existing = &self.memberships[i].1;
            if existing.same_identity(membership) {
                assert(table.memberships[i as int].1 == existing@);
                if bytes_equal(existing.payload_hash.as_slice(), membership.payload_hash.as_slice()) {
                    assert(existing@ == membership@);
                    return Ok(None);
                }
                assert(!has_membership(table, membership@)) by {
                    if has_membership(table, membership@) {
                        let k = choose|k: int|
                            0 <= k < table.memberships.len() && #[trigger] table.memberships[k].1
                                == membership@;
                        assert(k != i);
                        assert(same_identity(table.memberships[k].1, table.memberships[i as int].1));
                    }
                }
                return Err(invalid("vector membership already points to a different payload"));
            }
            i = i + 1;
        }
        assert(!has_identity(table, membership@));
        let mut j: usize = 0;
        while j < self.payloads.len()
            invariant
                table == self@,
                artifact@.signature == table.signature,
                membership@.payload_hash == artifact@.payload_hash,
                !has_identity(table, membership@),
                j <= self.payloads@.len(),
                forall|k: int|
                    0 <= k < j ==> !(#[trigger] table.payloads[k].payload_hash
                        == artifact@.payload_hash && !same_artifact(table.payloads[k], artifact@)),
            decreases self.payloads@.len() - j,
        {
            let stored = &self.payloads[j];
            assert(table.payloads[j as int] == stored@);
            if bytes_equal(stored.payload_hash.as_slice(), artifact.payload_hash.as_slice())
                && !stored.eq(artifact) {
                assert(table.payloads[j as int].payload_hash == artifact@.payload_hash);
                assert(!same_artifact(table.payloads[j as int], artifact@));
                assert(has_collision(table, artifact@));
                return Err(invalid("vector payload hash collision detected"));
            }
            j = j + 1;
        }
        if self.next_key == u64::MAX {
            return Err(
                DerivedError::VectorIndex {
                    value: crate::text::owned("vector membership key space exhausted"),
                },
            );
        }
        Ok(Some(self.next_key))
    }

    /// Records `membership` under the key that `plan_insert` handed out.
    pub fn record(&mut self, key: u64, artifact: VectorArtifact, membership: VectorMembership)
        requires
            old(self).wf(),
            insert_plan(old(self)@, artifact@, membership@) == InsertPlan::Add(key),
        ensures
            final(self).wf(),
            final(self)@ == recorded(old(self)@, key, artifact@, membership@),
    {
        let ghost before = self@;
        let mut stored = false;
        let mut j: usize = 0;
        while j < self.payloads.len()
            invariant
                before == self@,
                j <= self.payloads@.len(),
                stored == exists|k: int|
                    0 <= k < j && #[trigger] before.payloads[k].payload_hash
                        == artifact@.payload_hash,
            decreases self.payloads@.len() - j,
        {
            assert(before.payloads[j as int] == self.payloads@[j as int]@);
            if bytes_equal(self.payloads[j].payload_hash.as_slice(), artifact.payload_hash.as_slice()) {
                assert(before.payloads[j as int].payload_hash == artifact@.payload_hash);
                stored = true;
            } else {
                assert(before.payloads[j as int].payload_hash != artifact@.payload_hash);
            }
            j = j + 1;
        }
        if !stored {
            self.payloads.push(artifact);
        }
        self.memberships.push((key, membership));
        self.next_key = key + 1;
        let ghost after = recorded(before, key, artifact@, membership@);
        assert(self@.memberships =~= after.memberships);
        assert(self@.payloads =~= after.payloads);
        proof {
            lemma_recorded_wf(before, key, artifact@, membership@);
        }
    }
}

proof fn lemma_recorded_wf(
    table: TableView,
    key: u64,
    artifact: ArtifactView,
    membership: MembershipView,
)
    requires
        table_wf(table),
        insert_plan(table, artifact, membership) == InsertPlan::Add(key),
    ensures
        table_wf(recorded(table, key, artifact, membership)),
{
    let after = recorded(table, key, artifact, membership);
    let n = table.memberships.len();
    assert forall|i: int| 0 <= i < after.memberships.len() implies has_payload_hash(
        after,
        #[trigger] after.memberships[i].1.payload_hash,
    ) by {
        if i < n {
            let hash = table.memberships[i].1.payload_hash;
            assert(has_payload_hash(table, hash));
            let j = choose|j: int|
                0 <= j < table.payloads.len() && #[trigger] table.payloads[j].payload_hash == hash;
            assert(after.payloads[j] == table.payloads[j]);
        } else {
            if has_payload_hash(table, artifact.payload_hash) {
                let j = choose|j: int|
                    0 <= j < table.payloads.len() && #[trigger] table.payloads[j].payload_hash
                        == artifact.payload_hash;
                assert(after.payloads[j] == table.payloads[j]);
            } else {
                assert(after.payloads[table.payloads.len() as int] == artifact);
            }
        }
    }
    assert forall|i: int, j: int|
        0 <= i < after.payloads.len() && 0 <= j < after.payloads.len() && i != j
            implies #[trigger] after.payloads[i].payload_hash
            != #[trigger] after.payloads[j].payload_hash by {
        if !has_payload_hash(table, artifact.payload_hash) {
            if i == table.payloads.len() {
                assert(table.payloads[j].payload_hash != artifact.payload_hash);
            }
            if j == table.payloads.len() {
                assert(table.payloads[i].payload_hash != artifact.payload_hash);
            }
        }
    }
    assert forall|i: int, j: int|
        0 <= i < after.memberships.len() && 0 <= j < after.memberships.len() && i != j
            implies !same_identity(
            #[trigger] after.memberships[i].1,
            #[trigger] after.memberships[j].1,
        ) by {
        if i == n {
            assert(!same_identity(table.memberships[j].1, membership));
        }
        if j == n {
            assert(!same_identity(table.memberships[i].1, membership));
        }
    }
}

/// Inserting the same artifact under the same membership twice changes
/// nothing the second time.
pub proof fn law_insert_is_idempotent(
    table: TableView,
    key: u64,
    artifact: ArtifactView,
    membership: MembershipView,
)
    requires
        table_wf(table),
        insert_plan(table, artifact, membership) == InsertPlan::Add(key),
    ensures
        insert_plan(recorded(table, key, artifact, membership), artifact, membership)
            == InsertPlan::Present,
{
    let after = recorded(table, key, artifact, membership);
    let n = table.memberships.len() as int;
    assert(after.memberships[n].1 == membership);
    assert(same_identity(after.memberships[n].1, membership));
}

/// Once a membership holds a payload, another membership of the same
/// payload stores nothing new: the payload is kept once.
pub proof fn law_payload_is_stored_once(
    table: TableView,
    first_key: u64,
    second_key: u64,
    artifact: ArtifactView,
    first: MembershipView,
    second: MembershipView,
)
    requires
        table_wf(table),
        insert_plan(table, artifact, first) == InsertPlan::Add(first_key),
        insert_plan(recorded(table, first_key, artifact, first), artifact, second)
            == InsertPlan::Add(second_key),
    ensures
        recorded(recorded(table, first_key, artifact, first), second_key, artifact, second).payloads
            == recorded(table, first_key, artifact, first).payloads,
{
    let middle = recorded(table, first_key, artifact, first);
    if has_payload_hash(table, artifact.payload_hash) {
        let j = choose|j: int|
            0 <= j < table.payloads.len() && #[trigger] table.payloads[j].payload_hash
                == artifact.payload_hash;
        assert(middle.payloads[j].payload_hash == artifact.payload_hash);
    } else {
        assert(middle.payloads[table.payloads.len() as int].payload_hash == artifact.payload_hash);
    }
}

/// A recorded membership cannot be moved to another payload: inserting a
/// different payload under the same attachment is refused.
pub proof fn law_membership_payload_is_fixed(
    table: TableView,
    key: u64,
    artifact: ArtifactView,
    membership: MembershipView,
    other: ArtifactView,
    moved: MembershipView,
)
    requires
        table_wf(table),
        insert_plan(table, artifact, membership) == InsertPlan::Add(key),
        other.signature == table.signature,
        moved.payload_hash == other.payload_hash,
        same_identity(moved, membership),
        moved.payload_hash != membership.payload_hash,
    ensures
        insert_plan(recorded(table, key, artifact, membership), other, moved)
            == InsertPlan::MembershipConflict,
{
    let after = recorded(table, key, artifact, membership);
    let n = table.memberships.len() as int;
    assert(same_identity(after.memberships[n].1, moved));
    lemma_recorded_wf(table, key, artifact, membership);
    if has_membership(after, moved) {
        let k = choose|k: int|
            0 <= k < after.memberships.len() && #[trigger] after.memberships[k].1 == moved;
        assert(k != n);
        assert(same_identity(after.memberships[k].1, after.memberships[n].1));
    }
}

/// The capacity to reserve when an index of `len` entries is full: twice
/// its size, and at least two.
pub fn grown_capacity(len: usize) -> (capacity: Option<usize>)
    ensures
        len == 0 ==> capacity == Some(2usize),
        len > 0 && 2 * len <= usize::MAX ==> capacity == Some((2 * len) as usize),
        len > 0 && 2 * len > usize::MAX ==> capacity is None,
{
    let base = if len == 0 {
        1
    } else {
        len
    };
    base.checked_mul(2)
}


/// A filter accepts a membership exactly when every field it sets equals
/// the membership's: a filter set to a space, memory, revision or
/// generation refuses memberships of any other, and a field left unset
/// accepts anything. The filter that sets nothing accepts every membership.
pub proof fn law_filter_checks_every_set_field(filter: FilterView, membership: MembershipView)
    ensures
        filter_matches(filter, membership) ==> (filter.space_id is None || filter.space_id == Some(
            membership.space_id,
        )),
        filter_matches(filter, membership) ==> (filter.memory_id is None || filter.memory_id
            == Some(membership.memory_id)),
        filter_matches(filter, membership) ==> (filter.revision_id is None || filter.revision_id
            == Some(membership.revision_id)),
        filter_matches(filter, membership) ==> (filter.generation is None || filter.generation
            == Some(membership.generation)),
        (filter.space_id is None || filter.space_id == Some(membership.space_id)) && (
        filter.memory_id is None || filter.memory_id == Some(membership.memory_id)) && (
        filter.revision_id is None || filter.revision_id == Some(membership.revision_id)) && (
        filter.generation is None || filter.generation == Some(membership.generation))
            ==> filter_matches(filter, membership),
        filter_matches(any_filter(), membership),
{
}

} // verus!
