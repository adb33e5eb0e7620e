use vstd::prelude::*;
use vstd::std_specs::cmp::PartialEqSpecImpl;

verus! {

/// Compares two byte strings element by element.
pub fn bytes_equal(a: &[u8], b: &[u8]) -> (equal: bool)
    ensures
        equal == (a@ == b@),
{
    if a.len() != b.len() {
        return false;
    }
    let mut i: usize = 0;
    while i < a.len()
        invariant
            a@.len() == b@.len(),
            i <= a@.len(),
            forall|j: int| 0 <= j < i ==> a@[j] == b@[j],
        decreases a@.len() - i,
    {
        if a[i] != b[i] {
            return false;
        }
        i = i + 1;
    }
    assert(a@ =~= b@);
    true
}

/// The identity of a Space: sixteen opaque bytes.
#[derive(Clone, Copy, Debug, Hash, PartialOrd, Ord)]
pub struct SpaceId([u8; 16]);

impl View for SpaceId {
    type V = Seq<u8>;

    closed spec fn view(&self) -> Seq<u8> {
        self.0@
    }
}

impl PartialEq for SpaceId {
    fn eq(&self, other: &Self) -> (equal: bool) {
        crate::ids::bytes_equal(self.0.as_slice(), other.0.as_slice())
    }
}

impl Eq for SpaceId {}

impl PartialEqSpecImpl for SpaceId {
    open spec fn obeys_eq_spec() -> bool {
        true
    }

    open spec fn eq_spec(&self, other: &Self) -> bool {
        self@ == other@
    }
}

impl SpaceId {
    pub fn from_bytes(bytes: [u8; 16]) -> (id: Self)
        ensures
            id@ == bytes@,
    {
        SpaceId(bytes)
    }

    pub fn as_bytes(&self) -> (bytes: &[u8; 16])
        ensures
            bytes@ == self@,
    {
        &self.0
    }

    pub fn into_bytes(self) -> (bytes: [u8; 16])
        ensures
            bytes@ == self@,
    {
        self.0
    }

    pub proof fn lemma_len(&self)
        ensures
            self@.len() == 16,
    {
    }
}

/// The identity of a Memory: sixteen opaque bytes.
#[derive(Clone, Copy, Debug, Hash, PartialOrd, Ord)]
pub struct MemoryId([u8; 16]);

impl View for MemoryId {
    type V = Seq<u8>;

    closed spec fn view(&self) -> Seq<u8> {
        self.0@
    }
}

impl PartialEq for MemoryId {
    fn eq(&self, other: &Self) -> (equal: bool) {
        crate::ids::bytes_equal(self.0.as_slice(), other.0.as_slice())
    }
}

impl Eq for MemoryId {}

impl PartialEqSpecImpl for MemoryId {
    open spec fn obeys_eq_spec() -> bool {
        true
    }

    open spec fn eq_spec(&self, other: &Self) -> bool {
        self@ == other@
    }
}

impl MemoryId {
    pub fn from_bytes(bytes: [u8; 16]) -> (id: Self)
        ensures
            id@ == bytes@,
    {
        MemoryId(bytes)
    }

    pub fn as_bytes(&self) -> (bytes: &[u8; 16])
        ensures
            bytes@ == self@,
    {
        &self.0
    }

    pub fn into_bytes(self) -> (bytes: [u8; 16])
        ensures
            bytes@ == self@,
    {
        self.0
    }

    pub proof fn lemma_len(&self)
        ensures
            self@.len() == 16,
    {
    }
}

/// The identity of a Memory revision: thirty-two opaque bytes.
#[derive(Clone, Copy, Debug, Hash, PartialOrd, Ord)]
pub struct RevisionId([u8; 32]);

impl View for RevisionId {
    type V = Seq<u8>;

    closed spec fn view(&self) -> Seq<u8> {
        self.0@
    }
}

impl PartialEq for RevisionId {
    fn eq(&self, other: &Self) -> (equal: bool) {
        crate::ids::bytes_equal(self.0.as_slice(), other.0.as_slice())
    }
}

impl Eq for RevisionId {}

impl PartialEqSpecImpl for RevisionId {
    open spec fn obeys_eq_spec() -> bool {
        true
    }

    open spec fn eq_spec(&self, other: &Self) -> bool {
        self@ == other@
    }
}

impl RevisionId {
    pub fn from_bytes(bytes: [u8; 32]) -> (id: Self)
        ensures
            id@ == bytes@,
    {
        RevisionId(bytes)
    }

    pub fn as_bytes(&self) -> (bytes: &[u8; 32])
        ensures
            bytes@ == self@,
    {
        &self.0
    }

    pub fn into_bytes(self) -> (bytes: [u8; 32])
        ensures
            bytes@ == self@,
    {
        self.0
    }

    pub proof fn lemma_len(&self)
        ensures
            self@.len() == 32,
    {
    }
}


/// The generation counter of the authoritative store; derived state is
/// always labelled with the generation it covers.
#[derive(Clone, Copy, Debug, PartialEq, Eq, Hash, PartialOrd, Ord, Structural)]
pub struct AuthorityGeneration(pub u64);

impl AuthorityGeneration {
    pub fn new(value: u64) -> (generation: Self)
        ensures
            generation.spec_value() == value,
    {
        AuthorityGeneration(value)
    }

    /// The generation before any authority commit.
    pub fn initial() -> (generation: Self)
        ensures
            generation.spec_value() == 0,
    {
        AuthorityGeneration(0)
    }

    pub fn value(self) -> (value: u64)
        ensures
            value == self.spec_value(),
    {
        self.0
    }

    pub open spec fn spec_value(self) -> u64 {
        self.0
    }
}

} // verus!
