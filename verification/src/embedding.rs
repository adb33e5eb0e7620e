use vstd::prelude::*;
use vstd::std_specs::cmp::PartialEqSpecImpl;
use vstd::utf8::encode_utf8;

use crate::dependency::{ProjectionInputHash, ProjectionKind};
use crate::digest::{sha256, sha256_spec};
use crate::encode::{be_u32, be_u64, extend_bytes, framed, push_be_u32, push_be_u64, put_framed};
use crate::text::{owned, str_eq};
use crate::{invalid, invalid_value, DerivedError};

verus! {

/// How embedding vectors are normalized.
#[derive(Clone, Copy, Debug, PartialEq, Eq, Hash, PartialOrd, Ord, Structural)]
pub enum EmbeddingNormalization {
    Unnormalized,
    L2,
}

pub open spec fn normalization_name(normalization: EmbeddingNormalization) -> Seq<char> {
    match normalization {
        EmbeddingNormalization::Unnormalized => "none"@,
        EmbeddingNormalization::L2 => "l2"@,
    }
}

impl EmbeddingNormalization {
    pub fn as_str(self) -> (name: &'static str)
        ensures
            name@ == normalization_name(self),
    {
        match self {
            EmbeddingNormalization::Unnormalized => "none",
            EmbeddingNormalization::L2 => "l2",
        }
    }
}

/// The identity of an embedding producer and output shape.
#[derive(Debug)]
pub struct EmbeddingSignature {
    provider: String,
    model: String,
    task: String,
    dimensions: usize,
    normalization: EmbeddingNormalization,
    projection_version: u32,
}

/// What identifies an embedding signature.
pub ghost struct SignatureView {
    pub provider: Seq<char>,
    pub model: Seq<char>,
    pub task: Seq<char>,
    pub dimensions: usize,
    pub normalization: EmbeddingNormalization,
    pub projection_version: u32,
}

impl View for EmbeddingSignature {
    type V = SignatureView;

    closed spec fn view(&self) -> SignatureView {
        SignatureView {
            provider: self.provider@,
            model: self.model@,
            task: self.task@,
            dimensions: self.dimensions,
            normalization: self.normalization,
            projection_version: self.projection_version,
        }
    }
}

impl Clone for EmbeddingSignature {
    fn clone(&self) -> (copy: Self)
        ensures
            copy@ == self@,
    {
        EmbeddingSignature {
            provider: self.provider.clone(),
            model: self.model.clone(),
            task: self.task.clone(),
            dimensions: self.dimensions,
            normalization: self.normalization,
            projection_version: self.projection_version,
        }
    }
}

impl PartialEq for EmbeddingSignature {
    fn eq(&self, other: &Self) -> (equal: bool) {
        str_eq(self.provider.as_str(), other.provider.as_str()) && str_eq(
            self.model.as_str(),
            other.model.as_str(),
        ) && str_eq(self.task.as_str(), other.task.as_str()) && self.dimensions
            == other.dimensions && self.normalization == other.normalization
            && self.projection_version == other.projection_version
    }
}

impl Eq for EmbeddingSignature {}

impl PartialEqSpecImpl for EmbeddingSignature {
    open spec fn obeys_eq_spec() -> bool {
        true
    }

    open spec fn eq_spec(&self, other: &Self) -> bool {
        self@ == other@
    }
}

/// The bytes an embedding identity digests.
pub open spec fn identity_preimage(signature: SignatureView, input_hash: Seq<u8>) -> Seq<u8> {
    encode_utf8("memoria-embedding-identity-v1\0"@) + input_hash + framed(
        encode_utf8(signature.provider),
    ) + framed(encode_utf8(signature.model)) + framed(encode_utf8(signature.task)) + be_u64(
        signature.dimensions as u64,
    ) + framed(encode_utf8(normalization_name(signature.normalization))) + be_u32(
        signature.projection_version,
    )
}

impl EmbeddingSignature {
    /// A signature; dimensions and projection version must be positive.
    pub fn new(
        provider: String,
        model: String,
        task: String,
        dimensions: usize,
        normalization: EmbeddingNormalization,
        projection_version: u32,
    ) -> (result: Result<Self, DerivedError>)
        ensures
            dimensions == 0 ==> (result matches Err(error) && invalid_value(
                error,
                "embedding dimensions must be positive"@,
            )),
            dimensions > 0 && projection_version == 0 ==> (result matches Err(error)
                && invalid_value(error, "embedding projection version must be positive"@)),
            dimensions > 0 && projection_version > 0 ==> (result matches Ok(signature)
                && signature@ == SignatureView {
                provider: provider@,
                model: model@,
                task: task@,
                dimensions,
                normalization,
                projection_version,
            }),
    {
        if dimensions == 0 {
            return Err(invalid("embedding dimensions must be positive"));
        }
        if projection_version == 0 {
            return Err(invalid("embedding projection version must be positive"));
        }
        Ok(EmbeddingSignature { provider, model, task, dimensions, normalization, projection_version })
    }

    pub fn provider(&self) -> (provider: &str)
        ensures
            provider@ == self@.provider,
    {
        self.provider.as_str()
    }

    pub fn model(&self) -> (model: &str)
        ensures
            model@ == self@.model,
    {
        self.model.as_str()
    }

    pub fn task(&self) -> (task: &str)
        ensures
            task@ == self@.task,
    {
        self.task.as_str()
    }

    pub fn dimensions(&self) -> (dimensions: usize)
        ensures
            dimensions == self@.dimensions,
    {
        self.dimensions
    }

    pub fn normalization(&self) -> (normalization: EmbeddingNormalization)
        ensures
            normalization == self@.normalization,
    {
        self.normalization
    }

    pub fn projection_version(&self) -> (version: u32)
        ensures
            version == self@.projection_version,
    {
        self.projection_version
    }

    pub fn cache_key(&self, input_hash: ProjectionInputHash) -> (key: EmbeddingCacheKey)
        ensures
            key@ == (input_hash@, self@),
    {
        EmbeddingCacheKey { input_hash, signature: self.clone() }
    }

    /// A digest of the signature together with a projection input hash.
    pub fn identity_hash(&self, input_hash: &ProjectionInputHash) -> (hash: [u8; 32])
        ensures
            hash@ == sha256_spec(identity_preimage(self@, input_hash@)),
    {
        let mut preimage: Vec<u8> = Vec::new();
        let domain: &str = "memoria-embedding-identity-v1\0";
        extend_bytes(&mut preimage, domain.as_bytes());
        extend_bytes(&mut preimage, input_hash.as_bytes().as_slice());
        put_framed(&mut preimage, self.provider.as_str().as_bytes());
        put_framed(&mut preimage, self.model.as_str().as_bytes());
        put_framed(&mut preimage, self.task.as_str().as_bytes());
        push_be_u64(&mut preimage, self.dimensions as u64);
        put_framed(&mut preimage, self.normalization.as_str().as_bytes());
        push_be_u32(&mut preimage, self.projection_version);
        assert(preimage@ =~= identity_preimage(self@, input_hash@));
        sha256(preimage.as_slice())
    }
}

/// The key of a reusable embedding payload: the projection input and the
/// signature that embedded it.
#[derive(Debug)]
pub struct EmbeddingCacheKey {
    input_hash: ProjectionInputHash,
    signature: EmbeddingSignature,
}

impl View for EmbeddingCacheKey {
    type V = (Seq<u8>, SignatureView);

    closed spec fn view(&self) -> (Seq<u8>, SignatureView) {
        (self.input_hash@, self.signature@)
    }
}

impl Clone for EmbeddingCacheKey {
    fn clone(&self) -> (copy: Self)
        ensures
            copy@ == self@,
    {
        EmbeddingCacheKey { input_hash: self.input_hash, signature: self.signature.clone() }
    }
}

impl PartialEq for EmbeddingCacheKey {
    fn eq(&self, other: &Self) -> (equal: bool) {
        self.input_hash == other.input_hash && self.signature == other.signature
    }
}

impl Eq for EmbeddingCacheKey {}

impl PartialEqSpecImpl for EmbeddingCacheKey {
    open spec fn obeys_eq_spec() -> bool {
        true
    }

    open spec fn eq_spec(&self, other: &Self) -> bool {
        self@ == other@
    }
}

impl EmbeddingCacheKey {
    pub fn input_hash(&self) -> (hash: &ProjectionInputHash)
        ensures
            hash@ == self@.0,
    {
        &self.input_hash
    }

    pub fn signature(&self) -> (signature: &EmbeddingSignature)
        ensures
            signature@ == self@.1,
    {
        &self.signature
    }
}

/// An IEEE 754 single-precision bit pattern that encodes a finite number.
pub open spec fn finite_bits(bits: u32) -> bool {
    bits & 0x7f80_0000u32 != 0x7f80_0000u32
}

pub fn is_finite_bits(bits: u32) -> (finite: bool)
    ensures
        finite == finite_bits(bits),
{
    bits & 0x7f80_0000u32 != 0x7f80_0000u32
}

/// Every value is finite.
pub open spec fn all_finite(values: Seq<u32>) -> bool {
    forall|i: int| 0 <= i < values.len() ==> finite_bits(#[trigger] values[i])
}

pub fn all_finite_bits(values: &[u32]) -> (finite: bool)
    ensures
        finite == all_finite(values@),
{
    let mut i: usize = 0;
    while i < values.len()
        invariant
            i <= values@.len(),
            forall|j: int| 0 <= j < i ==> finite_bits(#[trigger] values@[j]),
        decreases values@.len() - i,
    {
        if !is_finite_bits(values[i]) {
            return false;
        }
        i = i + 1;
    }
    true
}

/// One embedding output: the signature that produced it and its values, each
/// held as the bit pattern of an `f32`.
#[derive(Debug)]
pub struct EmbeddingVector {
    signature: EmbeddingSignature,
    values: Vec<u32>,
}

impl View for EmbeddingVector {
    type V = (SignatureView, Seq<u32>);

    closed spec fn view(&self) -> (SignatureView, Seq<u32>) {
        (self.signature@, self.values@)
    }
}

impl Clone for EmbeddingVector {
    fn clone(&self) -> (copy: Self)
        ensures
            copy@ == self@,
    {
        EmbeddingVector { signature: self.signature.clone(), values: self.values.clone() }
    }
}

/// The big-endian bytes of a sequence of bit patterns.
pub open spec fn be_bits(values: Seq<u32>) -> Seq<u8>
    decreases values.len(),
{
    if values.len() == 0 {
        seq![]
    } else {
        be_bits(values.drop_last()) + be_u32(values.last())
    }
}

/// The bytes an embedding payload hash digests.
pub open spec fn embedding_payload_preimage(values: Seq<u32>) -> Seq<u8> {
    encode_utf8("memoria-embedding-payload-v1\0"@) + be_bits(values)
}

impl EmbeddingVector {
    /// The values must match the signature's dimensions and be finite.
    pub fn new(signature: EmbeddingSignature, values: Vec<u32>) -> (result: Result<Self, DerivedError>)
        ensures
            values@.len() != signature@.dimensions ==> (result matches Err(
                DerivedError::InvalidProjectionValue { .. },
            )),
            values@.len() == signature@.dimensions && !all_finite(values@) ==> (result matches Err(
                error,
            ) && invalid_value(error, "embedding values must be finite"@)),
            values@.len() == signature@.dimensions && all_finite(values@) ==> (result matches Ok(
                vector,
            ) && vector@ == (signature@, values@)),
    {
        if values.len() != signature.dimensions() {
            return Err(invalid("embedding dimension mismatch"));
        }
        if !all_finite_bits(values.as_slice()) {
            return Err(invalid("embedding values must be finite"));
        }
        Ok(EmbeddingVector { signature, values })
    }

    pub fn signature(&self) -> (signature: &EmbeddingSignature)
        ensures
            signature@ == self@.0,
    {
        &self.signature
    }

    pub fn values(&self) -> (values: &[u32])
        ensures
            values@ == self@.1,
    {
        self.values.as_slice()
    }

    /// A digest of the values alone.
    pub fn payload_hash(&self) -> (hash: [u8; 32])
        ensures
            hash@ == sha256_spec(embedding_payload_preimage(self@.1)),
    {
        let mut preimage: Vec<u8> = Vec::new();
        let domain: &str = "memoria-embedding-payload-v1\0";
        extend_bytes(&mut preimage, domain.as_bytes());
        let ghost start = preimage@;
        let mut i: usize = 0;
        while i < self.values.len()
            invariant
                i <= self.values@.len(),
                preimage@ == start + be_bits(self.values@.subrange(0, i as int)),
            decreases self.values@.len() - i,
        {
            push_be_u32(&mut preimage, self.values[i]);
            proof {
                assert(self.values@.subrange(0, i + 1).drop_last() =~= self.values@.subrange(
                    0,
                    i as int,
                ));
            }
            i = i + 1;
        }
        assert(self.values@.subrange(0, self.values@.len() as int) =~= self.values@);
        sha256(preimage.as_slice())
    }
}

/// One unit of text to embed.
#[derive(Clone, Debug)]
pub struct EmbeddingWorkItem {
    pub key: String,
    pub input_hash: ProjectionInputHash,
}

/// A batch of embedding work handed to a provider.
#[derive(Clone, Debug)]
pub struct EmbeddingWork {
    pub work_id: String,
    pub signature: EmbeddingSignature,
    pub items: Vec<EmbeddingWorkItem>,
}

/// One embedded value returned by a provider.
#[derive(Clone, Debug)]
pub struct EmbeddingResultItem {
    pub key: String,
    pub values: Vec<u32>,
}

/// A provider's answer to a batch of embedding work.
#[derive(Clone, Debug)]
pub struct EmbeddingResult {
    pub work_id: String,
    pub signature: EmbeddingSignature,
    pub items: Vec<EmbeddingResultItem>,
}

/// Some work item carries `key`.
pub open spec fn work_has_key(items: Seq<EmbeddingWorkItem>, key: Seq<char>) -> bool {
    exists|i: int| 0 <= i < items.len() && #[trigger] items[i].key@ == key
}

/// Some result item carries `key`.
pub open spec fn result_has_key(items: Seq<EmbeddingResultItem>, key: Seq<char>) -> bool {
    exists|i: int| 0 <= i < items.len() && #[trigger] items[i].key@ == key
}

/// The result answers exactly the keys that the work asked for.
pub open spec fn same_keys(work: Seq<EmbeddingWorkItem>, result: Seq<EmbeddingResultItem>) -> bool {
    &&& forall|i: int| 0 <= i < work.len() ==> result_has_key(result, (#[trigger] work[i]).key@)
    &&& forall|i: int| 0 <= i < result.len() ==> work_has_key(work, (#[trigger] result[i]).key@)
}

/// Every result item has the signature's dimensions and finite values.
pub open spec fn all_items_valid(result: EmbeddingResult) -> bool {
    forall|i: int|
        0 <= i < result.items@.len() ==> (#[trigger] result.items@[i]).values@.len()
            == result.signature@.dimensions && all_finite(result.items@[i].values@)
}

/// The result matches the work it answers.
pub open spec fn result_matches_work(work: EmbeddingWork, result: EmbeddingResult) -> bool {
    &&& work.work_id@ == result.work_id@
    &&& work.signature@ == result.signature@
    &&& work.items@.len() == result.items@.len()
    &&& same_keys(work.items@, result.items@)
}

fn work_key_present(items: &[EmbeddingWorkItem], key: &str) -> (found: bool)
    ensures
        found == work_has_key(items@, key@),
{
    let mut i: usize = 0;
    while i < items.len()
        invariant
            i <= items@.len(),
            forall|j: int| 0 <= j < i ==> (#[trigger] items@[j]).key@ != key@,
        decreases items@.len() - i,
    {
        if str_eq(items[i].key.as_str(), key) {
            return true;
        }
        i = i + 1;
    }
    false
}

fn result_key_present(items: &[EmbeddingResultItem], key: &str) -> (found: bool)
    ensures
        found == result_has_key(items@, key@),
{
    let mut i: usize = 0;
    while i < items.len()
        invariant
            i <= items@.len(),
            forall|j: int| 0 <= j < i ==> (#[trigger] items@[j]).key@ != key@,
        decreases items@.len() - i,
    {
        if str_eq(items[i].key.as_str(), key) {
            return true;
        }
        i = i + 1;
    }
    false
}

/// Checks a provider's answer against the work it was given and turns it
/// into embedding vectors, one per result item in order.
pub fn validate_embedding_result(work: &EmbeddingWork, result: &EmbeddingResult) -> (validated: Result<
    Vec<EmbeddingVector>,
    DerivedError,
>)
    ensures
        validated is Ok <==> result_matches_work(*work, *result) && all_items_valid(*result),
        validated matches Ok(vectors) ==> vectors@.len() == result.items@.len() && forall|i: int|
            0 <= i < vectors@.len() ==> (#[trigger] vectors@[i])@ == (
                result.signature@,
                result.items@[i].values@,
            ),
        work.work_id@ != result.work_id@ ==> (validated matches Err(error) && invalid_value(
            error,
            "embedding result work id does not match request"@,
        )),
        work.work_id@ == result.work_id@ && work.signature@ != result.signature@ ==> (
        validated matches Err(error) && invalid_value(
            error,
            "embedding result signature does not match request"@,
        )),
        work.work_id@ == result.work_id@ && work.signature@ == result.signature@
            && work.items@.len() != result.items@.len() ==> (validated matches Err(error)
            && invalid_value(error, "embedding result item count does not match request"@)),
        work.work_id@ == result.work_id@ && work.signature@ == result.signature@
            && work.items@.len() == result.items@.len() && !same_keys(work.items@, result.items@)
            ==> (validated matches Err(error) && invalid_value(
            error,
            "embedding result keys do not match request"@,
        )),
{
    if !str_eq(work.work_id.as_str(), result.work_id.as_str()) {
        return Err(invalid("embedding result work id does not match request"));
    }
    if !(work.signature == result.signature) {
        return Err(invalid("embedding result signature does not match request"));
    }
    if work.items.len() != result.items.len() {
        return Err(invalid("embedding result item count does not match request"));
    }
    let mut i: usize = 0;
    while i < work.items.len()
        invariant
            i <= work.items@.len(),
            work.work_id@ == result.work_id@,
            work.signature@ == result.signature@,
            work.items@.len() == result.items@.len(),
            forall|j: int| 0 <= j < i ==> result_has_key(result.items@, (#[trigger] work.items@[j]).key@),
        decreases work.items@.len() - i,
    {
        if !result_key_present(result.items.as_slice(), work.items[i].key.as_str()) {
            return Err(invalid("embedding result keys do not match request"));
        }
        i = i + 1;
    }
    let mut i: usize = 0;
    while i < result.items.len()
        invariant
            i <= result.items@.len(),
            work.work_id@ == result.work_id@,
            work.signature@ == result.signature@,
            work.items@.len() == result.items@.len(),
            forall|j: int| 0 <= j < work.items@.len() ==> result_has_key(result.items@, (#[trigger] work.items@[j]).key@),
            forall|j: int| 0 <= j < i ==> work_has_key(work.items@, (#[trigger] result.items@[j]).key@),
        decreases result.items@.len() - i,
    {
        if !work_key_present(work.items.as_slice(), result.items[i].key.as_str()) {
            return Err(invalid("embedding result keys do not match request"));
        }
        i = i + 1;
    }
    let mut vectors: Vec<EmbeddingVector> = Vec::new();
    let mut i: usize = 0;
    while i < result.items.len()
        invariant
            i <= result.items@.len(),
            result_matches_work(*work, *result),
            vectors@.len() == i,
            forall|j: int| 0 <= j < i ==> (#[trigger] vectors@[j])@ == (
                result.signature@,
                result.items@[j].values@,
            ),
            forall|j: int|
                0 <= j < i ==> (#[trigger] result.items@[j]).values@.len()
                    == result.signature@.dimensions && all_finite(result.items@[j].values@),
        decreases result.items@.len() - i,
    {
        match EmbeddingVector::new(result.signature.clone(), result.items[i].values.clone()) {
            Ok(vector) => {
                vectors.push(vector);
            },
            Err(error) => {
                return Err(error);
            },
        }
        i = i + 1;
    }
    Ok(vectors)
}

/// A reusable store of embedding payloads, keyed by projection input and signature.
#[derive(Clone, Debug)]
pub struct EmbeddingPayloadCache {
    entries: Vec<(EmbeddingCacheKey, EmbeddingVector)>,
}

/// The cache as a map from keys to payloads.
pub open spec fn cache_map(entries: Seq<(EmbeddingCacheKey, EmbeddingVector)>) -> Map<
    (Seq<u8>, SignatureView),
    (SignatureView, Seq<u32>),
>
    decreases entries.len(),
{
    if entries.len() == 0 {
        Map::empty()
    } else {
        cache_map(entries.drop_last()).insert(entries.last().0@, entries.last().1@)
    }
}

impl View for EmbeddingPayloadCache {
    type V = Map<(Seq<u8>, SignatureView), (SignatureView, Seq<u32>)>;

    closed spec fn view(&self) -> Self::V {
        cache_map(self.entries@)
    }
}

impl EmbeddingPayloadCache {
    /// No key twice.
    pub closed spec fn wf(&self) -> bool {
        forall|i: int, j: int|
            0 <= i < j < self.entries@.len() ==> (#[trigger] self.entries@[i]).0@
                != (#[trigger] self.entries@[j]).0@
    }

    pub fn new() -> (cache: Self)
        ensures
            cache.wf(),
            cache@ == Map::<(Seq<u8>, SignatureView), (SignatureView, Seq<u32>)>::empty(),
    {
        EmbeddingPayloadCache { entries: Vec::new() }
    }

    pub fn len(&self) -> (count: usize)
        requires
            self.wf(),
        ensures
            count == self@.len(),
    {
        proof {
            self.lemma_len(self.entries@.len() as int);
            assert(self.entries@.subrange(0, self.entries@.len() as int) =~= self.entries@);
        }
        self.entries.len()
    }

    proof fn lemma_len(&self, n: int)
        requires
            self.wf(),
            0 <= n <= self.entries@.len(),
        ensures
            cache_map(self.entries@.subrange(0, n)).len() == n,
            cache_map(self.entries@.subrange(0, n)).dom().finite(),
            forall|k| #[trigger] cache_map(self.entries@.subrange(0, n)).dom().contains(k) <==> exists|i: int|
                0 <= i < n && self.entries@[i].0@ == k,
        decreases n,
    {
        let prefix = self.entries@.subrange(0, n);
        if n > 0 {
            self.lemma_len(n - 1);
            assert(prefix.drop_last() =~= self.entries@.subrange(0, n - 1));
            let key = self.entries@[n - 1].0@;
            assert(!cache_map(self.entries@.subrange(0, n - 1)).dom().contains(key)) by {
                if cache_map(self.entries@.subrange(0, n - 1)).dom().contains(key) {
                    let i = choose|i: int| 0 <= i < n - 1 && self.entries@[i].0@ == key;
                    assert(self.entries@[i].0@ != self.entries@[n - 1].0@);
                }
            }
            assert forall|k| #[trigger] cache_map(prefix).dom().contains(k) <==> exists|i: int|
                0 <= i < n && self.entries@[i].0@ == k by {
                if k == key {
                    assert(self.entries@[n - 1].0@ == k);
                }
            }
        } else {
            assert(cache_map(prefix) =~= Map::empty());
        }
    }

    pub fn is_empty(&self) -> (empty: bool)
        requires
            self.wf(),
        ensures
            empty == (self@.len() == 0),
    {
        self.len() == 0
    }

    fn find(&self, key: &EmbeddingCacheKey) -> (found: Option<usize>)
        requires
            self.wf(),
        ensures
            found matches Some(i) ==> i < self.entries@.len() && self.entries@[i as int].0@ == key@
                && self@.contains_key(key@) && self@[key@] == self.entries@[i as int].1@,
            found is None ==> !self@.contains_key(key@),
    {
        proof {
            self.lemma_len(self.entries@.len() as int);
            assert(self.entries@.subrange(0, self.entries@.len() as int) =~= self.entries@);
        }
        let mut i: usize = 0;
        while i < self.entries.len()
            invariant
                i <= self.entries@.len(),
                self.wf(),
                forall|j: int| 0 <= j < i ==> (#[trigger] self.entries@[j]).0@ != key@,
            decreases self.entries@.len() - i,
        {
            if self.entries[i].0 == *key {
                proof {
                    self.lemma_lookup(self.entries@.len() as int, i as int);
                    assert(self.entries@.subrange(0, self.entries@.len() as int) =~= self.entries@);
                }
                return Some(i);
            }
            i = i + 1;
        }
        None
    }

    proof fn lemma_lookup(&self, n: int, i: int)
        requires
            self.wf(),
            0 <= i < n <= self.entries@.len(),
        ensures
            cache_map(self.entries@.subrange(0, n))[self.entries@[i].0@] == self.entries@[i].1@,
            cache_map(self.entries@.subrange(0, n)).contains_key(self.entries@[i].0@),
        decreases n,
    {
        let prefix = self.entries@.subrange(0, n);
        assert(prefix.drop_last() =~= self.entries@.subrange(0, n - 1));
        if i < n - 1 {
            self.lemma_lookup(n - 1, i);
            assert(self.entries@[i].0@ != self.entries@[n - 1].0@);
        }
    }

    pub fn get(&self, key: &EmbeddingCacheKey) -> (value: Option<&EmbeddingVector>)
        requires
            self.wf(),
        ensures
            value matches Some(v) ==> self@.contains_key(key@) && self@[key@] == v@,
            value is None ==> !self@.contains_key(key@),
    {
        match self.find(key) {
            Some(i) => Some(&self.entries[i].1),
            None => None,
        }
    }

    /// Records a payload. The key must carry the payload's signature, and a
    /// key already holding a different payload is refused.
    pub fn insert(&mut self, key: EmbeddingCacheKey, value: EmbeddingVector) -> (result: Result<(), DerivedError>)
        requires
            old(self).wf(),
        ensures
            final(self).wf(),
            key@.1 != value@.0 ==> (result matches Err(error) && invalid_value(
                error,
                "embedding cache key and payload signatures differ"@,
            ) && final(self)@ == old(self)@),
            key@.1 == value@.0 && old(self)@.contains_key(key@) && sha256_spec(
                embedding_payload_preimage(old(self)@[key@].1),
            ) != sha256_spec(embedding_payload_preimage(value@.1)) ==> (result matches Err(error)
                && invalid_value(error, "embedding cache key already contains a different payload"@)
                && final(self)@ == old(self)@),
            result is Ok <==> key@.1 == value@.0 && (old(self)@.contains_key(key@) ==> sha256_spec(
                embedding_payload_preimage(old(self)@[key@].1),
            ) == sha256_spec(embedding_payload_preimage(value@.1))),
            result is Ok ==> final(self)@ == old(self)@.insert(key@, value@),
    {
        if !(key.signature == value.signature) {
            return Err(invalid("embedding cache key and payload signatures differ"));
        }
        match self.find(&key) {
            Some(i) => {
                if !crate::ids::bytes_equal(
                    self.entries[i].1.payload_hash().as_slice(),
                    value.payload_hash().as_slice(),
                ) {
                    return Err(invalid("embedding cache key already contains a different payload"));
                }
                let ghost before = self.entries@;
                self.entries.set(i, (key, value));
                proof {
                    self.lemma_replace(before, i as int);
                }
                Ok(())
            },
            None => {
                let ghost before = self.entries@;
                self.entries.push((key, value));
                proof {
                    assert(self.entries@.drop_last() =~= before);
                    assert forall|a: int, b: int|
                        0 <= a < b < self.entries@.len() implies (#[trigger] self.entries@[a]).0@
                            != (#[trigger] self.entries@[b]).0@ by {
                        if b == self.entries@.len() - 1 {
                            assert(self.entries@[a] == before[a]);
                            assert(cache_map(before).contains_key(before[a].0@)) by {
                                lemma_cache_map_contains(before, a);
                            }
                        } else {
                            assert(self.entries@[a] == before[a]);
                            assert(self.entries@[b] == before[b]);
                        }
                    }
                }
                Ok(())
            },
        }
    }

    proof fn lemma_replace(&self, before: Seq<(EmbeddingCacheKey, EmbeddingVector)>, i: int)
        requires
            0 <= i < before.len(),
            self.entries@ == before.update(i, self.entries@[i]),
            self.entries@[i].0@ == before[i].0@,
            forall|a: int, b: int|
                0 <= a < b < before.len() ==> (#[trigger] before[a]).0@ != (#[trigger] before[b]).0@,
        ensures
            self.wf(),
            cache_map(self.entries@) == cache_map(before).insert(self.entries@[i].0@, self.entries@[i].1@),
    {
        assert forall|a: int, b: int|
            0 <= a < b < self.entries@.len() implies (#[trigger] self.entries@[a]).0@
                != (#[trigger] self.entries@[b]).0@ by {
            assert(before[a].0@ != before[b].0@);
        }
        lemma_cache_map_update(before, i, self.entries@[i]);
    }
}

proof fn lemma_cache_map_contains(entries: Seq<(EmbeddingCacheKey, EmbeddingVector)>, i: int)
    requires
        0 <= i < entries.len(),
    ensures
        cache_map(entries).contains_key(entries[i].0@),
    decreases entries.len(),
{
    if i < entries.len() - 1 {
        assert(entries.drop_last()[i] == entries[i]);
        lemma_cache_map_contains(entries.drop_last(), i);
    }
}

proof fn lemma_cache_map_update(
    entries: Seq<(EmbeddingCacheKey, EmbeddingVector)>,
    i: int,
    entry: (EmbeddingCacheKey, EmbeddingVector),
)
    requires
        0 <= i < entries.len(),
        entry.0@ == entries[i].0@,
        forall|a: int, b: int|
            0 <= a < b < entries.len() ==> (#[trigger] entries[a]).0@ != (#[trigger] entries[b]).0@,
    ensures
        cache_map(entries.update(i, entry)) == cache_map(entries).insert(entry.0@, entry.1@),
    decreases entries.len(),
{
    let updated = entries.update(i, entry);
    if i == entries.len() - 1 {
        assert(updated.drop_last() =~= entries.drop_last());
        assert(cache_map(updated) =~= cache_map(entries).insert(entry.0@, entry.1@));
    } else {
        assert(updated.drop_last() =~= entries.drop_last().update(i, entry));
        lemma_cache_map_update(entries.drop_last(), i, entry);
        assert(entries.last().0@ != entry.0@) by {
            assert(entries[i].0@ != entries[entries.len() - 1].0@);
        }
        assert(cache_map(updated) =~= cache_map(entries).insert(entry.0@, entry.1@));
    }
}

/// The signature of content embeddings from a provider model.
pub fn default_content_signature(provider: String, model: String, dimensions: usize) -> (result: Result<
    EmbeddingSignature,
    DerivedError,
>)
    ensures
        dimensions == 0 ==> result is Err,
        dimensions > 0 ==> (result matches Ok(signature) && signature@ == SignatureView {
            provider: provider@,
            model: model@,
            task: "content"@,
            dimensions,
            normalization: EmbeddingNormalization::L2,
            projection_version: 1,
        }),
{
    let version = ProjectionKind::LocalEmbedding.version();
    let schema_version = crate::projection::PROJECTION_SCHEMA_VERSION;
    let projection_version = if version >= schema_version {
        version
    } else {
        schema_version
    };
    EmbeddingSignature::new(
        provider,
        model,
        owned("content"),
        dimensions,
        EmbeddingNormalization::L2,
        projection_version,
    )
}

} // verus!
