use vstd::prelude::*;
use vstd::std_specs::convert::FromSpecImpl;
use vstd::utf8::encode_utf8;

use crate::dependency::{projection_input_hash_spec, ProjectionInputHash, ProjectionKind};
use crate::digest::{sha256, sha256_spec};
use crate::encode::{be_u32, extend_bytes, framed, push_be_u32, put_framed};
use crate::ids::{MemoryId, RevisionId, SpaceId};
use crate::projection::lexical::{lexical_node_bytes, lexical_text, lexical_text_spec, push_lexical_node_bytes, LexicalDocument};
use crate::projection::tags::TagProvenance;
use crate::seqs::{compare_bytes, lemma_lex_less_transitive, lemma_lex_order_equal, lemma_lex_order_flip, lemma_lex_order_range, lex_less, lex_order};
use crate::tag_dictionary::{last_value_with_id, normalize_tag_spec, tag_id_spec, TagDictionary, TagId};
use crate::text::{blank, is_blank};
use crate::{invalid, invalid_value, DerivedError};

verus! {

pub const ENRICHMENT_PROJECTION_VERSION: u32 = 1;

/// At most this many generated tags are kept per projection.
pub const DEFAULT_MAX_GENERATED_TAGS: usize = 8;

/// What an enrichment projection holds.
pub ghost struct EnrichmentView {
    pub input_hash: Seq<u8>,
    pub space_id: Seq<u8>,
    pub memory_id: Seq<u8>,
    pub revision_id: Seq<u8>,
    pub content: Seq<char>,
    pub producer_signature: Seq<char>,
}

/// The canonical bytes an enrichment projection is identified by: its
/// content, then kind, id and text of each node that is not a tag.
pub open spec fn enrichment_bytes(content: Seq<char>, ir: crate::ir::IrView) -> Seq<u8> {
    framed(encode_utf8(content)) + lexical_node_bytes(ir.nodes)
}

/// The provider-safe text of one revision that a tag generator reads.
#[derive(Clone, Debug)]
pub struct EnrichmentProjection {
    input_hash: ProjectionInputHash,
    space_id: SpaceId,
    memory_id: MemoryId,
    revision_id: RevisionId,
    content: String,
    producer_signature: String,
}

impl View for EnrichmentProjection {
    type V = EnrichmentView;

    closed spec fn view(&self) -> EnrichmentView {
        EnrichmentView {
            input_hash: self.input_hash@,
            space_id: self.space_id@,
            memory_id: self.memory_id@,
            revision_id: self.revision_id@,
            content: self.content@,
            producer_signature: self.producer_signature@,
        }
    }
}

impl EnrichmentProjection {
    /// The projection of a document: its visible text and node metadata,
    /// never its source; the producer must not be blank.
    pub fn from_document(document: &LexicalDocument, producer_signature: &str) -> (result: Result<
        Self,
        DerivedError,
    >)
        ensures
            is_blank(producer_signature@) ==> (result matches Err(error) && invalid_value(
                error,
                "enrichment producer signature must not be empty"@,
            )),
            !is_blank(producer_signature@) ==> (result matches Ok(projection) && {
                let ir = document.spec_ir()@;
                let content = lexical_text_spec(ir);
                projection@ == EnrichmentView {
                    input_hash: projection_input_hash_spec(
                        ProjectionKind::GeneratedTags,
                        enrichment_bytes(content, ir),
                        producer_signature@,
                    ),
                    space_id: document.spec_space_id()@,
                    memory_id: document.spec_memory_id()@,
                    revision_id: document.spec_revision_id()@,
                    content,
                    producer_signature: producer_signature@,
                }
            }),
    {
        if blank(producer_signature) {
            return Err(invalid("enrichment producer signature must not be empty"));
        }
        let content = lexical_text(document.ir());
        let mut bytes: Vec<u8> = Vec::new();
        put_framed(&mut bytes, content.as_str().as_bytes());
        push_lexical_node_bytes(&mut bytes, document.ir());
        let input_hash = ProjectionInputHash::new(
            ProjectionKind::GeneratedTags,
            bytes.as_slice(),
            producer_signature,
        );
        Ok(
            EnrichmentProjection {
                input_hash,
                space_id: document.space_id(),
                memory_id: document.memory_id(),
                revision_id: document.revision_id(),
                content,
                producer_signature: crate::text::owned(producer_signature),
            },
        )
    }

    pub fn version(&self) -> (version: u32)
        ensures
            version == ENRICHMENT_PROJECTION_VERSION,
    {
        ENRICHMENT_PROJECTION_VERSION
    }

    pub fn input_hash(&self) -> (hash: &ProjectionInputHash)
        ensures
            hash@ == self@.input_hash,
    {
        &self.input_hash
    }

    pub fn space_id(&self) -> (id: SpaceId)
        ensures
            id@ == self@.space_id,
    {
        self.space_id
    }

    pub fn memory_id(&self) -> (id: MemoryId)
        ensures
            id@ == self@.memory_id,
    {
        self.memory_id
    }

    pub fn revision_id(&self) -> (id: RevisionId)
        ensures
            id@ == self@.revision_id,
    {
        self.revision_id
    }

    /// Projections cover whole revisions, so they name no node.
    pub fn semantic_node_id(&self) -> (id: Option<&str>)
        ensures
            id is None,
    {
        None
    }

    pub fn content(&self) -> (content: &str)
        ensures
            content@ == self@.content,
    {
        self.content.as_str()
    }

    pub fn max_tags(&self) -> (max: usize)
        ensures
            max == DEFAULT_MAX_GENERATED_TAGS,
    {
        DEFAULT_MAX_GENERATED_TAGS
    }

    pub fn producer_signature(&self) -> (signature: &str)
        ensures
            signature@ == self@.producer_signature,
    {
        self.producer_signature.as_str()
    }

    pub fn target(&self) -> (target: crate::projection::ProjectionTarget)
        ensures
            target.space_id matches Some(id) && id@ == self@.space_id,
            target.memory_id matches Some(id) && id@ == self@.memory_id,
            target.revision_id matches Some(id) && id@ == self@.revision_id,
    {
        crate::projection::ProjectionTarget::of(self.space_id, self.memory_id, self.revision_id)
    }
}

/// A tag a generator proposes; score and confidence are `f32` bit patterns.
#[derive(Clone, Debug)]
pub struct GeneratedTagCandidate {
    pub value: String,
    pub score: Option<u32>,
    pub confidence: Option<u32>,
}

impl GeneratedTagCandidate {
    pub fn new(value: &str) -> (candidate: Self)
        ensures
            candidate.value@ == value@,
            candidate.score is None,
            candidate.confidence is None,
    {
        GeneratedTagCandidate { value: crate::text::owned(value), score: None, confidence: None }
    }

    pub fn with_score(self, score_bits: u32) -> (candidate: Self)
        ensures
            candidate.value == self.value,
            candidate.score == Some(score_bits),
            candidate.confidence == self.confidence,
    {
        GeneratedTagCandidate { score: Some(score_bits), ..self }
    }

    pub fn with_confidence(self, confidence_bits: u32) -> (candidate: Self)
        ensures
            candidate.value == self.value,
            candidate.score == self.score,
            candidate.confidence == Some(confidence_bits),
    {
        GeneratedTagCandidate { confidence: Some(confidence_bits), ..self }
    }
}

impl From<String> for GeneratedTagCandidate {
    fn from(value: String) -> (candidate: Self) {
        GeneratedTagCandidate { value, score: None, confidence: None }
    }
}

impl FromSpecImpl<String> for GeneratedTagCandidate {
    open spec fn obeys_from_spec() -> bool {
        true
    }

    open spec fn from_spec(value: String) -> GeneratedTagCandidate {
        GeneratedTagCandidate { value, score: None, confidence: None }
    }
}

/// A finite `f32` between 0 and 1 inclusive, by its bits: a non-negative
/// number up to 1.0, or negative zero.
pub open spec fn unit_interval_bits(bits: u32) -> bool {
    bits <= 0x3f80_0000 || bits == 0x8000_0000
}

/// An absent metric, or one in the unit interval.
pub open spec fn metric_ok(metric: Option<u32>) -> bool {
    match metric {
        Some(bits) => unit_interval_bits(bits),
        None => true,
    }
}

fn check_metric(metric: Option<u32>) -> (ok: bool)
    ensures
        ok == metric_ok(metric),
{
    match metric {
        Some(bits) => bits <= 0x3f80_0000u32 || bits == 0x8000_0000u32,
        None => true,
    }
}

/// One generated tag of one revision.
#[derive(Clone, Debug)]
pub struct GeneratedTagRecord {
    pub tag_id: TagId,
    pub value: String,
    pub space_id: SpaceId,
    pub memory_id: MemoryId,
    pub revision_id: RevisionId,
    pub semantic_node_id: Option<String>,
    pub producer_signature: String,
    pub projection_input_hash: ProjectionInputHash,
    pub score: Option<u32>,
    pub confidence: Option<u32>,
    pub provenance: TagProvenance,
}

/// What a generated tag record holds.
pub ghost struct RecordView {
    pub tag_id: Seq<u8>,
    pub value: Seq<char>,
    pub space_id: Seq<u8>,
    pub memory_id: Seq<u8>,
    pub revision_id: Seq<u8>,
    pub semantic_node_id: Option<Seq<char>>,
    pub producer_signature: Seq<char>,
    pub projection_input_hash: Seq<u8>,
    pub score: Option<u32>,
    pub confidence: Option<u32>,
    pub provenance: TagProvenance,
}

impl View for GeneratedTagRecord {
    type V = RecordView;

    closed spec fn view(&self) -> RecordView {
        RecordView {
            tag_id: self.tag_id@,
            value: self.value@,
            space_id: self.space_id@,
            memory_id: self.memory_id@,
            revision_id: self.revision_id@,
            semantic_node_id: match self.semantic_node_id {
                Some(id) => Some(id@),
                None => None,
            },
            producer_signature: self.producer_signature@,
            projection_input_hash: self.projection_input_hash@,
            score: self.score,
            confidence: self.confidence,
            provenance: self.provenance,
        }
    }
}

pub open spec fn record_views(records: Seq<GeneratedTagRecord>) -> Seq<RecordView> {
    records.map_values(|record: GeneratedTagRecord| record@)
}

/// The record of a tag generated from `projection` with this value and
/// metrics.
pub open spec fn generated_record(
    projection: EnrichmentView,
    tag_id: Seq<u8>,
    value: Seq<char>,
    score: Option<u32>,
    confidence: Option<u32>,
) -> RecordView {
    RecordView {
        tag_id,
        value,
        space_id: projection.space_id,
        memory_id: projection.memory_id,
        revision_id: projection.revision_id,
        semantic_node_id: None,
        producer_signature: projection.producer_signature,
        projection_input_hash: projection.input_hash,
        score,
        confidence,
        provenance: TagProvenance::Generated,
    }
}

/// Records in strictly increasing order of their tag ids.
pub open spec fn tags_sorted(records: Seq<RecordView>) -> bool {
    forall|i: int, j: int|
        0 <= i < j < records.len() ==> lex_less(
            (#[trigger] records[i]).tag_id,
            (#[trigger] records[j]).tag_id,
        )
}

/// `records` are the values of `by_tag` in increasing tag order.
pub open spec fn records_in_order(records: Seq<RecordView>, by_tag: Map<Seq<u8>, RecordView>) -> bool {
    &&& tags_sorted(records)
    &&& forall|i: int|
        0 <= i < records.len() ==> by_tag.dom().contains((#[trigger] records[i]).tag_id)
            && by_tag[records[i].tag_id] == records[i]
    &&& forall|id: Seq<u8>|
        #[trigger] by_tag.dom().contains(id) ==> exists|i: int|
            0 <= i < records.len() && (#[trigger] records[i]).tag_id == id
}

/// The state of generating tags: the dictionary and the records by tag,
/// or the refusal and the dictionary as it stood then.
pub open spec fn generation_state(
    dictionary: Seq<Seq<char>>,
    projection: EnrichmentView,
    candidates: Seq<GeneratedTagCandidate>,
) -> Result<(Seq<Seq<char>>, Map<Seq<u8>, RecordView>), (Seq<char>, Seq<Seq<char>>)>
    decreases candidates.len(),
{
    if candidates.len() == 0 {
        Ok((dictionary, Map::empty()))
    } else {
        match generation_state(dictionary, projection, candidates.drop_last()) {
            Err(refusal) => Err(refusal),
            Ok((interned, by_tag)) => {
                let candidate = candidates.last();
                let normalized = normalize_tag_spec(candidate.value@);
                if !metric_ok(candidate.score) {
                    Err(("generated Tag score must be finite and between 0 and 1"@, interned))
                } else if !metric_ok(candidate.confidence) {
                    Err(("generated Tag confidence must be finite and between 0 and 1"@, interned))
                } else if normalized.len() == 0 {
                    Err(("Tag value must not be empty"@, interned))
                } else {
                    let after = if interned.contains(normalized) {
                        interned
                    } else {
                        interned.push(normalized)
                    };
                    let id = tag_id_spec(normalized);
                    match last_value_with_id(after, id) {
                        None => Err(("Tag dictionary lost the generated identity"@, after)),
                        Some(value) => Ok(
                            (
                                after,
                                if by_tag.dom().contains(id) {
                                    by_tag
                                } else {
                                    by_tag.insert(
                                        id,
                                        generated_record(
                                            projection,
                                            id,
                                            value,
                                            candidate.score,
                                            candidate.confidence,
                                        ),
                                    )
                                },
                            ),
                        ),
                    }
                }
            },
        }
    }
}

/// The optional metric as hashed: a presence byte, then the bits.
pub open spec fn metric_bytes(metric: Option<u32>) -> Seq<u8> {
    match metric {
        Some(bits) => seq![1u8] + be_u32(bits),
        None => seq![0u8],
    }
}

/// The hashed form of one record.
pub open spec fn record_bytes(record: RecordView) -> Seq<u8> {
    record.tag_id + framed(encode_utf8(record.value)) + record.space_id + record.memory_id
        + record.revision_id + framed(encode_utf8(record.producer_signature)) + metric_bytes(
        record.score,
    ) + metric_bytes(record.confidence) + seq![1u8]
}

pub open spec fn records_bytes(records: Seq<RecordView>) -> Seq<u8>
    decreases records.len(),
{
    if records.len() == 0 {
        seq![]
    } else {
        records_bytes(records.drop_last()) + record_bytes(records.last())
    }
}

/// The bytes an artifact fingerprint digests.
pub open spec fn fingerprint_preimage(input_hash: Seq<u8>, records: Seq<RecordView>) -> Seq<u8> {
    encode_utf8("memoria-generated-tags-v1\0"@) + input_hash + records_bytes(records)
}

/// The generated tags of one projection, one record per tag, by tag id.
#[derive(Clone, Debug)]
pub struct GeneratedTagArtifact {
    projection_input_hash: ProjectionInputHash,
    records: Vec<GeneratedTagRecord>,
    fingerprint: [u8; 32],
}

/// What an artifact holds.
pub ghost struct GeneratedView {
    pub projection_input_hash: Seq<u8>,
    pub records: Seq<RecordView>,
    pub fingerprint: Seq<u8>,
}

impl View for GeneratedTagArtifact {
    type V = GeneratedView;

    closed spec fn view(&self) -> GeneratedView {
        GeneratedView {
            projection_input_hash: self.projection_input_hash@,
            records: record_views(self.records@),
            fingerprint: self.fingerprint@,
        }
    }
}

pub open spec fn has_tag(records: Seq<RecordView>, id: Seq<u8>) -> bool {
    exists|i: int| 0 <= i < records.len() && (#[trigger] records[i]).tag_id == id
}

fn insert_record(records: &mut Vec<GeneratedTagRecord>, record: GeneratedTagRecord) -> (inserted: bool)
    requires
        tags_sorted(record_views(old(records)@)),
    ensures
        tags_sorted(record_views(final(records)@)),
        inserted == !has_tag(record_views(old(records)@), record@.tag_id),
        !inserted ==> final(records)@ == old(records)@,
        inserted ==> record_views(final(records)@).contains(record@),
        inserted ==> forall|x: RecordView|
            #[trigger] record_views(final(records)@).contains(x) <==> (record_views(
                old(records)@,
            ).contains(x) || x == record@),
{
    let ghost before = record_views(records@);
    let ghost key = record@.tag_id;
    let mut position: usize = 0;
    let mut order: i8 = -1;
    while position < records.len()
        invariant
            before == record_views(records@),
            tags_sorted(before),
            key == record@.tag_id,
            position <= records@.len(),
            forall|i: int| 0 <= i < position ==> lex_less((#[trigger] before[i]).tag_id, key),
        ensures
            position < records@.len() ==> order == lex_order(before[position as int].tag_id, key)
                && order != -1,
        decreases records@.len() - position,
    {
        let current = compare_bytes(records[position].tag_id.as_bytes().as_slice(), record.tag_id.as_bytes().as_slice());
        assert(before[position as int] == records@[position as int]@);
        if current != -1 {
            order = current;
            break;
        }
        position = position + 1;
    }
    proof {
        if position < records.len() {
            lemma_lex_order_range(before[position as int].tag_id, key);
        }
    }
    if position < records.len() && order == 0 {
        proof {
            lemma_lex_order_equal(before[position as int].tag_id, key);
        }
        return false;
    }
    proof {
        if position < records.len() {
            lemma_lex_order_flip(before[position as int].tag_id, key);
        }
        assert(!has_tag(before, key)) by {
            if has_tag(before, key) {
                let i = choose|i: int| 0 <= i < before.len() && (#[trigger] before[i]).tag_id == key;
                if i < position {
                    lemma_lex_order_equal(before[i].tag_id, key);
                } else {
                    if i > position {
                        assert(lex_less(before[position as int].tag_id, before[i].tag_id));
                        lemma_lex_less_transitive(key, before[position as int].tag_id, before[i].tag_id);
                    }
                    lemma_lex_order_equal(key, before[i].tag_id);
                }
            }
        }
    }
    records.insert(position, record);
    let ghost after = record_views(records@);
    assert(after =~= before.insert(position as int, record@));
    assert(after[position as int] == record@);
    assert forall|i: int, j: int| 0 <= i < j < after.len() implies lex_less(
        (#[trigger] after[i]).tag_id,
        (#[trigger] after[j]).tag_id,
    ) by {
        if j == position {
            assert(after[i] == before[i]);
        } else if i == position {
            assert(after[j] == before[j - 1]);
            if j - 1 > position {
                lemma_lex_less_transitive(key, before[position as int].tag_id, before[j - 1].tag_id);
            }
        } else if j < position {
            assert(after[i] == before[i] && after[j] == before[j]);
        } else if i < position {
            assert(after[i] == before[i] && after[j] == before[j - 1]);
        } else {
            assert(after[i] == before[i - 1] && after[j] == before[j - 1]);
        }
    }
    assert forall|x: RecordView| #[trigger] after.contains(x) <==> (before.contains(x) || x
        == record@) by {
        if after.contains(x) {
            let i = choose|i: int| 0 <= i < after.len() && after[i] == x;
            if i < position {
                assert(before[i] == x);
            } else if i > position {
                assert(before[i - 1] == x);
            }
        }
        if before.contains(x) {
            let i = choose|i: int| 0 <= i < before.len() && before[i] == x;
            if i < position {
                assert(after[i] == x);
            } else {
                assert(after[i + 1] == x);
            }
        }
    }
    true
}

proof fn lemma_generation_error_persists(
    dictionary: Seq<Seq<char>>,
    projection: EnrichmentView,
    candidates: Seq<GeneratedTagCandidate>,
    n: int,
)
    requires
        0 <= n <= candidates.len(),
        generation_state(dictionary, projection, candidates.take(n)) is Err,
    ensures
        generation_state(dictionary, projection, candidates) == generation_state(
            dictionary,
            projection,
            candidates.take(n),
        ),
    decreases candidates.len() - n,
{
    if n < candidates.len() {
        assert(candidates.take(n + 1).drop_last() =~= candidates.take(n));
        lemma_generation_error_persists(dictionary, projection, candidates, n + 1);
    } else {
        assert(candidates.take(n) =~= candidates);
    }
}

fn push_metric(bytes: &mut Vec<u8>, metric: Option<u32>)
    ensures
        final(bytes)@ == old(bytes)@ + metric_bytes(metric),
{
    match metric {
        Some(bits) => {
            bytes.push(1u8);
            push_be_u32(bytes, bits);
            assert(bytes@ =~= old(bytes)@ + metric_bytes(metric));
        },
        None => {
            bytes.push(0u8);
            assert(bytes@ =~= old(bytes)@ + metric_bytes(metric));
        },
    }
}

/// The fingerprint of an artifact's records under its projection hash.
fn fingerprint(input_hash: &ProjectionInputHash, records: &[GeneratedTagRecord]) -> (digest: [u8; 32])
    ensures
        digest@ == sha256_spec(fingerprint_preimage(input_hash@, record_views(records@))),
{
    let mut bytes: Vec<u8> = Vec::new();
    let domain: &str = "memoria-generated-tags-v1\0";
    extend_bytes(&mut bytes, domain.as_bytes());
    extend_bytes(&mut bytes, input_hash.as_bytes().as_slice());
    let ghost head = bytes@;
    let ghost views = record_views(records@);
    let mut i: usize = 0;
    assert(views.take(0) =~= Seq::<RecordView>::empty());
    while i < records.len()
        invariant
            views == record_views(records@),
            i <= records@.len(),
            bytes@ == head + records_bytes(views.take(i as int)),
        decreases records@.len() - i,
    {
        let record = &records[i];
        assert(views[i as int] == record@);
        assert(views.take(i + 1).drop_last() =~= views.take(i as int));
        assert(views.take(i + 1).last() == record@);
        let ghost before = bytes@;
        extend_bytes(&mut bytes, record.tag_id.as_bytes().as_slice());
        put_framed(&mut bytes, record.value.as_str().as_bytes());
        extend_bytes(&mut bytes, record.space_id.as_bytes().as_slice());
        extend_bytes(&mut bytes, record.memory_id.as_bytes().as_slice());
        extend_bytes(&mut bytes, record.revision_id.as_bytes().as_slice());
        put_framed(&mut bytes, record.producer_signature.as_str().as_bytes());
        push_metric(&mut bytes, record.score);
        push_metric(&mut bytes, record.confidence);
        bytes.push(1u8);
        assert(bytes@ =~= before + record_bytes(record@));
        i = i + 1;
    }
    assert(views.take(records@.len() as int) =~= views);
    assert(bytes@ =~= fingerprint_preimage(input_hash@, views));
    sha256(bytes.as_slice())
}

impl GeneratedTagArtifact {
    /// The artifact of the candidates a generator proposed for `projection`:
    /// at most eight candidates; each metric finite and within 0..=1; each
    /// value interned in `dictionary`; one record per tag, the first
    /// candidate's, ordered by tag id.
    pub fn from_candidates(
        projection: EnrichmentProjection,
        dictionary: &mut TagDictionary,
        candidates: Vec<GeneratedTagCandidate>,
    ) -> (result: Result<Self, DerivedError>)
        requires
            old(dictionary).wf(),
        ensures
            final(dictionary).wf(),
            candidates@.len() > DEFAULT_MAX_GENERATED_TAGS ==> (result matches Err(error)
                && invalid_value(error, "generated Tag candidate count exceeds the limit of 8"@))
                && final(dictionary)@ == old(dictionary)@,
            candidates@.len() <= DEFAULT_MAX_GENERATED_TAGS ==> match generation_state(
                old(dictionary)@,
                projection@,
                candidates@,
            ) {
                Err((message, interned)) => (result matches Err(error) && invalid_value(
                    error,
                    message,
                )) && final(dictionary)@ == interned,
                Ok((interned, by_tag)) => final(dictionary)@ == interned && (result matches Ok(
                    artifact,
                ) && artifact@.projection_input_hash == projection@.input_hash && records_in_order(
                    artifact@.records,
                    by_tag,
                ) && artifact@.fingerprint == sha256_spec(
                    fingerprint_preimage(projection@.input_hash, artifact@.records),
                )),
            },
    {
        if candidates.len() > DEFAULT_MAX_GENERATED_TAGS {
            return Err(invalid("generated Tag candidate count exceeds the limit of 8"));
        }
        let ghost start = dictionary@;
        let ghost mut by_tag: Map<Seq<u8>, RecordView> = Map::empty();
        let mut records: Vec<GeneratedTagRecord> = Vec::new();
        let mut k: usize = 0;
        assert(candidates@.take(0) =~= Seq::<GeneratedTagCandidate>::empty());
        assert(record_views(records@) =~= Seq::<RecordView>::empty());
        while k < candidates.len()
            invariant
                k <= candidates@.len(),
                candidates@.len() <= DEFAULT_MAX_GENERATED_TAGS,
                start == old(dictionary)@,
                dictionary.wf(),
                generation_state(start, projection@, candidates@.take(k as int)) == Ok::<
                    (Seq<Seq<char>>, Map<Seq<u8>, RecordView>),
                    (Seq<char>, Seq<Seq<char>>),
                >((dictionary@, by_tag)),
                records_in_order(record_views(records@), by_tag),
            decreases candidates@.len() - k,
        {
            let candidate = &candidates[k];
            proof {
                assert(candidates@.take(k + 1).drop_last() =~= candidates@.take(k as int));
                assert(candidates@.take(k + 1).last() == *candidate);
            }
            if !check_metric(candidate.score) {
                proof {
                    lemma_generation_error_persists(start, projection@, candidates@, k + 1);
                }
                return Err(invalid("generated Tag score must be finite and between 0 and 1"));
            }
            if !check_metric(candidate.confidence) {
                proof {
                    lemma_generation_error_persists(start, projection@, candidates@, k + 1);
                }
                return Err(invalid("generated Tag confidence must be finite and between 0 and 1"));
            }
            let tag_id = match dictionary.intern(candidate.value.as_str()) {
                Ok(tag_id) => tag_id,
                Err(error) => {
                    proof {
                        lemma_generation_error_persists(start, projection@, candidates@, k + 1);
                    }
                    return Err(error);
                },
            };
            let value = match dictionary.value(tag_id) {
                Some(value) => crate::text::owned(value),
                None => {
                    proof {
                        lemma_generation_error_persists(start, projection@, candidates@, k + 1);
                    }
                    return Err(invalid("Tag dictionary lost the generated identity"));
                },
            };
            let record = GeneratedTagRecord {
                tag_id,
                value,
                space_id: projection.space_id,
                memory_id: projection.memory_id,
                revision_id: projection.revision_id,
                semantic_node_id: None,
                producer_signature: crate::text::owned(projection.producer_signature.as_str()),
                projection_input_hash: projection.input_hash,
                score: candidate.score,
                confidence: candidate.confidence,
                provenance: TagProvenance::Generated,
            };
            let ghost old_records = record_views(records@);
            let ghost id = tag_id@;
            assert(has_tag(old_records, id) == by_tag.dom().contains(id)) by {
                if by_tag.dom().contains(id) {
                    let i = choose|i: int| 0 <= i < old_records.len() && (#[trigger] old_records[i]).tag_id == id;
                }
            }
            let inserted = insert_record(&mut records, record);
            proof {
                if inserted {
                    let new_map = by_tag.insert(id, record@);
                    let now = record_views(records@);
                    assert forall|i: int| 0 <= i < now.len() implies new_map.dom().contains(
                        (#[trigger] now[i]).tag_id,
                    ) && new_map[now[i].tag_id] == now[i] by {
                        assert(now.contains(now[i]));
                        if now[i] != record@ {
                            let j = choose|j: int| 0 <= j < old_records.len() && old_records[j] == now[i];
                            assert(by_tag.dom().contains(old_records[j].tag_id));
                            assert(old_records[j].tag_id != id);
                        }
                    }
                    assert forall|key: Seq<u8>| #[trigger] new_map.dom().contains(key) implies exists|i: int|
                        0 <= i < now.len() && (#[trigger] now[i]).tag_id == key by {
                        if key == id {
                            assert(now.contains(record@));
                            let i = choose|i: int| 0 <= i < now.len() && now[i] == record@;
                            assert(now[i].tag_id == key);
                        } else {
                            let j = choose|j: int| 0 <= j < old_records.len() && (#[trigger] old_records[j]).tag_id == key;
                            assert(old_records.contains(old_records[j]));
                            assert(now.contains(old_records[j]));
                            let i = choose|i: int| 0 <= i < now.len() && now[i] == old_records[j];
                            assert(now[i].tag_id == key);
                        }
                    }
                    by_tag = new_map;
                }
            }
            k = k + 1;
        }
        assert(candidates@.take(candidates@.len() as int) =~= candidates@);
        let fingerprint = fingerprint(&projection.input_hash, records.as_slice());
        Ok(GeneratedTagArtifact { projection_input_hash: projection.input_hash, records, fingerprint })
    }

    pub fn projection_input_hash(&self) -> (hash: &ProjectionInputHash)
        ensures
            hash@ == self@.projection_input_hash,
    {
        &self.projection_input_hash
    }

    pub fn records(&self) -> (records: &[GeneratedTagRecord])
        ensures
            record_views(records@) == self@.records,
    {
        self.records.as_slice()
    }

    pub fn fingerprint(&self) -> (fingerprint: &[u8; 32])
        ensures
            fingerprint@ == self@.fingerprint,
    {
        &self.fingerprint
    }
}

} // verus!
