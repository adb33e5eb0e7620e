use vstd::prelude::*;
use vstd::utf8::encode_utf8;

use crate::artifact::ArtifactId;
use crate::dependency::ProjectionInputHash;
use crate::embedding::EmbeddingNormalization;
use crate::encode::{extend_bytes, le_u32, lemma_le_roundtrips, push_le_u32};
use crate::ids::{AuthorityGeneration, MemoryId, RevisionId, SpaceId};
use crate::projection::tags::TagProvenance;
use crate::tag_dictionary::TagId;
use crate::text::str_eq;
use crate::vector::{read_bytes, read_u32, VectorPayloadHash};
use crate::DerivedError;

verus! {

/// A registered vector payload.
#[derive(Clone, Debug)]
pub struct VectorPayloadRecord {
    pub payload_hash: VectorPayloadHash,
    pub dimension: u32,
    pub normalization: EmbeddingNormalization,
    pub producer_signature: String,
    pub projection_input_hash: ProjectionInputHash,
    pub object_path: String,
    pub byte_length: u64,
    pub checksum: [u8; 32],
    pub created_at: i64,
}

/// Where a vector payload is attached within a semantic artifact.
#[derive(Clone, Debug)]
pub struct VectorMembershipRecord {
    pub membership_id: i64,
    pub artifact_id: ArtifactId,
    pub space_id: SpaceId,
    pub memory_id: MemoryId,
    pub revision_id: RevisionId,
    pub derived_unit_id: String,
    pub semantic_node_id: Option<String>,
    pub resolution: String,
    pub payload_hash: VectorPayloadHash,
    pub live_from_artifact_generation: AuthorityGeneration,
    pub live_to_artifact_generation: Option<AuthorityGeneration>,
}

/// A registered ANN segment.
#[derive(Clone, Debug)]
pub struct AnnSegmentRecord {
    pub segment_id: i64,
    pub artifact_id: ArtifactId,
    pub object_hash: [u8; 32],
    pub vector_count: u64,
    pub dimension: u32,
    pub producer_signature: String,
    pub created_at: i64,
}

/// A registered lexical artifact object.
#[derive(Clone, Debug)]
pub struct LexicalArtifactRecord {
    pub artifact_id: ArtifactId,
    pub object_hash: [u8; 32],
    pub object_path: String,
    pub document_count: u64,
}

/// A stored tag membership; score and confidence are `f32` bit patterns.
#[derive(Clone, Debug)]
pub struct TagMembershipRecord {
    pub membership_id: i64,
    pub space_id: SpaceId,
    pub memory_id: MemoryId,
    pub revision_id: RevisionId,
    pub tag_id: TagId,
    pub normalized_value: String,
    pub node_id: Option<String>,
    pub provenance: TagProvenance,
    pub producer_signature: Option<String>,
    pub projection_input_hash: Option<ProjectionInputHash>,
    pub score: Option<u32>,
    pub confidence: Option<u32>,
}

impl VectorPayloadRecord {
    /// Two registrations of a payload agree: every field but the time of
    /// creation is equal.
    pub fn same_registration(&self, other: &Self) -> (same: bool)
        ensures
            same == (self.payload_hash@ == other.payload_hash@ && self.dimension == other.dimension
                && self.normalization == other.normalization && self.producer_signature@
                == other.producer_signature@ && self.projection_input_hash@
                == other.projection_input_hash@ && self.object_path@ == other.object_path@
                && self.byte_length == other.byte_length && self.checksum@ == other.checksum@),
    {
        self.payload_hash == other.payload_hash && self.dimension == other.dimension
            && self.normalization == other.normalization && str_eq(
            self.producer_signature.as_str(),
            other.producer_signature.as_str(),
        ) && self.projection_input_hash == other.projection_input_hash && str_eq(
            self.object_path.as_str(),
            other.object_path.as_str(),
        ) && self.byte_length == other.byte_length && crate::ids::bytes_equal(
            self.checksum.as_slice(),
            other.checksum.as_slice(),
        )
    }
}

impl LexicalArtifactRecord {
    /// The record holds exactly this object.
    pub fn same_registration(&self, object_hash: &[u8; 32], object_path: &str, document_count: u64) -> (same:
        bool)
        ensures
            same == (self.object_hash@ == object_hash@ && self.object_path@ == object_path@
                && self.document_count == document_count),
    {
        crate::ids::bytes_equal(self.object_hash.as_slice(), object_hash.as_slice()) && str_eq(
            self.object_path.as_str(),
            object_path,
        ) && self.document_count == document_count
    }
}

/// The stored integer of a normalization.
pub open spec fn normalization_code(normalization: EmbeddingNormalization) -> i64 {
    match normalization {
        EmbeddingNormalization::Unnormalized => 0,
        EmbeddingNormalization::L2 => 1,
    }
}

pub fn normalization_to_sql(normalization: EmbeddingNormalization) -> (code: i64)
    ensures
        code == normalization_code(normalization),
{
    match normalization {
        EmbeddingNormalization::Unnormalized => 0,
        EmbeddingNormalization::L2 => 1,
    }
}

/// The normalization stored as `code`, if any.
pub fn normalization_from_sql(code: i64) -> (normalization: Option<EmbeddingNormalization>)
    ensures
        normalization matches Some(n) ==> normalization_code(n) == code,
        normalization is None ==> code != 0 && code != 1,
{
    if code == 0 {
        Some(EmbeddingNormalization::Unnormalized)
    } else if code == 1 {
        Some(EmbeddingNormalization::L2)
    } else {
        None
    }
}

/// The stored name of a provenance.
pub open spec fn provenance_name(provenance: TagProvenance) -> Seq<char> {
    match provenance {
        TagProvenance::Explicit => "explicit"@,
        TagProvenance::Generated => "generated"@,
    }
}

pub fn provenance_to_sql(provenance: TagProvenance) -> (name: &'static str)
    ensures
        name@ == provenance_name(provenance),
{
    match provenance {
        TagProvenance::Explicit => "explicit",
        TagProvenance::Generated => "generated",
    }
}

/// The provenance stored as `name`, if any.
pub fn provenance_from_sql(name: &str) -> (provenance: Option<TagProvenance>)
    ensures
        provenance matches Some(p) ==> provenance_name(p) == name@,
        provenance is None ==> name@ != "explicit"@ && name@ != "generated"@,
{
    if str_eq(name, "explicit") {
        Some(TagProvenance::Explicit)
    } else if str_eq(name, "generated") {
        Some(TagProvenance::Generated)
    } else {
        None
    }
}

/// Storing a normalization or a provenance and reading it back gives it
/// back.
pub proof fn law_stored_codes_read_back(normalization: EmbeddingNormalization, provenance: TagProvenance)
    ensures
        normalization_code(normalization) == 0 || normalization_code(normalization) == 1,
        provenance_name(provenance) == "explicit"@ || provenance_name(provenance) == "generated"@,
        forall|other: EmbeddingNormalization|
            normalization_code(other) == normalization_code(normalization) ==> other
                == normalization,
        forall|other: TagProvenance|
            provenance_name(other) == provenance_name(provenance) ==> other == provenance,
{
    reveal_strlit("explicit");
    reveal_strlit("generated");
    assert forall|other: TagProvenance|
        provenance_name(other) == provenance_name(provenance) implies other == provenance by {
        if other != provenance {
            assert(provenance_name(other).len() != provenance_name(provenance).len());
        }
    }
}

/// A stored generation, if the integer is not negative.
pub fn generation_from_sql(value: i64) -> (generation: Option<AuthorityGeneration>)
    ensures
        value >= 0 ==> generation == Some(AuthorityGeneration(value as u64)),
        value < 0 ==> generation is None,
{
    if value >= 0 {
        Some(AuthorityGeneration::new(value as u64))
    } else {
        None
    }
}

/// The UTF-8 bytes of strings, each behind its `u32` length.
pub open spec fn strings_body(values: Seq<Seq<char>>) -> Seq<u8>
    decreases values.len(),
{
    if values.len() == 0 {
        seq![]
    } else {
        strings_body(values.drop_last()) + le_u32(encode_utf8(values.last()).len() as u32)
            + encode_utf8(values.last())
    }
}

/// The stored form of a list of strings: the count, then each string.
pub open spec fn strings_bytes(values: Seq<Seq<char>>) -> Seq<u8> {
    le_u32(values.len() as u32) + strings_body(values)
}

/// Every string's UTF-8 length fits a `u32`.
pub open spec fn lengths_fit(values: Seq<Seq<char>>) -> bool {
    forall|i: int| 0 <= i < values.len() ==> encode_utf8(#[trigger] values[i]).len() <= u32::MAX
}

pub open spec fn string_views(values: Seq<String>) -> Seq<Seq<char>> {
    values.map_values(|value: String| value@)
}

/// Encodes strings for storage; a count or a length beyond `u32` is refused.
pub fn encode_strings(values: &[String]) -> (result: Result<Vec<u8>, DerivedError>)
    ensures
        values@.len() <= u32::MAX && lengths_fit(string_views(values@)) ==> (result matches Ok(
            bytes,
        ) && bytes@ == strings_bytes(string_views(values@))),
        !(values@.len() <= u32::MAX && lengths_fit(string_views(values@))) ==> (result matches Err(
            DerivedError::IntegerConversion,
        )),
{
    if values.len() > 4294967295usize {
        return Err(DerivedError::IntegerConversion);
    }
    let ghost views = string_views(values@);
    let mut bytes: Vec<u8> = Vec::new();
    push_le_u32(&mut bytes, values.len() as u32);
    let ghost head = bytes@;
    let mut i: usize = 0;
    assert(views.take(0) =~= Seq::<Seq<char>>::empty());
    while i < values.len()
        invariant
            views == string_views(values@),
            values@.len() <= u32::MAX,
            head == le_u32(values@.len() as u32),
            i <= values@.len(),
            lengths_fit(views.take(i as int)),
            bytes@ == head + strings_body(views.take(i as int)),
        decreases values@.len() - i,
    {
        let value = values[i].as_str().as_bytes();
        assert(views[i as int] == values@[i as int]@);
        assert(views.take(i + 1).drop_last() =~= views.take(i as int));
        assert(views.take(i + 1).last() == values@[i as int]@);
        if value.len() > 4294967295usize {
            assert(!lengths_fit(views)) by {
                assert(encode_utf8(views[i as int]).len() > u32::MAX);
            }
            return Err(DerivedError::IntegerConversion);
        }
        push_le_u32(&mut bytes, value.len() as u32);
        extend_bytes(&mut bytes, value);
        assert(bytes@ =~= head + strings_body(views.take(i + 1)));
        assert forall|k: int| 0 <= k < i + 1 implies encode_utf8(#[trigger] views.take(i + 1)[k]).len()
            <= u32::MAX by {
            if k < i {
                assert(views.take(i + 1)[k] == views.take(i as int)[k]);
            }
        }
        i = i + 1;
    }
    assert(views.take(values@.len() as int) =~= views);
    Ok(bytes)
}

/// Reads `count` stored strings at `cursor`.
pub open spec fn read_strings_at(bytes: Seq<u8>, cursor: int, count: nat) -> Option<(Seq<Seq<char>>, int)>
    decreases count,
{
    if count == 0 {
        Some((seq![], cursor))
    } else {
        match read_strings_at(bytes, cursor, (count - 1) as nat) {
            None => None,
            Some((values, next)) => if next + 4 > bytes.len() {
                None
            } else {
                let length = crate::encode::from_le_u32(bytes.subrange(next, next + 4));
                let start = next + 4;
                if start + length > bytes.len() || !vstd::utf8::valid_utf8(
                    bytes.subrange(start, start + length),
                ) {
                    None
                } else {
                    Some(
                        (
                            values.push(vstd::utf8::decode_utf8(bytes.subrange(start, start + length))),
                            start + length,
                        ),
                    )
                }
            },
        }
    }
}

/// The strings a stored value holds, if it is well formed.
pub open spec fn decoded_strings(bytes: Seq<u8>) -> Option<Seq<Seq<char>>> {
    if bytes.len() < 4 {
        None
    } else {
        match read_strings_at(bytes, 4, crate::encode::from_le_u32(bytes.subrange(0, 4)) as nat) {
            Some((values, end)) => if end == bytes.len() {
                Some(values)
            } else {
                None
            },
            None => None,
        }
    }
}

proof fn lemma_read_strings_none_persists(bytes: Seq<u8>, cursor: int, n: nat, count: nat)
    requires
        n <= count,
        read_strings_at(bytes, cursor, n) is None,
    ensures
        read_strings_at(bytes, cursor, count) is None,
    decreases count - n,
{
    if n < count {
        lemma_read_strings_none_persists(bytes, cursor, n + 1, count);
    }
}

/// Reads stored strings; anything but a well-formed value is refused.
pub fn decode_strings(bytes: &[u8]) -> (values: Option<Vec<String>>)
    ensures
        values matches Some(v) ==> decoded_strings(bytes@) == Some(string_views(v@)),
        values is None ==> decoded_strings(bytes@) is None,
{
    let mut cursor: usize = 0;
    let count = match read_u32(bytes, &mut cursor) {
        Ok(count) => count,
        Err(_) => {
            return None;
        },
    };
    let mut values: Vec<String> = Vec::new();
    let mut i: u32 = 0;
    assert(string_views(values@) =~= Seq::<Seq<char>>::empty());
    while i < count
        invariant
            bytes@.len() >= 4,
            count == crate::encode::from_le_u32(bytes@.subrange(0, 4)),
            cursor <= bytes@.len(),
            i <= count,
            read_strings_at(bytes@, 4, i as nat) == Some((string_views(values@), cursor as int)),
        decreases count - i,
    {
        let length = match read_u32(bytes, &mut cursor) {
            Ok(length) => length,
            Err(_) => {
                proof {
                    lemma_read_strings_none_persists(bytes@, 4, (i + 1) as nat, count as nat);
                }
                return None;
            },
        };
        let start = cursor;
        if length as usize > bytes.len() - start {
            proof {
                lemma_read_strings_none_persists(bytes@, 4, (i + 1) as nat, count as nat);
            }
            return None;
        }
        let raw = match read_bytes(bytes, &mut cursor, length as usize) {
            Ok(raw) => raw,
            Err(_) => {
                return None;
            },
        };
        let value = match crate::text::string_from_utf8(raw) {
            Some(value) => value,
            None => {
                proof {
                    lemma_read_strings_none_persists(bytes@, 4, (i + 1) as nat, count as nat);
                }
                return None;
            },
        };
        proof {
            vstd::utf8::encode_utf8_decode_utf8(value@);
        }
        let ghost before = string_views(values@);
        values.push(value);
        assert(string_views(values@) =~= before.push(value@));
        i = i + 1;
    }
    if cursor != bytes.len() {
        return None;
    }
    Some(values)
}

proof fn lemma_read_strings_back(bytes: Seq<u8>, cursor: int, values: Seq<Seq<char>>)
    requires
        0 <= cursor,
        lengths_fit(values),
        cursor + strings_body(values).len() <= bytes.len(),
        bytes.subrange(cursor, cursor + strings_body(values).len()) == strings_body(values),
    ensures
        read_strings_at(bytes, cursor, values.len()) == Some((values, cursor + strings_body(values).len())),
    decreases values.len(),
{
    lemma_le_roundtrips();
    if values.len() > 0 {
        let prefix = values.drop_last();
        let last = values.last();
        let encoded = encode_utf8(last);
        let p = strings_body(prefix).len() as int;
        let whole = bytes.subrange(cursor, cursor + strings_body(values).len());
        assert(strings_body(values) == strings_body(prefix) + le_u32(encoded.len() as u32) + encoded);
        assert forall|i: int| 0 <= i < prefix.len() implies encode_utf8(#[trigger] prefix[i]).len()
            <= u32::MAX by {
            assert(prefix[i] == values[i]);
        }
        assert(bytes.subrange(cursor, cursor + p) =~= whole.subrange(0, p));
        assert(whole.subrange(0, p) =~= strings_body(prefix));
        lemma_read_strings_back(bytes, cursor, prefix);
        assert(encode_utf8(values[values.len() - 1]).len() <= u32::MAX);
        let next = cursor + p;
        assert(bytes.subrange(next, next + 4) =~= whole.subrange(p, p + 4));
        assert(whole.subrange(p, p + 4) =~= le_u32(encoded.len() as u32));
        assert(le_u32(encoded.len() as u32).len() == 4);
        assert(crate::encode::from_le_u32(le_u32(encoded.len() as u32)) == encoded.len() as u32);
        let len = encoded.len() as int;
        assert(bytes.subrange(next + 4, next + 4 + len) =~= whole.subrange(p + 4, p + 4 + len));
        assert(whole.subrange(p + 4, p + 4 + len) =~= encoded);
        vstd::utf8::encode_utf8_valid_utf8(last);
        vstd::utf8::encode_utf8_decode_utf8(last);
        assert(prefix.push(last) =~= values);
    } else {
        assert(values =~= Seq::<Seq<char>>::empty());
    }
}

/// Decoding what `encode_strings` stores gives the same strings back.
pub proof fn law_strings_read_back(values: Seq<Seq<char>>)
    requires
        values.len() <= u32::MAX,
        lengths_fit(values),
    ensures
        decoded_strings(strings_bytes(values)) == Some(values),
{
    lemma_le_roundtrips();
    let bytes = strings_bytes(values);
    let body = strings_body(values);
    assert(bytes.subrange(0, 4) =~= le_u32(values.len() as u32));
    assert(le_u32(values.len() as u32).len() == 4);
    assert(crate::encode::from_le_u32(le_u32(values.len() as u32)) == values.len() as u32);
    assert(bytes.subrange(4, 4 + body.len() as int) =~= body);
    lemma_read_strings_back(bytes, 4, values);
}

} // verus!
