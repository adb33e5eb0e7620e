use vstd::prelude::*;
use vstd::std_specs::cmp::PartialEqSpecImpl;
use vstd::utf8::encode_utf8;

use crate::dependency::ProjectionInputHash;
use crate::digest::{sha256, sha256_spec};
use crate::embedding::{
    all_finite, all_finite_bits, EmbeddingNormalization, EmbeddingSignature, EmbeddingVector,
    SignatureView,
};
use crate::encode::{
    extend_bytes, from_le_u16, from_le_u32, lemma_le_roundtrips, le_u16, le_u32, push_le_u16,
    push_le_u32,
};
use crate::ids::{bytes_equal, AuthorityGeneration, MemoryId, RevisionId, SpaceId};
use crate::text::{push_char, push_str};
use crate::{invalid, invalid_value, DerivedError};

verus! {

/// The content hash of a canonical vector payload.
#[derive(Clone, Copy, Debug, Hash, PartialOrd, Ord)]
pub struct VectorPayloadHash([u8; 32]);

impl View for VectorPayloadHash {
    type V = Seq<u8>;

    closed spec fn view(&self) -> Seq<u8> {
        self.0@
    }
}

impl PartialEq for VectorPayloadHash {
    fn eq(&self, other: &Self) -> (equal: bool) {
        crate::ids::bytes_equal(self.0.as_slice(), other.0.as_slice())
    }
}

impl Eq for VectorPayloadHash {}

impl PartialEqSpecImpl for VectorPayloadHash {
    open spec fn obeys_eq_spec() -> bool {
        true
    }

    open spec fn eq_spec(&self, other: &Self) -> bool {
        self@ == other@
    }
}

impl VectorPayloadHash {
    pub fn from_bytes(bytes: [u8; 32]) -> (id: Self)
        ensures
            id@ == bytes@,
    {
        VectorPayloadHash(bytes)
    }

    pub fn as_bytes(&self) -> (bytes: &[u8; 32])
        ensures
            bytes@ == self@,
    {
        &self.0
    }

    pub fn into_bytes(self) -> (bytes: [u8; 32])
        ensures
            bytes@ == self@,
    {
        self.0
    }

    pub proof fn lemma_len(&self)
        ensures
            self@.len() == 32,
    {
    }
}


/// The lowercase hexadecimal digit of a nibble.
pub open spec fn hex_digit(nibble: int) -> char {
    if nibble < 10 {
        (nibble + 48) as char
    } else {
        (nibble + 87) as char
    }
}

/// The lowercase hexadecimal spelling of a byte string.
pub open spec fn hex_spec(bytes: Seq<u8>) -> Seq<char>
    decreases bytes.len(),
{
    if bytes.len() == 0 {
        seq![]
    } else {
        hex_spec(bytes.drop_last()) + seq![
            hex_digit(bytes.last() as int / 16),
            hex_digit(bytes.last() as int % 16),
        ]
    }
}

fn hex_digit_exec(nibble: u8) -> (digit: char)
    requires
        nibble < 16,
    ensures
        digit == hex_digit(nibble as int),
{
    if nibble < 10 {
        (nibble + 48) as char
    } else {
        (nibble + 87) as char
    }
}

/// Spells bytes in lowercase hexadecimal.
pub fn hex_lower(bytes: &[u8]) -> (hex: String)
    ensures
        hex@ == hex_spec(bytes@),
{
    let mut hex = String::new();
    let mut i: usize = 0;
    while i < bytes.len()
        invariant
            i <= bytes@.len(),
            hex@ == hex_spec(bytes@.subrange(0, i as int)),
        decreases bytes@.len() - i,
    {
        let byte = bytes[i];
        push_char(&mut hex, hex_digit_exec(byte / 16));
        push_char(&mut hex, hex_digit_exec(byte % 16));
        proof {
            assert(bytes@.subrange(0, i + 1).drop_last() =~= bytes@.subrange(0, i as int));
        }
        i = i + 1;
    }
    assert(bytes@.subrange(0, bytes@.len() as int) =~= bytes@);
    hex
}

proof fn lemma_hex_spec_digits(bytes: Seq<u8>, j: int)
    requires
        0 <= j < bytes.len(),
    ensures
        hex_spec(bytes).len() == 2 * bytes.len(),
        hex_spec(bytes)[2 * j] == hex_digit(bytes[j] as int / 16),
        hex_spec(bytes)[2 * j + 1] == hex_digit(bytes[j] as int % 16),
    decreases bytes.len(),
{
    lemma_hex_spec_len(bytes.drop_last());
    if j < bytes.len() - 1 {
        lemma_hex_spec_digits(bytes.drop_last(), j);
        assert(bytes.drop_last()[j] == bytes[j]);
    }
}

proof fn lemma_hex_spec_len(bytes: Seq<u8>)
    ensures
        hex_spec(bytes).len() == 2 * bytes.len(),
    decreases bytes.len(),
{
    if bytes.len() > 0 {
        lemma_hex_spec_len(bytes.drop_last());
    }
}

/// A lowercase hexadecimal digit.
pub open spec fn is_lower_hex_digit(c: char) -> bool {
    ('0' <= c && c <= '9') || ('a' <= c && c <= 'f')
}

/// Spelling `bytes` in hexadecimal gives two lowercase digits per byte, in
/// order: the high nibble, then the low one.
pub proof fn law_hex_spelling_shape(bytes: Seq<u8>)
    ensures
        hex_spec(bytes).len() == 2 * bytes.len(),
        forall|k: int| 0 <= k < hex_spec(bytes).len() ==> is_lower_hex_digit(#[trigger] hex_spec(bytes)[k]),
        forall|j: int|
            0 <= j < bytes.len() ==> hex_spec(bytes)[2 * j] == hex_digit(#[trigger] bytes[j] as int / 16)
                && hex_spec(bytes)[2 * j + 1] == hex_digit(bytes[j] as int % 16),
{
    lemma_hex_spec_len(bytes);
    assert forall|j: int| 0 <= j < bytes.len() implies hex_spec(bytes)[2 * j] == hex_digit(
        #[trigger] bytes[j] as int / 16,
    ) && hex_spec(bytes)[2 * j + 1] == hex_digit(bytes[j] as int % 16) by {
        lemma_hex_spec_digits(bytes, j);
    }
    assert forall|k: int| 0 <= k < hex_spec(bytes).len() implies is_lower_hex_digit(
        #[trigger] hex_spec(bytes)[k],
    ) by {
        let j = k / 2;
        lemma_hex_spec_digits(bytes, j);
        let nibble = if k % 2 == 0 {
            bytes[j] as int / 16
        } else {
            bytes[j] as int % 16
        };
        assert(hex_spec(bytes)[k] == hex_digit(nibble));
        assert(0 <= nibble < 16);
    }
}

/// Hexadecimal spelling reads back: two byte strings with the same spelling
/// are equal, so what `decode_hex` returns for `hex_lower(bytes)` is `bytes`.
pub proof fn law_hex_spelling_is_injective(a: Seq<u8>, b: Seq<u8>)
    requires
        hex_spec(a) == hex_spec(b),
    ensures
        a == b,
{
    lemma_hex_spec_len(a);
    lemma_hex_spec_len(b);
    assert forall|j: int| 0 <= j < a.len() implies a[j] == b[j] by {
        lemma_hex_spec_digits(a, j);
        lemma_hex_spec_digits(b, j);
        let (x, y) = (a[j] as int, b[j] as int);
        assert(hex_digit(x / 16) == hex_digit(y / 16));
        assert(hex_digit(x % 16) == hex_digit(y % 16));
        assert(x / 16 == y / 16) by {
            if x / 16 != y / 16 {
                assert((hex_digit(x / 16) as int) != (hex_digit(y / 16) as int));
            }
        }
        assert(x % 16 == y % 16) by {
            if x % 16 != y % 16 {
                assert((hex_digit(x % 16) as int) != (hex_digit(y % 16) as int));
            }
        }
    }
    assert(a =~= b);
}

/// The value of a lowercase hexadecimal digit.
fn hex_value(c: char) -> (value: Option<u8>)
    ensures
        value matches Some(v) ==> v < 16 && hex_digit(v as int) == c,
        value is None ==> forall|n: int| 0 <= n < 16 ==> hex_digit(n) != c,
{
    if '0' <= c && c <= '9' {
        let v = (c as u32 - 48) as u8;
        assert(hex_digit(v as int) == c) by {
            assert((v + 48) as int == c as int);
        }
        Some(v)
    } else if 'a' <= c && c <= 'f' {
        let v = (c as u32 - 87) as u8;
        assert(hex_digit(v as int) == c) by {
            assert((v + 87) as int == c as int);
        }
        Some(v)
    } else {
        None
    }
}

/// Reads lowercase hexadecimal back into the bytes it spells.
pub fn decode_hex(text: &str) -> (result: Option<Vec<u8>>)
    ensures
        result matches Some(bytes) ==> hex_spec(bytes@) == text@,
        result is None ==> forall|bytes: Seq<u8>| hex_spec(bytes) != text@,
        forall|bytes: Seq<u8>| #[trigger] hex_spec(bytes) == text@ ==> (result matches Some(v) && v@
            == bytes),
{
    let chars = crate::text::chars_of(text);
    if chars.len() % 2 != 0 {
        proof {
            assert forall|bytes: Seq<u8>| hex_spec(bytes) != text@ by {
                lemma_hex_spec_len(bytes);
            }
        }
        return None;
    }
    let mut bytes: Vec<u8> = Vec::new();
    let mut i: usize = 0;
    assert(text@.take(0) =~= hex_spec(bytes@));
    while i < chars.len() / 2
        invariant
            chars@ == text@,
            chars@.len() % 2 == 0,
            i <= chars@.len() / 2,
            bytes@.len() == i,
            hex_spec(bytes@) == text@.take(2 * i),
        decreases chars@.len() / 2 - i,
    {
        let high = hex_value(chars[2 * i]);
        let low = hex_value(chars[2 * i + 1]);
        match (high, low) {
            (Some(h), Some(l)) => {
                let byte: u8 = h * 16 + l;
                let ghost before = bytes@;
                bytes.push(byte);
                proof {
                    assert(bytes@.drop_last() =~= before);
                    assert(byte as int / 16 == h);
                    assert(byte as int % 16 == l);
                    assert(text@.take(2 * (i + 1)) =~= text@.take(2 * i) + seq![text@[2 * i], text@[2 * i + 1]]);
                }
            },
            _ => {
                proof {
                    assert forall|candidate: Seq<u8>| hex_spec(candidate) != text@ by {
                        if hex_spec(candidate) == text@ {
                            lemma_hex_spec_len(candidate);
                            lemma_hex_spec_digits(candidate, i as int);
                            let b = candidate[i as int];
                            assert(0 <= b as int / 16 < 16);
                            assert(0 <= b as int % 16 < 16);
                        }
                    }
                }
                return None;
            },
        }
        i = i + 1;
    }
    assert(text@.take(2 * i) =~= text@);
    proof {
        assert forall|other: Seq<u8>| #[trigger] hex_spec(other) == text@ implies bytes@ == other by {
            law_hex_spelling_is_injective(bytes@, other);
        }
    }
    Some(bytes)
}

impl VectorPayloadHash {
    pub fn as_hex(&self) -> (hex: String)
        ensures
            hex@ == hex_spec(self@),
    {
        hex_lower(self.0.as_slice())
    }
}

/// The version of the canonical vector payload encoding.
pub const VECTOR_PAYLOAD_FORMAT_VERSION: u16 = 1;

/// The fixed length of a vector payload header.
pub const VECTOR_PAYLOAD_HEADER_LENGTH: usize = 79;

/// The magic that opens a vector payload: `MEMVEC01`.
pub open spec fn vector_payload_magic() -> Seq<u8> {
    seq![77u8, 69u8, 77u8, 86u8, 69u8, 67u8, 48u8, 49u8]
}

/// The magic that opens an ANN segment: `MEMANN01`.
pub open spec fn ann_segment_magic() -> Seq<u8> {
    seq![77u8, 69u8, 77u8, 65u8, 78u8, 78u8, 48u8, 49u8]
}

pub(crate) fn push_magic(out: &mut Vec<u8>, fourth: u8, fifth: u8, sixth: u8)
    ensures
        final(out)@ == old(out)@ + seq![77u8, 69u8, 77u8, fourth, fifth, sixth, 48u8, 49u8],
{
    out.push(77u8);
    out.push(69u8);
    out.push(77u8);
    out.push(fourth);
    out.push(fifth);
    out.push(sixth);
    out.push(48u8);
    out.push(49u8);
    assert(out@ =~= old(out)@ + seq![77u8, 69u8, 77u8, fourth, fifth, sixth, 48u8, 49u8]);
}

/// The stored byte of a normalization.
pub open spec fn normalization_byte_spec(normalization: EmbeddingNormalization) -> u8 {
    match normalization {
        EmbeddingNormalization::Unnormalized => 0,
        EmbeddingNormalization::L2 => 1,
    }
}

pub fn normalization_byte(normalization: EmbeddingNormalization) -> (byte: u8)
    ensures
        byte == normalization_byte_spec(normalization),
{
    match normalization {
        EmbeddingNormalization::Unnormalized => 0,
        EmbeddingNormalization::L2 => 1,
    }
}

/// The normalization a stored byte names, if any.
pub open spec fn normalization_from_byte_spec(byte: u8) -> Option<EmbeddingNormalization> {
    if byte == 0 {
        Some(EmbeddingNormalization::Unnormalized)
    } else if byte == 1 {
        Some(EmbeddingNormalization::L2)
    } else {
        None
    }
}

pub fn normalization_from_byte(byte: u8) -> (result: Result<EmbeddingNormalization, DerivedError>)
    ensures
        normalization_from_byte_spec(byte) matches Some(n) ==> result == Ok::<
            EmbeddingNormalization,
            DerivedError,
        >(n),
        normalization_from_byte_spec(byte) is None ==> (result matches Err(error) && invalid_value(
            error,
            "vector payload: unknown vector normalization"@,
        )),
{
    match byte {
        0 => Ok(EmbeddingNormalization::Unnormalized),
        1 => Ok(EmbeddingNormalization::L2),
        _ => Err(invalid("vector payload: unknown vector normalization")),
    }
}

/// The little-endian bytes of a sequence of bit patterns.
pub open spec fn le_bits(values: Seq<u32>) -> Seq<u8>
    decreases values.len(),
{
    if values.len() == 0 {
        seq![]
    } else {
        le_bits(values.drop_last()) + le_u32(values.last())
    }
}

pub(crate) fn push_le_bits(out: &mut Vec<u8>, values: &[u32])
    ensures
        final(out)@ == old(out)@ + le_bits(values@),
{
    let ghost start = out@;
    let mut i: usize = 0;
    while i < values.len()
        invariant
            i <= values@.len(),
            out@ == start + le_bits(values@.subrange(0, i as int)),
        decreases values@.len() - i,
    {
        push_le_u32(out, values[i]);
        proof {
            assert(values@.subrange(0, i + 1).drop_last() =~= values@.subrange(0, i as int));
        }
        i = i + 1;
    }
    assert(values@.subrange(0, values@.len() as int) =~= values@);
}

/// What a vector payload holds.
pub ghost struct PayloadView {
    pub dimension: u32,
    pub normalization: EmbeddingNormalization,
    pub producer_signature_hash: Seq<u8>,
    pub projection_input_hash: Seq<u8>,
    pub values: Seq<u32>,
}

/// The dimension is the positive number of finite values, and both hashes
/// are thirty-two bytes.
pub open spec fn payload_valid(payload: PayloadView) -> bool {
    &&& payload.dimension > 0
    &&& payload.values.len() == payload.dimension
    &&& all_finite(payload.values)
    &&& payload.producer_signature_hash.len() == 32
    &&& payload.projection_input_hash.len() == 32
}

/// The canonical encoding of a vector payload.
pub open spec fn payload_bytes(payload: PayloadView) -> Seq<u8> {
    vector_payload_magic() + le_u16(1) + le_u32(payload.dimension) + seq![
        normalization_byte_spec(payload.normalization),
    ] + payload.producer_signature_hash + payload.projection_input_hash + le_bits(payload.values)
}

/// The bit patterns stored little-endian at `start`.
pub open spec fn values_at(bytes: Seq<u8>, start: int, count: int) -> Seq<u32> {
    Seq::new(count as nat, |i: int| from_le_u32(bytes.subrange(start + 4 * i, start + 4 * i + 4)))
}

/// Reads a canonical vector payload; anything else is refused.
pub open spec fn parse_payload(bytes: Seq<u8>) -> Option<PayloadView> {
    if bytes.len() < 79 {
        None
    } else {
        let dimension = from_le_u32(bytes.subrange(10, 14));
        let normalization = normalization_from_byte_spec(bytes[14]);
        let values = values_at(bytes, 79, dimension as int);
        if bytes.subrange(0, 8) != vector_payload_magic() || from_le_u16(bytes.subrange(8, 10)) != 1
            || dimension == 0 || normalization is None || bytes.len() != 79 + 4 * dimension
            || !all_finite(values) {
            None
        } else {
            Some(
                PayloadView {
                    dimension,
                    normalization: normalization.unwrap(),
                    producer_signature_hash: bytes.subrange(15, 47),
                    projection_input_hash: bytes.subrange(47, 79),
                    values,
                },
            )
        }
    }
}

/// Why a byte string is no canonical vector payload: the first check it
/// fails, in the order the reader makes them, or nothing when it is one.
pub open spec fn payload_refusal(bytes: Seq<u8>) -> Option<Seq<char>> {
    if bytes.len() < 79 {
        Some("vector payload: vector payload is truncated"@)
    } else if bytes.subrange(0, 8) != vector_payload_magic() {
        Some("vector payload: vector payload magic does not match MEMVEC01"@)
    } else if from_le_u16(bytes.subrange(8, 10)) != 1 {
        Some("vector payload: unsupported vector payload format version"@)
    } else if from_le_u32(bytes.subrange(10, 14)) == 0 {
        Some("vector payload: vector payload dimension must be positive"@)
    } else if normalization_from_byte_spec(bytes[14]) is None {
        Some("vector payload: unknown vector normalization"@)
    } else if bytes.len() != 79 + 4 * from_le_u32(bytes.subrange(10, 14)) {
        Some("vector payload: vector payload length does not match dimension"@)
    } else if !all_finite(values_at(bytes, 79, from_le_u32(bytes.subrange(10, 14)) as int)) {
        Some("vector payload: vector payload values must be finite"@)
    } else {
        None
    }
}

/// A byte string is refused exactly when it does not parse.
pub proof fn lemma_payload_refusal(bytes: Seq<u8>)
    ensures
        payload_refusal(bytes) is None <==> parse_payload(bytes) is Some,
{
}

/// The bytes a producer signature hash digests.
pub open spec fn producer_signature_preimage(signature: Seq<u8>) -> Seq<u8> {
    encode_utf8("memoria-vector-producer-signature-v1\0"@) + signature
}

/// Canonical immutable vector payload. Where a payload is attached lives
/// elsewhere, so one payload can serve several revisions or Spaces.
#[derive(Clone, Debug)]
pub struct VectorPayloadV1 {
    dimension: u32,
    normalization: EmbeddingNormalization,
    producer_signature_hash: [u8; 32],
    projection_input_hash: ProjectionInputHash,
    values: Vec<u32>,
}

impl View for VectorPayloadV1 {
    type V = PayloadView;

    closed spec fn view(&self) -> PayloadView {
        PayloadView {
            dimension: self.dimension,
            normalization: self.normalization,
            producer_signature_hash: self.producer_signature_hash@,
            projection_input_hash: self.projection_input_hash@,
            values: self.values@,
        }
    }
}

impl VectorPayloadV1 {
    /// A payload of finite values, at least one and at most `u32::MAX`.
    pub fn new(
        values: Vec<u32>,
        normalization: EmbeddingNormalization,
        producer_signature: &[u8],
        projection_input_hash: ProjectionInputHash,
    ) -> (result: Result<Self, DerivedError>)
        ensures
            values@.len() > u32::MAX ==> (result matches Err(error) && invalid_value(
                error,
                "vector payload dimension is out of range"@,
            )),
            values@.len() == 0 ==> (result matches Err(error) && invalid_value(
                error,
                "vector payload dimension must be positive"@,
            )),
            0 < values@.len() <= u32::MAX && !all_finite(values@) ==> (result matches Err(error)
                && invalid_value(error, "vector payload values must be finite"@)),
            0 < values@.len() <= u32::MAX && all_finite(values@) ==> (result matches Ok(payload)
                && payload@ == PayloadView {
                dimension: values@.len() as u32,
                normalization,
                producer_signature_hash: sha256_spec(
                    producer_signature_preimage(producer_signature@),
                ),
                projection_input_hash: projection_input_hash@,
                values: values@,
            } && payload_valid(payload@)),
    {
        if values.len() > 4294967295usize {
            return Err(invalid("vector payload dimension is out of range"));
        }
        let dimension = values.len() as u32;
        if dimension == 0 {
            return Err(invalid("vector payload dimension must be positive"));
        }
        if !all_finite_bits(values.as_slice()) {
            return Err(invalid("vector payload values must be finite"));
        }
        let mut preimage: Vec<u8> = Vec::new();
        let domain: &str = "memoria-vector-producer-signature-v1\0";
        extend_bytes(&mut preimage, domain.as_bytes());
        extend_bytes(&mut preimage, producer_signature);
        let producer_signature_hash = sha256(preimage.as_slice());
        proof {
            projection_input_hash.lemma_len();
        }
        Ok(
            VectorPayloadV1 {
                dimension,
                normalization,
                producer_signature_hash,
                projection_input_hash,
                values,
            },
        )
    }

    pub fn dimension(&self) -> (dimension: u32)
        ensures
            dimension == self@.dimension,
    {
        self.dimension
    }

    pub fn normalization(&self) -> (normalization: EmbeddingNormalization)
        ensures
            normalization == self@.normalization,
    {
        self.normalization
    }

    pub fn producer_signature_hash(&self) -> (hash: [u8; 32])
        ensures
            hash@ == self@.producer_signature_hash,
    {
        self.producer_signature_hash
    }

    pub fn projection_input_hash(&self) -> (hash: &ProjectionInputHash)
        ensures
            hash@ == self@.projection_input_hash,
    {
        &self.projection_input_hash
    }

    pub fn values(&self) -> (values: &[u32])
        ensures
            values@ == self@.values,
    {
        self.values.as_slice()
    }

    /// The canonical encoding: magic, format version, dimension,
    /// normalization, both hashes, then the values little-endian.
    pub fn canonical_bytes(&self) -> (bytes: Vec<u8>)
        ensures
            bytes@ == payload_bytes(self@),
    {
        let mut bytes: Vec<u8> = Vec::new();
        push_magic(&mut bytes, 86u8, 69u8, 67u8);
        push_le_u16(&mut bytes, VECTOR_PAYLOAD_FORMAT_VERSION);
        push_le_u32(&mut bytes, self.dimension);
        bytes.push(normalization_byte(self.normalization));
        extend_bytes(&mut bytes, self.producer_signature_hash.as_slice());
        extend_bytes(&mut bytes, self.projection_input_hash.as_bytes().as_slice());
        push_le_bits(&mut bytes, self.values.as_slice());
        assert(bytes@ =~= payload_bytes(self@));
        bytes
    }

    pub fn bytes(&self) -> (bytes: Vec<u8>)
        ensures
            bytes@ == payload_bytes(self@),
    {
        self.canonical_bytes()
    }

    /// The content hash of the canonical encoding.
    pub fn hash(&self) -> (hash: VectorPayloadHash)
        ensures
            hash@ == sha256_spec(payload_bytes(self@)),
    {
        let bytes = self.canonical_bytes();
        VectorPayloadHash(sha256(bytes.as_slice()))
    }

    pub fn payload_hash(&self) -> (hash: VectorPayloadHash)
        ensures
            hash@ == sha256_spec(payload_bytes(self@)),
    {
        self.hash()
    }
}

/// Reads one byte at the cursor.
pub fn read_byte(bytes: &[u8], cursor: &mut usize) -> (result: Result<u8, DerivedError>)
    ensures
        *old(cursor) < bytes@.len() ==> result == Ok::<u8, DerivedError>(bytes@[*old(cursor) as int])
            && *final(cursor) == *old(cursor) + 1,
        *old(cursor) >= bytes@.len() ==> (result matches Err(error) && invalid_value(
            error,
            "vector payload: vector payload is truncated"@,
        )),
{
    if *cursor >= bytes.len() {
        return Err(invalid("vector payload: vector payload is truncated"));
    }
    let value = bytes[*cursor];
    *cursor = *cursor + 1;
    Ok(value)
}

/// Reads `count` bytes at the cursor.
pub fn read_bytes(bytes: &[u8], cursor: &mut usize, count: usize) -> (result: Result<Vec<u8>, DerivedError>)
    ensures
        *old(cursor) + count <= bytes@.len() ==> (result matches Ok(value) && value@
            == bytes@.subrange(*old(cursor) as int, *old(cursor) + count)
            && *final(cursor) == *old(cursor) + count),
        *old(cursor) + count > bytes@.len() ==> (result matches Err(error) && invalid_value(
            error,
            "vector payload: vector payload is truncated"@,
        )),
{
    if *cursor > bytes.len() || count > bytes.len() - *cursor {
        return Err(invalid("vector payload: vector payload is truncated"));
    }
    let mut value: Vec<u8> = Vec::new();
    let start = *cursor;
    let length = bytes.len();
    let mut i: usize = 0;
    while i < count
        invariant
            length == bytes@.len(),
            start + count <= bytes@.len(),
            i <= count,
            value@ == bytes@.subrange(start as int, start + i),
        decreases count - i,
    {
        assert(start + i < bytes@.len());
        let index: usize = start + i;
        value.push(bytes[index]);
        i = i + 1;
        assert(value@ =~= bytes@.subrange(start as int, start + i));
    }
    *cursor = start + count;
    Ok(value)
}

/// Reads thirty-two bytes at the cursor.
pub fn read_array32(bytes: &[u8], cursor: &mut usize) -> (result: Result<[u8; 32], DerivedError>)
    ensures
        *old(cursor) + 32 <= bytes@.len() ==> (result matches Ok(value) && value@
            == bytes@.subrange(*old(cursor) as int, *old(cursor) + 32)
            && *final(cursor) == *old(cursor) + 32),
        *old(cursor) + 32 > bytes@.len() ==> (result matches Err(error) && invalid_value(
            error,
            "vector payload: vector payload is truncated"@,
        )),
{
    if *cursor > bytes.len() || 32 > bytes.len() - *cursor {
        return Err(invalid("vector payload: vector payload is truncated"));
    }
    let start = *cursor;
    let mut value = [0u8; 32];
    let length = bytes.len();
    let mut i: usize = 0;
    while i < 32
        invariant
            length == bytes@.len(),
            start + 32 <= bytes@.len(),
            i <= 32,
            value@.len() == 32,
            forall|j: int| 0 <= j < i ==> value@[j] == bytes@[start + j],
        decreases 32 - i,
    {
        assert(start + i < bytes@.len());
        let index: usize = start + i;
        value[i] = bytes[index];
        i = i + 1;
    }
    assert(value@ =~= bytes@.subrange(start as int, start + 32));
    *cursor = start + 32;
    Ok(value)
}

/// Reads sixteen bytes at the cursor.
pub fn read_array16(bytes: &[u8], cursor: &mut usize) -> (result: Result<[u8; 16], DerivedError>)
    ensures
        *old(cursor) + 16 <= bytes@.len() ==> (result matches Ok(value) && value@
            == bytes@.subrange(*old(cursor) as int, *old(cursor) + 16)
            && *final(cursor) == *old(cursor) + 16),
        *old(cursor) + 16 > bytes@.len() ==> (result matches Err(error) && invalid_value(
            error,
            "vector payload: vector payload is truncated"@,
        )),
{
    if *cursor > bytes.len() || 16 > bytes.len() - *cursor {
        return Err(invalid("vector payload: vector payload is truncated"));
    }
    let start = *cursor;
    let mut value = [0u8; 16];
    let length = bytes.len();
    let mut i: usize = 0;
    while i < 16
        invariant
            length == bytes@.len(),
            start + 16 <= bytes@.len(),
            i <= 16,
            value@.len() == 16,
            forall|j: int| 0 <= j < i ==> value@[j] == bytes@[start + j],
        decreases 16 - i,
    {
        assert(start + i < bytes@.len());
        let index: usize = start + i;
        value[i] = bytes[index];
        i = i + 1;
    }
    assert(value@ =~= bytes@.subrange(start as int, start + 16));
    *cursor = start + 16;
    Ok(value)
}

/// Reads a little-endian `u16` at the cursor.
pub fn read_u16(bytes: &[u8], cursor: &mut usize) -> (result: Result<u16, DerivedError>)
    ensures
        *old(cursor) + 2 <= bytes@.len() ==> result == Ok::<u16, DerivedError>(
            from_le_u16(bytes@.subrange(*old(cursor) as int, *old(cursor) + 2)),
        ) && *final(cursor) == *old(cursor) + 2,
        *old(cursor) + 2 > bytes@.len() ==> (result matches Err(error) && invalid_value(
            error,
            "vector payload: vector payload is truncated"@,
        )),
{
    let value = read_bytes(bytes, cursor, 2)?;
    Ok(vstd::bytes::u16_from_le_bytes(value.as_slice()))
}

/// Reads a little-endian `u32` at the cursor.
pub fn read_u32(bytes: &[u8], cursor: &mut usize) -> (result: Result<u32, DerivedError>)
    ensures
        *old(cursor) + 4 <= bytes@.len() ==> result == Ok::<u32, DerivedError>(
            from_le_u32(bytes@.subrange(*old(cursor) as int, *old(cursor) + 4)),
        ) && *final(cursor) == *old(cursor) + 4,
        *old(cursor) + 4 > bytes@.len() ==> (result matches Err(error) && invalid_value(
            error,
            "vector payload: vector payload is truncated"@,
        )),
{
    let value = read_bytes(bytes, cursor, 4)?;
    Ok(vstd::bytes::u32_from_le_bytes(value.as_slice()))
}

/// Reads a little-endian `u64` at the cursor.
pub fn read_u64(bytes: &[u8], cursor: &mut usize) -> (result: Result<u64, DerivedError>)
    ensures
        *old(cursor) + 8 <= bytes@.len() ==> result == Ok::<u64, DerivedError>(
            crate::encode::from_le_u64(bytes@.subrange(*old(cursor) as int, *old(cursor) + 8)),
        ) && *final(cursor) == *old(cursor) + 8,
        *old(cursor) + 8 > bytes@.len() ==> (result matches Err(error) && invalid_value(
            error,
            "vector payload: vector payload is truncated"@,
        )),
{
    let value = read_bytes(bytes, cursor, 8)?;
    Ok(vstd::bytes::u64_from_le_bytes(value.as_slice()))
}

pub(crate) fn has_magic(bytes: &[u8], fourth: u8, fifth: u8, sixth: u8) -> (found: bool)
    requires
        bytes@.len() >= 8,
    ensures
        found == (bytes@.subrange(0, 8) == seq![77u8, 69u8, 77u8, fourth, fifth, sixth, 48u8, 49u8]),
{
    let found = bytes[0] == 77u8 && bytes[1] == 69u8 && bytes[2] == 77u8 && bytes[3] == fourth
        && bytes[4] == fifth && bytes[5] == sixth && bytes[6] == 48u8 && bytes[7] == 49u8;
    proof {
        let expected = seq![77u8, 69u8, 77u8, fourth, fifth, sixth, 48u8, 49u8];
        if found {
            assert(bytes@.subrange(0, 8) =~= expected);
        }
        if bytes@.subrange(0, 8) == expected {
            assert(bytes@.subrange(0, 8)[0] == expected[0]);
            assert(bytes@.subrange(0, 8)[1] == expected[1]);
            assert(bytes@.subrange(0, 8)[2] == expected[2]);
            assert(bytes@.subrange(0, 8)[3] == expected[3]);
            assert(bytes@.subrange(0, 8)[4] == expected[4]);
            assert(bytes@.subrange(0, 8)[5] == expected[5]);
            assert(bytes@.subrange(0, 8)[6] == expected[6]);
            assert(bytes@.subrange(0, 8)[7] == expected[7]);
        }
    }
    found
}

/// Reads `count` finite bit patterns stored little-endian from `start`.
fn read_finite_values(bytes: &[u8], start: usize, count: usize) -> (result: Option<Vec<u32>>)
    requires
        start + 4 * count == bytes@.len(),
    ensures
        result matches Some(values) ==> values@ == values_at(bytes@, start as int, count as int)
            && all_finite(values@),
        result is None ==> !all_finite(values_at(bytes@, start as int, count as int)),
{
    let mut values: Vec<u32> = Vec::new();
    let mut cursor = start;
    let mut i: usize = 0;
    while i < count
        invariant
            start + 4 * count == bytes@.len(),
            i <= count,
            cursor == start + 4 * i,
            values@ == values_at(bytes@, start as int, count as int).subrange(0, i as int),
            all_finite(values@),
        decreases count - i,
    {
        let bits = match read_u32(bytes, &mut cursor) {
            Ok(bits) => bits,
            Err(_) => {
                return None;
            },
        };
        if !crate::embedding::is_finite_bits(bits) {
            assert(values_at(bytes@, start as int, count as int)[i as int] == bits);
            return None;
        }
        values.push(bits);
        i = i + 1;
        assert(values@ =~= values_at(bytes@, start as int, count as int).subrange(0, i as int));
    }
    assert(values@ =~= values_at(bytes@, start as int, count as int));
    Some(values)
}

impl VectorPayloadV1 {
    /// Reads the payload stored under `expected`: the bytes must be a
    /// canonical encoding whose hash is `expected`.
    pub fn from_stored_bytes(bytes: &[u8], expected: &VectorPayloadHash) -> (result: Result<
        Self,
        DerivedError,
    >)
        ensures
            result matches Ok(payload) ==> parse_payload(bytes@) == Some(payload@) && sha256_spec(
                payload_bytes(payload@),
            ) == expected@,
            parse_payload(bytes@) is None ==> result is Err,
            parse_payload(bytes@) matches Some(found) && sha256_spec(payload_bytes(found))
                != expected@ ==> (result matches Err(error) && invalid_value(
                error,
                "vector payload: vector payload checksum does not match its path"@,
            )),
            parse_payload(bytes@) matches Some(found) ==> (sha256_spec(payload_bytes(found))
                == expected@ ==> (result matches Ok(payload) && payload@ == found)),
            payload_refusal(bytes@) matches Some(message) ==> (result matches Err(error)
                && invalid_value(error, message)),
    {
        let payload = VectorPayloadV1::from_canonical_bytes(bytes)?;
        if payload.hash() != *expected {
            return Err(invalid("vector payload: vector payload checksum does not match its path"));
        }
        Ok(payload)
    }
}

impl VectorPayloadV1 {
    /// Reads a canonical encoding; any other byte string is refused.
    pub fn from_canonical_bytes(bytes: &[u8]) -> (result: Result<Self, DerivedError>)
        ensures
            result matches Ok(payload) ==> parse_payload(bytes@) == Some(payload@),
            result is Err ==> parse_payload(bytes@) is None,
            result matches Err(error) ==> error is InvalidProjectionValue,
            parse_payload(bytes@) matches Some(found) ==> (result matches Ok(payload) && payload@
                == found),
            payload_refusal(bytes@) matches Some(message) ==> (result matches Err(error)
                && invalid_value(error, message)),
    {
        if bytes.len() < VECTOR_PAYLOAD_HEADER_LENGTH {
            return Err(invalid("vector payload: vector payload is truncated"));
        }
        if !has_magic(bytes, 86u8, 69u8, 67u8) {
            return Err(invalid("vector payload: vector payload magic does not match MEMVEC01"));
        }
        let mut cursor: usize = 8;
        let version = read_u16(bytes, &mut cursor)?;
        if version != VECTOR_PAYLOAD_FORMAT_VERSION {
            return Err(invalid("vector payload: unsupported vector payload format version"));
        }
        let dimension = read_u32(bytes, &mut cursor)?;
        if dimension == 0 {
            return Err(invalid("vector payload: vector payload dimension must be positive"));
        }
        let normalization = normalization_from_byte(read_byte(bytes, &mut cursor)?)?;
        let producer_signature_hash = read_array32(bytes, &mut cursor)?;
        let projection_input_hash = ProjectionInputHash::from_bytes(read_array32(bytes, &mut cursor)?);
        assert(cursor == 79);
        let value_bytes = bytes.len() - cursor;
        if value_bytes % 4 != 0 || value_bytes / 4 != dimension as usize {
            return Err(invalid("vector payload: vector payload length does not match dimension"));
        }
        let values = match read_finite_values(bytes, cursor, dimension as usize) {
            Some(values) => values,
            None => {
                return Err(invalid("vector payload: vector payload values must be finite"));
            },
        };
        Ok(
            VectorPayloadV1 {
                dimension,
                normalization,
                producer_signature_hash,
                projection_input_hash,
                values,
            },
        )
    }
}

pub(crate) proof fn lemma_le_bits(values: Seq<u32>)
    ensures
        le_bits(values).len() == 4 * values.len(),
        forall|i: int|
            0 <= i < values.len() ==> #[trigger] le_bits(values).subrange(4 * i, 4 * i + 4)
                == le_u32(values[i]),
    decreases values.len(),
{
    lemma_le_roundtrips();
    if values.len() > 0 {
        lemma_le_bits(values.drop_last());
        let prefix = le_bits(values.drop_last());
        assert forall|i: int| 0 <= i < values.len() implies #[trigger] le_bits(values).subrange(
            4 * i,
            4 * i + 4,
        ) == le_u32(values[i]) by {
            if i < values.len() - 1 {
                assert(le_bits(values).subrange(4 * i, 4 * i + 4) =~= prefix.subrange(4 * i, 4 * i + 4));
                assert(values.drop_last()[i] == values[i]);
            } else {
                assert(le_bits(values).subrange(4 * i, 4 * i + 4) =~= le_u32(values.last()));
            }
        }
    }
}

proof fn lemma_values_at_le_bits(bytes: Seq<u8>, start: int, count: int)
    requires
        0 <= start,
        0 <= count,
        start + 4 * count <= bytes.len(),
    ensures
        le_bits(values_at(bytes, start, count)) == bytes.subrange(start, start + 4 * count),
    decreases count,
{
    lemma_le_roundtrips();
    if count > 0 {
        lemma_values_at_le_bits(bytes, start, count - 1);
        assert(values_at(bytes, start, count).drop_last() =~= values_at(bytes, start, count - 1));
        let last = bytes.subrange(start + 4 * (count - 1), start + 4 * (count - 1) + 4);
        assert(le_u32(from_le_u32(last)) == last);
        assert(bytes.subrange(start, start + 4 * count) =~= bytes.subrange(
            start,
            start + 4 * (count - 1),
        ) + last);
    } else {
        assert(bytes.subrange(start, start) =~= Seq::<u8>::empty());
    }
}

/// Encoding a valid payload and reading it back gives the same payload.
pub proof fn law_payload_roundtrip(payload: PayloadView)
    requires
        payload_valid(payload),
    ensures
        parse_payload(payload_bytes(payload)) == Some(payload),
{
    lemma_le_roundtrips();
    lemma_le_bits(payload.values);
    let bytes = payload_bytes(payload);
    let header = vector_payload_magic() + le_u16(1) + le_u32(payload.dimension) + seq![
        normalization_byte_spec(payload.normalization),
    ] + payload.producer_signature_hash + payload.projection_input_hash;
    assert(header.len() == 79);
    assert(bytes =~= header + le_bits(payload.values));
    assert(bytes.subrange(0, 8) =~= vector_payload_magic());
    assert(bytes.subrange(8, 10) =~= le_u16(1));
    assert(bytes.subrange(10, 14) =~= le_u32(payload.dimension));
    assert(bytes[14] == normalization_byte_spec(payload.normalization));
    assert(bytes.subrange(15, 47) =~= payload.producer_signature_hash);
    assert(bytes.subrange(47, 79) =~= payload.projection_input_hash);
    let values = values_at(bytes, 79, payload.dimension as int);
    assert(values =~= payload.values) by {
        assert forall|i: int| 0 <= i < payload.values.len() implies values[i] == payload.values[i] by {
            assert(bytes.subrange(79 + 4 * i, 79 + 4 * i + 4) =~= le_bits(payload.values).subrange(
                4 * i,
                4 * i + 4,
            ));
        }
    }
}

/// The reader accepts only canonical encodings of valid payloads.
pub proof fn law_payload_parse_is_canonical(bytes: Seq<u8>)
    requires
        parse_payload(bytes) is Some,
    ensures
        payload_valid(parse_payload(bytes).unwrap()),
        payload_bytes(parse_payload(bytes).unwrap()) == bytes,
{
    lemma_le_roundtrips();
    let payload = parse_payload(bytes).unwrap();
    lemma_values_at_le_bits(bytes, 79, payload.dimension as int);
    assert(le_u32(from_le_u32(bytes.subrange(10, 14))) == bytes.subrange(10, 14));
    assert(le_u16(from_le_u16(bytes.subrange(8, 10))) == bytes.subrange(8, 10));
    assert(normalization_byte_spec(payload.normalization) == bytes[14]);
    assert(payload_bytes(payload) =~= bytes);
}

/// Where a payload lives under the derived directory:
/// `objects/vector/<first byte in hex>/<hash in hex>.vec`.
pub open spec fn vector_payload_path_spec(hash: Seq<u8>) -> Seq<char> {
    "objects/vector/"@ + hex_spec(hash.take(1)) + "/"@ + hex_spec(hash) + ".vec"@
}

pub fn vector_payload_relative_path(hash: &VectorPayloadHash) -> (path: String)
    ensures
        path@ == vector_payload_path_spec(hash@),
{
    let mut path = String::new();
    push_str(&mut path, "objects/vector/");
    let first = hex_lower(vstd::slice::slice_subrange(hash.0.as_slice(), 0, 1));
    push_str(&mut path, first.as_str());
    push_str(&mut path, "/");
    let all = hex_lower(hash.0.as_slice());
    push_str(&mut path, all.as_str());
    push_str(&mut path, ".vec");
    path
}

} // verus!
