use memoria_derived::vector::{decode_hex, hex_lower};
use memoria_derived::{EmbeddingNormalization, ProjectionInputHash, ProjectionKind, VectorPayloadV1};

fn bits(values: &[f32]) -> Vec<u32> {
    values.iter().map(|value| value.to_bits()).collect()
}

fn payload(producer: &str) -> VectorPayloadV1 {
    VectorPayloadV1::new(
        bits(&[0.25, 0.5, 0.25]),
        EmbeddingNormalization::L2,
        producer.as_bytes(),
        ProjectionInputHash::new(ProjectionKind::LocalEmbedding, b"career", "memoria-derived-v1"),
    )
    .unwrap()
}

#[test]
fn equal_vector_payloads_have_equal_hash_and_bytes() {
    let first = payload("provider:model:v1");
    let second = payload("provider:model:v1");

    assert_eq!(first.canonical_bytes(), second.canonical_bytes());
    assert_eq!(first.hash(), second.hash());
}

#[test]
fn producer_or_projection_signature_changes_payload_hash() {
    let first = payload("provider:model:v1");
    let producer_changed = payload("provider:model:v2");
    let projection_changed = VectorPayloadV1::new(
        first.values().to_vec(),
        first.normalization(),
        b"provider:model:v1",
        ProjectionInputHash::new(
            ProjectionKind::LocalEmbedding,
            b"different projection",
            "memoria-derived-v1",
        ),
    )
    .unwrap();

    assert_ne!(first.hash(), producer_changed.hash());
    assert_ne!(first.hash(), projection_changed.hash());
}

#[test]
fn non_finite_vector_cannot_be_persisted() {
    let error = VectorPayloadV1::new(
        vec![f32::NAN.to_bits()],
        EmbeddingNormalization::Unnormalized,
        b"provider:model:v1",
        ProjectionInputHash::new(ProjectionKind::LocalEmbedding, b"career", "memoria-derived-v1"),
    )
    .expect_err("non-finite payload values must be rejected");
    assert!(error.message().contains("finite"));
}

#[test]
fn canonical_bytes_read_back_and_corruption_is_refused() {
    let payload = payload("provider:model:v1");
    let bytes = payload.canonical_bytes();
    assert_eq!(bytes.len(), 79 + 12);
    assert_eq!(&bytes[..8], b"MEMVEC01");
    let restored = VectorPayloadV1::from_canonical_bytes(&bytes).unwrap();
    assert_eq!(restored.hash(), payload.hash());
    assert_eq!(restored.values(), payload.values());
    let mut shorter = bytes.clone();
    shorter.pop();
    assert!(VectorPayloadV1::from_canonical_bytes(&shorter).is_err());
    let mut unknown = bytes.clone();
    unknown[14] = 7;
    assert!(VectorPayloadV1::from_canonical_bytes(&unknown).is_err());
    let mut infinite = bytes.clone();
    let last = infinite.len();
    infinite[last - 4..].copy_from_slice(&f32::INFINITY.to_bits().to_le_bytes());
    assert!(VectorPayloadV1::from_canonical_bytes(&infinite)
        .unwrap_err()
        .message()
        .contains("finite"));
}

#[test]
fn payload_path_uses_the_hash_in_hex() {
    let payload = payload("provider:model:v1");
    let hash = payload.hash();
    let hex = hash.as_hex();
    assert_eq!(hex.len(), 64);
    let path = memoria_derived::vector::vector_payload_relative_path(&hash);
    assert_eq!(path, format!("objects/vector/{}/{}.vec", &hex[..2], hex));
}

#[test]
fn stored_payload_must_hash_to_its_address() {
    let first = payload("provider:model:v1");
    let second = payload("provider:model:v2");
    let bytes = first.canonical_bytes();
    let restored = VectorPayloadV1::from_stored_bytes(&bytes, &first.hash()).unwrap();
    assert_eq!(restored.hash(), first.hash());
    let error = VectorPayloadV1::from_stored_bytes(&bytes, &second.hash()).unwrap_err();
    assert_eq!(
        error.message(),
        "invalid projection value: vector payload: vector payload checksum does not match its path"
    );
    assert!(VectorPayloadV1::from_stored_bytes(&bytes[..10], &first.hash()).is_err());
}

#[test]
fn hex_spelling_reads_back() {
    let bytes = vec![0x00, 0x0f, 0xa5, 0xff];
    let hex = hex_lower(&bytes);
    assert_eq!(hex, "000fa5ff");
    assert_eq!(decode_hex(&hex), Some(bytes));
    assert_eq!(decode_hex(""), Some(Vec::new()));
    assert_eq!(decode_hex("abc"), None);
    assert_eq!(decode_hex("0G"), None);
    assert_eq!(decode_hex("0A"), None);
}

#[test]
fn corrupt_vector_payload_fails_checksum_or_hash_validation() {
    let payload = payload("provider:model:v1");
    let hash = payload.hash();
    let mut bytes = payload.canonical_bytes();
    let last = bytes.len() - 1;
    bytes[last] ^= 0x01;
    assert!(VectorPayloadV1::from_stored_bytes(&bytes, &hash).is_err());
}

#[test]
fn refused_payloads_name_the_first_failed_check() {
    let bytes = payload("provider:model:v1").canonical_bytes();
    let truncated = VectorPayloadV1::from_canonical_bytes(&bytes[..20]).unwrap_err();
    assert_eq!(
        truncated.message(),
        "invalid projection value: vector payload: vector payload is truncated"
    );
    let mut wrong_magic = bytes.clone();
    wrong_magic[0] = b'X';
    assert_eq!(
        VectorPayloadV1::from_canonical_bytes(&wrong_magic).unwrap_err().message(),
        "invalid projection value: vector payload: vector payload magic does not match MEMVEC01"
    );
    let mut wrong_normalization = bytes.clone();
    wrong_normalization[14] = 7;
    assert_eq!(
        VectorPayloadV1::from_canonical_bytes(&wrong_normalization).unwrap_err().message(),
        "invalid projection value: vector payload: unknown vector normalization"
    );
    let mut extra = bytes.clone();
    extra.push(0);
    assert_eq!(
        VectorPayloadV1::from_canonical_bytes(&extra).unwrap_err().message(),
        "invalid projection value: vector payload: vector payload length does not match dimension"
    );
}
