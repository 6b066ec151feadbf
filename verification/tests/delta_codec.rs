use lnmp_sdk::codec::FIELD_MAX;
use lnmp_sdk::delta::DeltaChange;
use lnmp_sdk::delta::DeltaError;
use lnmp_sdk::delta::VectorDelta;
use lnmp_sdk::vector::EmbeddingType;
use lnmp_sdk::vector::Vector;
use lnmp_sdk::version;

fn bits_vector(values: &[f32]) -> Vector {
    let bits: Vec<u32> = values.iter().map(|v| v.to_bits()).collect();
    Vector::from_f32_bits(&bits)
}

#[test]
fn test_version() {
    assert!(!version().is_empty());
}

#[test]
fn test_embedding_usage() {
    let vec = bits_vector(&[1.0, 2.0]);
    assert_eq!(vec.dim, 2);
    assert_eq!(vec.dtype, EmbeddingType::F32);
}

#[test]
fn test_from_f32_bits_layout() {
    let v = Vector::from_f32_bits(&vec![0x0403_0201u32, 0x0807_0605u32]);
    assert_eq!(v.dim, 2);
    assert_eq!(v.data, vec![0x01, 0x02, 0x03, 0x04, 0x05, 0x06, 0x07, 0x08]);
}

#[test]
fn test_empty_vector() {
    let v = Vector::from_f32_bits(&Vec::new());
    assert_eq!(v.dim, 0);
    assert!(v.data.is_empty());
    let d = VectorDelta::from_vectors(&v, &v, 1).unwrap();
    assert!(d.changes.is_empty());
    let r = d.apply(&v).unwrap();
    assert_eq!(r.dim, 0);
    assert!(r.data.is_empty());
}

#[test]
fn test_round_trip_identity() {
    let a = bits_vector(&[3.5, -0.0, 1.0e-8, 42.0, f32::INFINITY, 7.25]);
    let b = bits_vector(&[3.5, 0.0, 2.0e-8, 42.0, f32::NEG_INFINITY, -7.25]);
    let d = VectorDelta::from_vectors(&a, &b, 99).unwrap();
    let r = d.apply(&a).unwrap();
    assert_eq!(r.dim, b.dim);
    assert_eq!(r.dtype, b.dtype);
    assert_eq!(r.data, b.data);
    // the base is untouched
    assert_eq!(a.data, bits_vector(&[3.5, -0.0, 1.0e-8, 42.0, f32::INFINITY, 7.25]).data);
}

#[test]
fn test_self_diff_is_empty() {
    let a = bits_vector(&[0.5, 1.5, 2.5, 3.5]);
    let d = VectorDelta::from_vectors(&a, &a, 12).unwrap();
    assert_eq!(d.base_id, 12);
    assert!(d.changes.is_empty());
}

#[test]
fn test_negative_zero_differs_from_zero() {
    // bit-exact comparison: 0.0 and -0.0 compare equal as floats but differ
    // in their stored bytes, so the diff must report the position
    let a = bits_vector(&[0.0, 1.0]);
    let b = bits_vector(&[-0.0, 1.0]);
    let d = VectorDelta::from_vectors(&a, &b, 0).unwrap();
    assert_eq!(d.changes.len(), 1);
    assert_eq!(d.changes[0].index, 0);
    assert_eq!(d.changes[0].value, (-0.0f32).to_bits());
}

#[test]
fn test_ascending_order() {
    let a = bits_vector(&[1.0, 2.0, 3.0, 4.0, 5.0, 6.0]);
    let b = bits_vector(&[9.0, 2.0, 8.0, 4.0, 7.0, 6.5]);
    let d = VectorDelta::from_vectors(&a, &b, 0).unwrap();
    assert_eq!(d.changes.len(), 4);
    for w in d.changes.windows(2) {
        assert!(w[0].index < w[1].index);
    }
}

#[test]
fn test_dimension_guard() {
    let a = bits_vector(&[1.0, 2.0, 3.0]);
    let b = bits_vector(&[1.0, 2.0, 3.0, 4.0]);
    assert_eq!(
        VectorDelta::from_vectors(&a, &b, 0).unwrap_err(),
        DeltaError::DimensionMismatch
    );
    assert_eq!(
        VectorDelta::from_vectors(&b, &a, 0).unwrap_err(),
        DeltaError::DimensionMismatch
    );
}

#[test]
fn test_apply_bounds_guard() {
    let base = bits_vector(&[1.0, 2.0, 3.0, 4.0, 5.0]);
    let d = VectorDelta {
        base_id: 0,
        changes: vec![DeltaChange { index: 5, value: 0 }],
    };
    assert_eq!(d.apply(&base).unwrap_err(), DeltaError::DimensionMismatch);
}

#[test]
fn test_encode_decode_round_trip() {
    let d = VectorDelta {
        base_id: 0xdead_beef_1234_5678,
        changes: vec![
            DeltaChange { index: 0, value: 0x0000_0001 },
            DeltaChange { index: 7, value: 0xffff_ffff },
            DeltaChange { index: 4096, value: 0x8000_0000 },
        ],
    };
    let encoded = d.encode().unwrap();
    assert_eq!(encoded.len(), 12 + 3 * 8);
    let decoded = VectorDelta::decode(&encoded).unwrap();
    assert_eq!(decoded.base_id, d.base_id);
    assert_eq!(decoded.changes, d.changes);
}

#[test]
fn test_encoded_bytes_exact() {
    let d = VectorDelta {
        base_id: 0x0102_0304_0506_0708,
        changes: vec![DeltaChange { index: 1, value: 0.25f32.to_bits() }],
    };
    let encoded = d.encode().unwrap();
    assert_eq!(
        encoded,
        vec![
            0x08, 0x07, 0x06, 0x05, 0x04, 0x03, 0x02, 0x01, // base_id
            0x01, 0x00, 0x00, 0x00, // change count
            0x01, 0x00, 0x00, 0x00, // index 1
            0x00, 0x00, 0x80, 0x3e, // 0.25f32 bit pattern
        ]
    );
}

#[test]
fn test_encode_index_overflow() {
    let d = VectorDelta {
        base_id: 0,
        changes: vec![DeltaChange { index: FIELD_MAX as usize + 1, value: 0 }],
    };
    assert_eq!(d.encode().unwrap_err(), DeltaError::EncodeError);
}

#[test]
fn test_decode_truncated() {
    // shorter than the header
    assert_eq!(
        VectorDelta::decode(&vec![0u8; 5]).unwrap_err(),
        DeltaError::TruncatedInput
    );
    // header declares two entries, buffer holds one and a half
    let d = VectorDelta {
        base_id: 3,
        changes: vec![
            DeltaChange { index: 0, value: 1 },
            DeltaChange { index: 1, value: 2 },
        ],
    };
    let mut encoded = d.encode().unwrap();
    encoded.truncate(12 + 8 + 4);
    assert_eq!(
        VectorDelta::decode(&encoded).unwrap_err(),
        DeltaError::TruncatedInput
    );
}

#[test]
fn test_decode_trailing() {
    let d = VectorDelta {
        base_id: 3,
        changes: vec![DeltaChange { index: 0, value: 1 }],
    };
    let mut encoded = d.encode().unwrap();
    encoded.push(0);
    assert_eq!(
        VectorDelta::decode(&encoded).unwrap_err(),
        DeltaError::TrailingData
    );
}

#[test]
fn test_scenario_two_changes() {
    let a = bits_vector(&[0.1, 0.2, 0.3, 0.4, 0.5]);
    let b = bits_vector(&[0.1, 0.25, 0.3, 0.45, 0.5]);
    let d = VectorDelta::from_vectors(&a, &b, 0).unwrap();
    assert_eq!(d.changes.len(), 2);
    assert_eq!(d.changes[0].index, 1);
    assert_eq!(d.changes[0].value, 0.25f32.to_bits());
    assert_eq!(d.changes[1].index, 3);
    assert_eq!(d.changes[1].value, 0.45f32.to_bits());

    let r = d.apply(&a).unwrap();
    assert_eq!(r.data, b.data);
    assert_eq!(r.dim, b.dim);
    assert_eq!(r.dtype, b.dtype);

    let decoded = VectorDelta::decode(&d.encode().unwrap()).unwrap();
    assert_eq!(decoded.base_id, d.base_id);
    assert_eq!(decoded.changes, d.changes);
}

#[test]
fn test_scenario_identical_vectors() {
    let a = bits_vector(&[0.1, 0.2, 0.3, 0.4, 0.5]);
    let b = bits_vector(&[0.1, 0.2, 0.3, 0.4, 0.5]);
    let d = VectorDelta::from_vectors(&a, &b, 5).unwrap();
    assert!(d.changes.is_empty());
    // header-only encoding
    assert_eq!(d.encode().unwrap().len(), 12);
}
