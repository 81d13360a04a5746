use greppy::tensor::{GgmlType, Tensor};

#[test]
fn type_size_q4_k_is_144() {
    assert_eq!(GgmlType::Q4_K.type_size(), 144);
    assert_eq!(GgmlType::Q4_K.block_size(), 256);
}

#[test]
fn type_size_bf16_is_2() {
    assert_eq!(GgmlType::Bf16.type_size(), 2);
    assert_eq!(GgmlType::Bf16.block_size(), 1);
}

#[test]
fn contiguous_strides_f32_row_major() {
    let nb = Tensor::make_contiguous_strides(GgmlType::F32, [4, 8, 1, 1]);
    assert_eq!(nb, [4, 16, 128, 128]);
}

#[test]
fn contiguous_strides_q4_k() {
    let nb = Tensor::make_contiguous_strides(GgmlType::Q4_K, [256, 2, 1, 1]);
    assert_eq!(nb[0], 144);
    assert_eq!(nb[1], 144);
}

#[test]
fn raw_codes_round_trip() {
    for raw in 0u32..64 {
        if let Some(t) = GgmlType::from_raw(raw) {
            assert_eq!(t.raw(), raw);
        }
    }
    assert_eq!(GgmlType::from_raw(30), Some(GgmlType::Bf16));
    assert_eq!(GgmlType::from_raw(4), None);
    assert_eq!(GgmlType::from_raw(29), None);
    assert_eq!(GgmlType::Q6_K.name(), "q6_K");
}

#[test]
fn element_count_and_byte_length() {
    let t = Tensor {
        name: "w".to_string(),
        dtype: GgmlType::Q8_0,
        ne: [64, 3, 2, 1],
        nb: [0; 4],
        offset: 0,
    };
    assert_eq!(t.n_elements(), 384);
    assert_eq!(t.nbytes(), 384 / 32 * 34);
}

#[test]
fn contiguous_strides_span_the_tensor_bytes() {
    let ne = [512i64, 3, 2, 2];
    let nb = Tensor::make_contiguous_strides(GgmlType::Q4_K, ne);
    let t = Tensor { name: "w".into(), dtype: GgmlType::Q4_K, ne, nb, offset: 0 };
    assert_eq!(t.nbytes() as u64, nb[3] * ne[3] as u64);
}
