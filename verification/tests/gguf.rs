use greppy::gguf::{
    read_string, GgufError, GgufModel, Reader, TensorInfo, Value, ValueType, VersionedMagic,
};
use greppy::tensor::GgmlType;

struct Builder {
    bytes: Vec<u8>,
}

impl Builder {
    fn new(version: u32, tensors: u64, metadata: u64) -> Self {
        let mut b = Builder { bytes: Vec::new() };
        b.bytes.extend_from_slice(b"GGUF");
        b.u32(version);
        b.u64(tensors);
        b.u64(metadata);
        b
    }
    fn u32(&mut self, v: u32) {
        self.bytes.extend_from_slice(&v.to_le_bytes());
    }
    fn u64(&mut self, v: u64) {
        self.bytes.extend_from_slice(&v.to_le_bytes());
    }
    fn string(&mut self, s: &[u8]) {
        self.u64(s.len() as u64);
        self.bytes.extend_from_slice(s);
    }
    fn kv_u32(&mut self, key: &str, v: u32) {
        self.string(key.as_bytes());
        self.u32(4);
        self.u32(v);
    }
    fn kv_str(&mut self, key: &str, v: &[u8]) {
        self.string(key.as_bytes());
        self.u32(8);
        self.string(v);
    }
    fn tensor(&mut self, name: &str, dims: &[u64], dtype: u32, offset: u64) {
        self.string(name.as_bytes());
        self.u32(dims.len() as u32);
        for d in dims {
            self.u64(*d);
        }
        self.u32(dtype);
        self.u64(offset);
    }
    fn pad_to(&mut self, align: usize) {
        while self.bytes.len() % align != 0 {
            self.bytes.push(0);
        }
    }
}

fn sample() -> Vec<u8> {
    let mut b = Builder::new(3, 1, 2);
    b.kv_str("general.architecture", b"gemma\0\0");
    b.kv_u32("gemma.block_count", 12);
    b.tensor("w", &[4, 2], 0, 0);
    b.pad_to(32);
    for i in 0..32u8 {
        b.bytes.push(i);
    }
    b.bytes
}

#[test]
fn parses_header_metadata_and_tensor() {
    let data = sample();
    let model = GgufModel::from_bytes(&data).expect("parse");
    assert_eq!(model.magic(), VersionedMagic::GgufV3);
    assert_eq!(model.metadata().len(), 2);
    assert_eq!(model.metadata_str("general.architecture").unwrap(), "gemma");
    assert_eq!(model.metadata_u32("gemma.block_count").unwrap(), 12);
    assert_eq!(model.metadata_u32("general.architecture"), Err(GgufError::MetadataType));
    assert_eq!(model.metadata_str("missing"), Err(GgufError::MetadataType));
    assert_eq!(model.tensor_data_offset() % 32, 0);
    assert_eq!(model.file_len(), data.len());
    let t = model.tensor(&data, "w").expect("tensor");
    assert_eq!(t.dtype, GgmlType::F32);
    assert_eq!(t.shape, &[2, 4]);
    assert_eq!(t.raw_bytes.len(), 32);
    assert_eq!(t.raw_bytes[0], 0);
    assert_eq!(t.element_count(), 8);
    assert!(matches!(model.tensor(&data, "nope"), Err(GgufError::MissingTensor)));
}

#[test]
fn refuses_unknown_magic_and_version() {
    let mut data = sample();
    data[0] = b'X';
    assert!(matches!(GgufModel::from_bytes(&data), Err(GgufError::UnknownMagic(_))));
    let mut data = sample();
    data[4] = 4;
    assert!(matches!(
        GgufModel::from_bytes(&data),
        Err(GgufError::UnsupportedVersion(4))
    ));
}

#[test]
fn refuses_truncated_files() {
    assert!(matches!(GgufModel::from_bytes(b"GG"), Err(GgufError::Truncated)));
    let data = sample();
    assert!(GgufModel::from_bytes(&data[..40]).is_err());
}

#[test]
fn refuses_tensor_past_end_of_file() {
    let mut b = Builder::new(3, 1, 0);
    b.tensor("w", &[1024], 0, 0);
    b.pad_to(32);
    assert!(matches!(
        GgufModel::from_bytes(&b.bytes),
        Err(GgufError::TensorPastEnd)
    ));
}

#[test]
fn refuses_zero_alignment_and_honours_custom_alignment() {
    let mut b = Builder::new(3, 0, 1);
    b.kv_u32("general.alignment", 0);
    assert!(matches!(
        GgufModel::from_bytes(&b.bytes),
        Err(GgufError::ZeroAlignment)
    ));
    let mut b = Builder::new(3, 0, 1);
    b.kv_u32("general.alignment", 64);
    b.pad_to(64);
    let model = GgufModel::from_bytes(&b.bytes).unwrap();
    assert_eq!(model.tensor_data_offset(), 64);
}

#[test]
fn later_metadata_entry_wins() {
    let mut b = Builder::new(3, 0, 2);
    b.kv_u32("k", 1);
    b.kv_u32("k", 2);
    b.pad_to(32);
    let model = GgufModel::from_bytes(&b.bytes).unwrap();
    assert_eq!(model.metadata_u32("k").unwrap(), 2);
}

#[test]
fn reads_nested_arrays_and_rejects_bad_bools() {
    let mut b = Builder::new(3, 0, 1);
    b.string(b"arr");
    b.u32(9); // array
    b.u32(9); // of arrays
    b.u64(1);
    b.u32(0); // of u8
    b.u64(3);
    b.bytes.extend_from_slice(&[7, 8, 9]);
    b.pad_to(32);
    let model = GgufModel::from_bytes(&b.bytes).unwrap();
    let v = model.metadata_get("arr").unwrap();
    assert_eq!(v.value_type(), ValueType::Array);
    let outer = v.as_array().unwrap();
    assert_eq!(outer.len(), 1);
    let inner = outer[0].as_array().unwrap();
    assert!(matches!(inner[2], Value::U8(9)));

    let mut b = Builder::new(3, 0, 1);
    b.string(b"flag");
    b.u32(7);
    b.bytes.push(2);
    assert!(matches!(
        GgufModel::from_bytes(&b.bytes),
        Err(GgufError::InvalidBool(2))
    ));
}

#[test]
fn reads_version_one_lengths() {
    let mut bytes = Vec::new();
    bytes.extend_from_slice(b"GGUF");
    bytes.extend_from_slice(&1u32.to_le_bytes());
    bytes.extend_from_slice(&0u32.to_le_bytes());
    bytes.extend_from_slice(&0u32.to_le_bytes());
    bytes.resize(32, 0);
    let model = GgufModel::from_bytes(&bytes).unwrap();
    assert_eq!(model.magic(), VersionedMagic::GgufV1);
    assert_eq!(VersionedMagic::GgufV1.length_prefix_size(), 4);
    assert_eq!(ValueType::Array.min_disk_size(VersionedMagic::GgufV2), 12);
}

#[test]
fn string_drops_trailing_nuls() {
    let mut bytes = Vec::new();
    bytes.extend_from_slice(&5u64.to_le_bytes());
    bytes.extend_from_slice(b"ab\0\0\0");
    let mut r = Reader::new(&bytes);
    assert_eq!(read_string(&mut r, VersionedMagic::GgufV3).unwrap(), "ab");
    assert_eq!(r.position(), 13);
}

#[test]
fn tensor_info_byte_lengths() {
    let q = TensorInfo { dtype: GgmlType::Q4_K, shape: vec![256, 2], offset: 0 };
    assert_eq!(q.byte_len().unwrap(), 288);
    assert_eq!(q.checked_element_count().unwrap(), 512);
    let bad = TensorInfo { dtype: GgmlType::Q4_K, shape: vec![100], offset: 0 };
    assert_eq!(bad.byte_len(), Err(GgufError::NotWholeBlocks));
    let huge = TensorInfo { dtype: GgmlType::F32, shape: vec![usize::MAX, 2], offset: 0 };
    assert_eq!(huge.element_count(), usize::MAX);
    assert_eq!(huge.checked_element_count(), Err(GgufError::ElementCountOverflow));
    assert_eq!(ValueType::from_u32(13), Err(GgufError::UnknownValueType(13)));
}

#[test]
fn data_offset_past_end_is_refused() {
    let b = Builder::new(3, 0, 0);
    assert!(matches!(
        GgufModel::from_bytes(&b.bytes),
        Err(GgufError::DataOffsetPastEnd)
    ));
}

#[test]
fn shadowed_tensor_entries_are_dropped() {
    let mut b = Builder::new(3, 3, 0);
    b.tensor("w", &[1024], 0, 0);
    b.tensor("v", &[2], 0, 0);
    b.tensor("w", &[2], 0, 8);
    b.pad_to(32);
    for i in 0..16u8 {
        b.bytes.push(i);
    }
    let model = GgufModel::from_bytes(&b.bytes).expect("shadowed entry is not checked");
    let names: Vec<&str> = model.tensor_infos().iter().map(|(n, _)| n.as_str()).collect();
    assert_eq!(names, vec!["v", "w"]);
    assert_eq!(model.tensor_infos()[1].1.offset, 8);
    assert!(model.tensor(&b.bytes, "w").is_ok());
}
