use wasm_engine::format::LoadError;
use wasm_engine::loader::load;
use wasm_engine::model::{ModelWeights, Tensor};
use wasm_engine::writer::serialize_model;

fn push_u16(out: &mut Vec<u8>, x: u16) {
    out.extend_from_slice(&x.to_le_bytes());
}

fn push_u32(out: &mut Vec<u8>, x: u32) {
    out.extend_from_slice(&x.to_le_bytes());
}

const MAGIC: u32 = 0x3142_574D;

fn header(count: u32, total: u32) -> Vec<u8> {
    let mut b = Vec::new();
    push_u32(&mut b, MAGIC);
    b.push(1u8);
    push_u32(&mut b, count);
    push_u32(&mut b, total);
    b
}

fn descriptor(name: &[u8], dims: &[u16], offset: u16, byte_len: u16) -> Vec<u8> {
    let mut b = Vec::new();
    push_u16(&mut b, name.len() as u16);
    b.extend_from_slice(name);
    push_u16(&mut b, dims.len() as u16);
    for d in dims {
        push_u16(&mut b, *d);
    }
    push_u16(&mut b, offset);
    push_u16(&mut b, byte_len);
    b
}

/// The two-tensor test model: `embed` of shape `[4, 2]`, `bias` of shape
/// `[2]`, in exactly 64 bytes.
fn two_tensor_buffer() -> Vec<u8> {
    let mut b = header(2, 64);
    b.extend_from_slice(&descriptor(b"embed", &[4, 2], 0, 16));
    b.extend_from_slice(&descriptor(b"bias", &[2], 16, 4));
    for x in [10u16, 20, 30, 5, 7, 7, 0, 1, 1, 2] {
        push_u16(&mut b, x);
    }
    assert_eq!(b.len(), 64);
    b
}

#[test]
fn load_empty_buffer_is_rejected() {
    assert_eq!(load(&Vec::new()).err(), Some(LoadError::Empty));
}

#[test]
fn load_short_buffer_is_malformed() {
    assert_eq!(load(&vec![0x4D, 0x57, 0x42]).err(), Some(LoadError::MalformedHeader));
}

#[test]
fn load_bad_magic_is_unsupported() {
    let mut b = two_tensor_buffer();
    b[0] = 0xFF;
    assert_eq!(load(&b).err(), Some(LoadError::UnsupportedFormat));
}

#[test]
fn load_bad_version_is_unsupported() {
    let mut b = two_tensor_buffer();
    b[4] = 9;
    assert_eq!(load(&b).err(), Some(LoadError::UnsupportedFormat));
}

#[test]
fn load_wrong_total_length_is_malformed() {
    let mut b = two_tensor_buffer();
    b[9] = 63;
    assert_eq!(load(&b).err(), Some(LoadError::MalformedHeader));
}

#[test]
fn load_truncated_descriptors_is_malformed() {
    let b = header(3, 13);
    assert_eq!(load(&b).err(), Some(LoadError::MalformedHeader));
}

#[test]
fn load_zero_dimension_is_malformed() {
    let mut b = header(1, 13 + 11 + 0);
    b.extend_from_slice(&descriptor(b"t", &[0], 0, 0));
    assert_eq!(b.len(), 24);
    assert_eq!(load(&b).err(), Some(LoadError::MalformedHeader));
}

#[test]
fn load_wrong_byte_length_is_malformed() {
    let mut b = header(1, 13 + 11 + 4);
    b.extend_from_slice(&descriptor(b"t", &[2], 0, 4 + 2));
    push_u16(&mut b, 1);
    push_u16(&mut b, 2);
    assert_eq!(load(&b).err(), Some(LoadError::MalformedHeader));
}

#[test]
fn load_noncanonical_offset_is_malformed() {
    let mut b = header(1, 13 + 11 + 4);
    // The single tensor's data must start at offset 0.
    b.extend_from_slice(&descriptor(b"t", &[2], 2, 4));
    push_u16(&mut b, 1);
    push_u16(&mut b, 2);
    assert_eq!(load(&b).err(), Some(LoadError::MalformedHeader));
}

#[test]
fn load_two_tensor_model() {
    let w = load(&two_tensor_buffer()).unwrap();
    assert_eq!(w.tensors.len(), 2);
    assert_eq!(w.tensors[0].name, b"embed".to_vec());
    assert_eq!(w.tensors[0].shape, vec![4, 2]);
    assert_eq!(w.tensors[0].data, vec![10, 20, 30, 5, 7, 7, 0, 1]);
    assert_eq!(w.tensors[1].name, b"bias".to_vec());
    assert_eq!(w.tensors[1].shape, vec![2]);
    assert_eq!(w.tensors[1].data, vec![1, 2]);
}

#[test]
fn load_empty_model_buffer() {
    // A model of zero tensors: the 13-byte header alone.
    let b = header(0, 13);
    let w = load(&b).unwrap();
    assert_eq!(w.tensors.len(), 0);
}

#[test]
fn serialize_then_load_reproduces_tensors() {
    let w = ModelWeights {
        tensors: vec![
            Tensor { name: b"embed".to_vec(), shape: vec![4, 2], data: vec![10, 20, 30, 5, 7, 7, 0, 1] },
            Tensor { name: b"bias".to_vec(), shape: vec![2], data: vec![1, 2] },
        ],
    };
    let b = serialize_model(&w).unwrap();
    assert_eq!(b.len(), 64);
    assert_eq!(b, two_tensor_buffer());
    let w2 = load(&b).unwrap();
    assert_eq!(w2.tensors.len(), 2);
    for (a, c) in w.tensors.iter().zip(w2.tensors.iter()) {
        assert_eq!(a.name, c.name);
        assert_eq!(a.shape, c.shape);
        assert_eq!(a.data, c.data);
    }
}

#[test]
fn serialize_oversized_data_section_is_refused() {
    // Three tensors of 16000 elements each: 96000 data bytes, more than the
    // 16-bit offset field can address.
    let tensors: Vec<Tensor> = (0..3)
        .map(|i| Tensor {
            name: vec![b'a' + i as u8],
            shape: vec![16000],
            data: vec![7u16; 16000],
        })
        .collect();
    let w = ModelWeights { tensors };
    assert!(serialize_model(&w).is_none());
}

#[test]
fn serialize_scalar_tensor_roundtrip() {
    // A tensor with a single dimension of size one.
    let w = ModelWeights {
        tensors: vec![Tensor { name: b"k".to_vec(), shape: vec![1], data: vec![42] }],
    };
    let b = serialize_model(&w).unwrap();
    let w2 = load(&b).unwrap();
    assert_eq!(w2.tensors[0].name, b"k".to_vec());
    assert_eq!(w2.tensors[0].shape, vec![1]);
    assert_eq!(w2.tensors[0].data, vec![42]);
}
