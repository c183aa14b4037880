use wasm_engine::entry::{load_model, run_inference};
use wasm_engine::state::ModelState;
use wasm_engine::view::make_view;

fn push_u16(out: &mut Vec<u8>, x: u16) {
    out.extend_from_slice(&x.to_le_bytes());
}

fn push_u32(out: &mut Vec<u8>, x: u32) {
    out.extend_from_slice(&x.to_le_bytes());
}

const MAGIC: u32 = 0x3142_574D;

fn header(count: u32, total: u32) -> Vec<u8> {
    let mut b = Vec::new();
    push_u32(&mut b, MAGIC);
    b.push(1u8);
    push_u32(&mut b, count);
    push_u32(&mut b, total);
    b
}

fn descriptor(name: &[u8], dims: &[u16], offset: u16, byte_len: u16) -> Vec<u8> {
    let mut b = Vec::new();
    push_u16(&mut b, name.len() as u16);
    b.extend_from_slice(name);
    push_u16(&mut b, dims.len() as u16);
    for d in dims {
        push_u16(&mut b, *d);
    }
    push_u16(&mut b, offset);
    push_u16(&mut b, byte_len);
    b
}

fn two_tensor_buffer() -> Vec<u8> {
    let mut b = header(2, 64);
    b.extend_from_slice(&descriptor(b"embed", &[4, 2], 0, 16));
    b.extend_from_slice(&descriptor(b"bias", &[2], 16, 4));
    for x in [10u16, 20, 30, 5, 7, 7, 0, 1, 1, 2] {
        push_u16(&mut b, x);
    }
    b
}

/// A model without the embedding architecture: its forward pass is the
/// identity.
fn empty_model_buffer() -> Vec<u8> {
    header(0, 13)
}

/// Linear memory with `buf` at byte address 8, input tokens at `IN_PTR`, and
/// output space at `OUT_PTR` filled with the sentinel byte 0xEE.
const IN_PTR: usize = 96;
const OUT_PTR: usize = 144;

fn memory_with(buf: &[u8], input: &[u32]) -> Vec<u8> {
    let mut mem = vec![0xEEu8; 208];
    mem[8..8 + buf.len()].copy_from_slice(buf);
    let mut p = IN_PTR;
    for t in input {
        mem[p..p + 4].copy_from_slice(&t.to_le_bytes());
        p += 4;
    }
    mem
}

fn read_u32(mem: &[u8], p: usize) -> u32 {
    u32::from_le_bytes([mem[p], mem[p + 1], mem[p + 2], mem[p + 3]])
}

#[test]
fn scenario_two_tensor_model() {
    // embed: [[10, 20], [30, 5], [7, 7], [0, 1]], bias: [1, 2].
    // Logits per token: 0 -> [11, 22], 1 -> [31, 7], 2 -> [8, 9], 3 -> [1, 3];
    // the argmax indices give [1, 0, 1, 1].
    let buf = two_tensor_buffer();
    assert_eq!(buf.len(), 64);
    let mut mem = memory_with(&buf, &[0, 1, 2, 3]);
    let mut state = ModelState::new();
    load_model(&mut state, &mem, 8, 64);
    assert!(state.get_state().is_some());
    let written = run_inference(&state, &mut mem, IN_PTR, 4, OUT_PTR, 4);
    assert_eq!(written, 4);
    let out: Vec<u32> = (0..4).map(|i| read_u32(&mem, OUT_PTR + 4 * i)).collect();
    assert_eq!(out, vec![1, 0, 1, 1]);
}

#[test]
fn out_of_vocabulary_token_ends_generation() {
    let buf = two_tensor_buffer();
    let mut mem = memory_with(&buf, &[0, 9, 2]);
    let mut state = ModelState::new();
    load_model(&mut state, &mem, 8, 64);
    let written = run_inference(&state, &mut mem, IN_PTR, 3, OUT_PTR, 3);
    assert_eq!(written, 1);
    assert_eq!(read_u32(&mem, OUT_PTR), 1);
    assert_eq!(mem[OUT_PTR + 4], 0xEE);
}

#[test]
fn echo_model_copies_input() {
    let buf = empty_model_buffer();
    let mut mem = memory_with(&buf, &[1, 2, 3]);
    let mut state = ModelState::new();
    load_model(&mut state, &mem, 8, buf.len());
    assert!(state.get_state().is_some());
    let written = run_inference(&state, &mut mem, IN_PTR, 3, OUT_PTR, 3);
    assert_eq!(written, 3);
    let out: Vec<u32> = (0..3).map(|i| read_u32(&mem, OUT_PTR + 4 * i)).collect();
    assert_eq!(out, vec![1, 2, 3]);
}

#[test]
fn echo_model_respects_capacity() {
    let buf = empty_model_buffer();
    let mut mem = memory_with(&buf, &[1, 2, 3]);
    let mut state = ModelState::new();
    load_model(&mut state, &mem, 8, buf.len());
    let written = run_inference(&state, &mut mem, IN_PTR, 3, OUT_PTR, 2);
    assert_eq!(written, 2);
    assert_eq!(read_u32(&mem, OUT_PTR), 1);
    assert_eq!(read_u32(&mem, OUT_PTR + 4), 2);
    // The third element's bytes were never written.
    for k in 0..4 {
        assert_eq!(mem[OUT_PTR + 8 + k], 0xEE);
    }
}

#[test]
fn no_model_writes_nothing() {
    let mut mem = memory_with(&[], &[5, 6, 7]);
    let before = mem.clone();
    let state = ModelState::new();
    let written = run_inference(&state, &mut mem, IN_PTR, 3, OUT_PTR, 3);
    assert_eq!(written, 0);
    assert_eq!(mem, before);
}

#[test]
fn null_load_leaves_state_untouched() {
    let buf = two_tensor_buffer();
    let mut mem = memory_with(&buf, &[0]);
    let mut state = ModelState::new();
    load_model(&mut state, &mem, 8, 64);
    assert!(state.get_state().is_some());
    // Null pointer with non-zero length: a silent no-op.
    load_model(&mut state, &mem, 0, 10);
    assert!(state.get_state().is_some());
    let written = run_inference(&state, &mut mem, IN_PTR, 1, OUT_PTR, 1);
    assert_eq!(written, 1);
    assert_eq!(read_u32(&mem, OUT_PTR), 1);
}

#[test]
fn null_inference_pointers_write_nothing() {
    let buf = two_tensor_buffer();
    let mut mem = memory_with(&buf, &[0, 1]);
    let mut state = ModelState::new();
    load_model(&mut state, &mem, 8, 64);
    let before = mem.clone();
    assert_eq!(run_inference(&state, &mut mem, 0, 2, OUT_PTR, 2), 0);
    assert_eq!(mem, before);
    assert_eq!(run_inference(&state, &mut mem, IN_PTR, 2, 0, 2), 0);
    assert_eq!(mem, before);
}

#[test]
fn out_of_bounds_spans_write_nothing() {
    let buf = two_tensor_buffer();
    let mut mem = memory_with(&buf, &[0, 1]);
    let mut state = ModelState::new();
    load_model(&mut state, &mem, 8, 64);
    let before = mem.clone();
    let len = mem.len();
    assert_eq!(run_inference(&state, &mut mem, len, 2, OUT_PTR, 2), 0);
    assert_eq!(mem, before);
    assert_eq!(run_inference(&state, &mut mem, IN_PTR, 2, len - 4, 2), 0);
    assert_eq!(mem, before);
}

#[test]
fn failed_load_keeps_previous_model() {
    let buf = two_tensor_buffer();
    let mut mem = memory_with(&buf, &[0, 1, 2, 3]);
    let mut state = ModelState::new();
    load_model(&mut state, &mem, 8, 64);
    // A malformed buffer (wrong magic) must not disturb the loaded model.
    let mut bad = two_tensor_buffer();
    bad[0] = 0xFF;
    let mut mem2 = memory_with(&bad, &[0, 1, 2, 3]);
    load_model(&mut state, &mem2, 8, 64);
    let written = run_inference(&state, &mut mem2, IN_PTR, 4, OUT_PTR, 4);
    assert_eq!(written, 4);
    let out: Vec<u32> = (0..4).map(|i| read_u32(&mem2, OUT_PTR + 4 * i)).collect();
    assert_eq!(out, vec![1, 0, 1, 1]);
    let _ = mem;
}

#[test]
fn inference_is_deterministic() {
    let buf = two_tensor_buffer();
    let mut mem = memory_with(&buf, &[3, 2, 1, 0]);
    let mut state = ModelState::new();
    load_model(&mut state, &mem, 8, 64);
    let w1 = run_inference(&state, &mut mem, IN_PTR, 4, OUT_PTR, 4);
    let out1: Vec<u32> = (0..4).map(|i| read_u32(&mem, OUT_PTR + 4 * i)).collect();
    let w2 = run_inference(&state, &mut mem, IN_PTR, 4, OUT_PTR, 4);
    let out2: Vec<u32> = (0..4).map(|i| read_u32(&mem, OUT_PTR + 4 * i)).collect();
    assert_eq!(w1, w2);
    assert_eq!(out1, out2);
}

#[test]
fn clear_state_unloads_the_model() {
    let buf = two_tensor_buffer();
    let mut mem = memory_with(&buf, &[0]);
    let mut state = ModelState::new();
    load_model(&mut state, &mem, 8, 64);
    assert!(state.get_state().is_some());
    state.clear_state();
    assert!(state.get_state().is_none());
    let before = mem.clone();
    assert_eq!(run_inference(&state, &mut mem, IN_PTR, 1, OUT_PTR, 1), 0);
    assert_eq!(mem, before);
}

#[test]
fn zero_capacity_writes_nothing() {
    let buf = two_tensor_buffer();
    let mut mem = memory_with(&buf, &[0, 1]);
    let mut state = ModelState::new();
    load_model(&mut state, &mem, 8, 64);
    let before = mem.clone();
    assert_eq!(run_inference(&state, &mut mem, IN_PTR, 2, OUT_PTR, 0), 0);
    assert_eq!(mem, before);
}

#[test]
fn make_view_validates_spans() {
    assert!(make_view(100, 0, 5, 1).is_err());
    assert!(make_view(100, 0, 0, 1).is_ok());
    assert!(make_view(100, 96, 1, 4).is_ok());
    assert!(make_view(100, 97, 1, 4).is_err());
    assert!(make_view(100, 200, 1, 1).is_err());
    let v = make_view(100, 8, 4, 4).unwrap();
    assert_eq!(v.base, 8);
    assert_eq!(v.count, 4);
    assert_eq!(v.elem_size, 4);
}
