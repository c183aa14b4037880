//! Bounds-checked views over linear memory.
//!
//! A view is a validated `(base address, element count, element size)`
//! window.  Constructing one is the only place a raw address/length pair is
//! judged; every element access is bounds-checked against the view.  Address
//! zero is the null address: it heads no non-empty view.

use vstd::prelude::*;
use crate::bytes::{le32_at, le32_bytes, read_le32};

verus! {

/// The error of a rejected address/length pair.
#[derive(Clone, Copy, PartialEq, Eq, Structural, Debug)]
pub struct InvalidBuffer;

/// A span of `count` elements of `elem_size` bytes starting at byte address
/// `base` is addressable in a memory of `mem_len` bytes, and is not headed
/// by the null address unless it is empty.
pub open spec fn span_ok(mem_len: int, base: int, count: int, elem_size: int) -> bool {
    &&& (count > 0 ==> base != 0)
    &&& base + count * elem_size <= mem_len
}

/// Null safety: a span headed by the null address with a non-zero element
/// count is never a valid view, whatever the memory size, so every operation
/// handed such a span leaves model state and memory untouched.
pub proof fn lemma_null_span_invalid(mem_len: int, count: int, elem_size: int)
    requires
        count > 0,
    ensures
        !span_ok(mem_len, 0, count, elem_size),
{
}

/// A validated, non-owning window into linear memory.  Holds no storage of
/// its own: only the window's coordinates.
pub struct BufferView {
    pub base: usize,
    pub count: usize,
    pub elem_size: usize,
}

impl BufferView {
    /// The view lies within a memory of `mem_len` bytes.
    pub open spec fn wf(&self, mem_len: int) -> bool {
        span_ok(mem_len, self.base as int, self.count as int, self.elem_size as int)
    }
}

/// Validates an address/length pair against the memory size, giving a view
/// on success and `InvalidBuffer` on a null non-empty span or one that would
/// run past the end of memory.
pub fn make_view(mem_len: usize, base: usize, count: usize, elem_size: usize) -> (r: Result<
    BufferView,
    InvalidBuffer,
>)
    requires
        elem_size >= 1,
    ensures
        match r {
            Ok(v) => span_ok(mem_len as int, base as int, count as int, elem_size as int)
                && v.base == base && v.count == count && v.elem_size == elem_size,
            Err(InvalidBuffer) => !span_ok(
                mem_len as int,
                base as int,
                count as int,
                elem_size as int,
            ),
        },
{
    if count > 0 && base == 0 {
        return Err(InvalidBuffer);
    }
    if base > mem_len {
        proof {
            assert((count as int) * (elem_size as int) >= 0) by (nonlinear_arith)
                requires
                    count as int >= 0,
                    elem_size as int >= 0,
            ;
        }
        return Err(InvalidBuffer);
    }
    proof {
        assert((count as int) * (elem_size as int) <= (u64::MAX as int) * (u64::MAX as int))
            by (nonlinear_arith)
            requires
                0 <= count as int <= u64::MAX,
                0 <= elem_size as int <= u64::MAX,
        ;
    }
    let span_bytes: u128 = (count as u128) * (elem_size as u128);
    if span_bytes > (mem_len - base) as u128 {
        return Err(InvalidBuffer);
    }
    Ok(BufferView { base, count, elem_size })
}

/// Reads element `i` of a view of 32-bit elements.
pub fn view_read_u32(mem: &Vec<u8>, v: &BufferView, i: usize) -> (r: u32)
    requires
        v.wf(mem@.len() as int),
        v.elem_size == 4,
        i < v.count,
    ensures
        r == le32_at(mem@, v.base + 4 * (i as int)),
{
    let _n: usize = mem.len();
    proof {
        assert(4 * (i as int) + 4 <= (v.count as int) * 4);
    }
    read_le32(mem, v.base + 4 * i)
}

/// Writes element `i` of a view of 32-bit elements, touching exactly that
/// element's four bytes.
pub fn view_write_u32(mem: &mut Vec<u8>, v: &BufferView, i: usize, val: u32)
    requires
        v.wf(old(mem)@.len() as int),
        v.elem_size == 4,
        i < v.count,
    ensures
        final(mem)@.len() == old(mem)@.len(),
        forall|k: int|
            0 <= k < old(mem)@.len() && !(v.base + 4 * (i as int) <= k < v.base + 4 * (i as int)
                + 4) ==> final(mem)@[k] == old(mem)@[k],
        forall|r: int|
            0 <= r < 4 ==> final(mem)@[v.base + 4 * (i as int) + r] == le32_bytes(val)[r],
{
    let _n: usize = mem.len();
    proof {
        assert(4 * (i as int) + 4 <= (v.count as int) * 4);
    }
    let p: usize = v.base + 4 * i;
    mem.set(p, (val % 256) as u8);
    mem.set(p + 1, ((val / 256) % 256) as u8);
    mem.set(p + 2, ((val / 65536) % 256) as u8);
    mem.set(p + 3, (val / 16777216) as u8);
}

} // verus!
