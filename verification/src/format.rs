//! The model weight-buffer format, defined at the specification level.
//!
//! A buffer is, in order and little-endian throughout:
//!
//! * a 13-byte header: magic tag (4 bytes), format version (1 byte), tensor
//!   count (4 bytes), total buffer length (4 bytes, must equal the buffer's
//!   actual length);
//! * one descriptor per tensor: name length (2 bytes) and name bytes,
//!   dimension count (2 bytes) and one 2-byte size per dimension, the byte
//!   offset of the tensor's elements within the data section (2 bytes), and
//!   the tensor's byte length (2 bytes, exactly twice its element count);
//! * the data section: each tensor's elements as 2-byte values, concatenated
//!   in descriptor order with no gaps, ending exactly at the buffer's end.
//!
//! [`parse_model`] is the meaning of a buffer; [`spec_serialize`] is the one
//! buffer a well-formed model serializes to.  The two agree:
//! [`crate::writer`] proves that serializing and then parsing gives the model
//! back.

use vstd::prelude::*;
use crate::bytes::{le16_at, le32_at, le16_bytes, le32_bytes};
use crate::model::{TensorView, dims_positive, shape_product, model_wf};

verus! {

/// Tag that opens every model buffer: the bytes `MWB1`, read little-endian.
pub const MAGIC: u32 = 0x3142_574D;

/// The only format version this library reads.
pub const VERSION: u8 = 1;

/// Bytes in the fixed header.
pub const HEADER_LEN: usize = 13;

/// Why a buffer was rejected by the loader.
#[derive(Clone, Copy, PartialEq, Eq, Structural, Debug)]
pub enum LoadError {
    /// The buffer has zero length.
    Empty,
    /// The buffer is shorter than the header, or its declared lengths,
    /// descriptors and data section do not fit together.
    MalformedHeader,
    /// The magic tag or the version byte is not the supported one.
    UnsupportedFormat,
}

/// One parsed tensor descriptor: name, shape, and the byte offset of the
/// tensor's elements within the data section.
#[verifier::ext_equal]
pub struct DescView {
    pub name: Seq<u8>,
    pub shape: Seq<u16>,
    pub offset: u16,
}

/// Parses the descriptor at `pos`, giving the descriptor and the position
/// just past it, or `None` if it is truncated, has a zero dimension, or
/// declares a byte length other than twice its element count.
pub open spec fn parse_desc(b: Seq<u8>, pos: int) -> Option<(DescView, int)> {
    if pos + 2 > b.len() {
        None
    } else {
        let nl = le16_at(b, pos) as int;
        if pos + 2 + nl + 2 > b.len() {
            None
        } else {
            let name = b.subrange(pos + 2, pos + 2 + nl);
            let dc = le16_at(b, pos + 2 + nl) as int;
            let dpos = pos + 4 + nl;
            if dpos + 2 * dc + 4 > b.len() {
                None
            } else {
                let shape = Seq::new(dc as nat, |i: int| le16_at(b, dpos + 2 * i));
                let offset = le16_at(b, dpos + 2 * dc);
                let byte_len = le16_at(b, dpos + 2 * dc + 2);
                if !dims_positive(shape) || byte_len as nat != 2 * shape_product(shape) {
                    None
                } else {
                    Some((DescView { name, shape, offset }, dpos + 2 * dc + 4))
                }
            }
        }
    }
}

/// Parses `count` consecutive descriptors starting at `pos`, giving them and
/// the position just past the last one: the start of the data section.
pub open spec fn parse_descs(b: Seq<u8>, pos: int, count: nat) -> Option<(Seq<DescView>, int)>
    decreases count,
{
    if count == 0 {
        Some((Seq::empty(), pos))
    } else {
        match parse_desc(b, pos) {
            None => None,
            Some((d, pos2)) => match parse_descs(b, pos2, (count - 1) as nat) {
                None => None,
                Some((rest, end)) => Some((seq![d] + rest, end)),
            },
        }
    }
}

/// The descriptors' offsets tile the data section in order without gaps,
/// starting at `acc`.
pub open spec fn offsets_canonical(descs: Seq<DescView>, acc: int) -> bool
    decreases descs.len(),
{
    if descs.len() == 0 {
        true
    } else {
        &&& descs[0].offset == acc
        &&& offsets_canonical(descs.drop_first(), acc + 2 * shape_product(descs[0].shape))
    }
}

/// Total byte length of the data the descriptors describe.
pub open spec fn descs_data_size(descs: Seq<DescView>) -> nat
    decreases descs.len(),
{
    if descs.len() == 0 {
        0
    } else {
        2 * shape_product(descs[0].shape) + descs_data_size(descs.drop_first())
    }
}

/// The `n` 16-bit elements stored at `start`.
pub open spec fn data_seq_at(b: Seq<u8>, start: int, n: nat) -> Seq<u16> {
    Seq::new(n, |i: int| le16_at(b, start + 2 * i))
}

/// The tensor a descriptor denotes, its elements read from the data section
/// beginning at `data_start`.
pub open spec fn desc_to_tensor(b: Seq<u8>, data_start: int, d: DescView) -> TensorView {
    TensorView {
        name: d.name,
        shape: d.shape,
        data: data_seq_at(b, data_start + d.offset, shape_product(d.shape)),
    }
}

/// The meaning of a raw weight buffer: the parsed model, or the error that
/// rejects the buffer.
pub open spec fn parse_model(b: Seq<u8>) -> Result<Seq<TensorView>, LoadError> {
    if b.len() == 0 {
        Err(LoadError::Empty)
    } else if b.len() < HEADER_LEN {
        Err(LoadError::MalformedHeader)
    } else if le32_at(b, 0) != MAGIC || b[4] != VERSION {
        Err(LoadError::UnsupportedFormat)
    } else if le32_at(b, 9) as int != b.len() {
        Err(LoadError::MalformedHeader)
    } else {
        match parse_descs(b, HEADER_LEN as int, le32_at(b, 5) as nat) {
            None => Err(LoadError::MalformedHeader),
            Some((descs, data_start)) => {
                if offsets_canonical(descs, 0) && data_start + descs_data_size(descs) == b.len() {
                    Ok(Seq::new(descs.len(), |i: int| desc_to_tensor(b, data_start, descs[i])))
                } else {
                    Err(LoadError::MalformedHeader)
                }
            },
        }
    }
}

/// The concatenated little-endian bytes of a sequence of 16-bit values.
pub open spec fn ser_u16s(s: Seq<u16>) -> Seq<u8>
    decreases s.len(),
{
    if s.len() == 0 {
        Seq::empty()
    } else {
        le16_bytes(s[0]) + ser_u16s(s.drop_first())
    }
}

/// Byte length of one serialized descriptor.
pub open spec fn desc_size(t: TensorView) -> nat {
    8 + t.name.len() + 2 * t.shape.len()
}

/// The serialized descriptor of `t`, placed at data-section offset `off`.
pub open spec fn ser_desc(t: TensorView, off: int) -> Seq<u8> {
    le16_bytes(t.name.len() as u16) + t.name + le16_bytes(t.shape.len() as u16) + ser_u16s(t.shape)
        + le16_bytes(off as u16) + le16_bytes((2 * t.data.len()) as u16)
}

/// The serialized descriptors of `m`, the first tensor's data at offset
/// `off`, each later one right after its predecessor.
pub open spec fn ser_descs(m: Seq<TensorView>, off: int) -> Seq<u8>
    decreases m.len(),
{
    if m.len() == 0 {
        Seq::empty()
    } else {
        ser_desc(m[0], off) + ser_descs(m.drop_first(), off + 2 * m[0].data.len())
    }
}

/// The serialized data section of `m`: every tensor's elements in order.
pub open spec fn ser_datas(m: Seq<TensorView>) -> Seq<u8>
    decreases m.len(),
{
    if m.len() == 0 {
        Seq::empty()
    } else {
        ser_u16s(m[0].data) + ser_datas(m.drop_first())
    }
}

/// Byte length of the serialized descriptors of `m`.
pub open spec fn descs_size(m: Seq<TensorView>) -> nat
    decreases m.len(),
{
    if m.len() == 0 {
        0
    } else {
        desc_size(m[0]) + descs_size(m.drop_first())
    }
}

/// Byte length of the serialized data section of `m`.
pub open spec fn data_size(m: Seq<TensorView>) -> nat
    decreases m.len(),
{
    if m.len() == 0 {
        0
    } else {
        2 * m[0].data.len() + data_size(m.drop_first())
    }
}

/// Byte length of the whole serialized buffer of `m`.
pub open spec fn total_size(m: Seq<TensorView>) -> nat {
    (HEADER_LEN + descs_size(m) + data_size(m)) as nat
}

/// A well-formed model whose serialized form fits the format's field widths:
/// 16-bit data offsets and a 32-bit total length.
pub open spec fn fits_format(m: Seq<TensorView>) -> bool {
    &&& model_wf(m)
    &&& data_size(m) <= 0xFFFF
    &&& total_size(m) <= 0xFFFF_FFFF
}

/// The canonical serialized buffer of a model.
pub open spec fn spec_serialize(m: Seq<TensorView>) -> Seq<u8> {
    le32_bytes(MAGIC) + seq![VERSION] + le32_bytes(m.len() as u32) + le32_bytes(
        total_size(m) as u32,
    ) + ser_descs(m, 0) + ser_datas(m)
}

/// `ser_u16s` writes two bytes per element.
pub proof fn lemma_ser_u16s_len(s: Seq<u16>)
    ensures
        ser_u16s(s).len() == 2 * s.len(),
    decreases s.len(),
{
    if s.len() > 0 {
        lemma_ser_u16s_len(s.drop_first());
    }
}

/// The two bytes of element `i` stand at positions `2 * i` and `2 * i + 1`.
pub proof fn lemma_ser_u16s_index(s: Seq<u16>, i: int)
    requires
        0 <= i < s.len(),
    ensures
        ser_u16s(s).len() == 2 * s.len(),
        ser_u16s(s)[2 * i] == le16_bytes(s[i])[0],
        ser_u16s(s)[2 * i + 1] == le16_bytes(s[i])[1],
    decreases s.len(),
{
    lemma_ser_u16s_len(s);
    lemma_ser_u16s_len(s.drop_first());
    if i > 0 {
        lemma_ser_u16s_index(s.drop_first(), i - 1);
    }
}

/// Appending an element appends its two bytes.
pub proof fn lemma_ser_u16s_snoc(s: Seq<u16>, x: u16)
    ensures
        ser_u16s(s.push(x)) == ser_u16s(s) + le16_bytes(x),
    decreases s.len(),
{
    if s.len() == 0 {
        assert(s.push(x)[0] == x);
        assert(s.push(x).drop_first() =~= Seq::<u16>::empty());
        assert(ser_u16s(Seq::<u16>::empty()) =~= Seq::<u8>::empty());
        assert(ser_u16s(s.push(x)) == le16_bytes(x) + ser_u16s(Seq::<u16>::empty()));
        assert(le16_bytes(x) + Seq::<u8>::empty() =~= le16_bytes(x));
        assert(ser_u16s(s) + le16_bytes(x) =~= le16_bytes(x));
    } else {
        assert(s.push(x).drop_first() =~= s.drop_first().push(x));
        lemma_ser_u16s_snoc(s.drop_first(), x);
        assert(s.push(x)[0] == s[0]);
        assert(ser_u16s(s.push(x)) == le16_bytes(s[0]) + (ser_u16s(s.drop_first())
            + le16_bytes(x)));
        assert(le16_bytes(s[0]) + (ser_u16s(s.drop_first()) + le16_bytes(x)) =~= (le16_bytes(s[0])
            + ser_u16s(s.drop_first())) + le16_bytes(x));
    }
}

/// A serialized descriptor is `desc_size` bytes long.
pub proof fn lemma_ser_desc_len(t: TensorView, off: int)
    requires
        t.name.len() <= 0xFFFF,
        t.shape.len() <= 0xFFFF,
    ensures
        ser_desc(t, off).len() == desc_size(t),
{
    lemma_ser_u16s_len(t.shape);
}

/// The serialized descriptors are `descs_size` bytes long.
pub proof fn lemma_ser_descs_len(m: Seq<TensorView>, off: int)
    requires
        model_wf(m),
    ensures
        ser_descs(m, off).len() == descs_size(m),
    decreases m.len(),
{
    if m.len() > 0 {
        crate::model::lemma_model_wf_drop_first(m);
        lemma_ser_desc_len(m[0], off);
        lemma_ser_descs_len(m.drop_first(), off + 2 * m[0].data.len());
    }
}

/// The serialized data section is `data_size` bytes long.
pub proof fn lemma_ser_datas_len(m: Seq<TensorView>)
    ensures
        ser_datas(m).len() == data_size(m),
    decreases m.len(),
{
    if m.len() > 0 {
        lemma_ser_u16s_len(m[0].data);
        lemma_ser_datas_len(m.drop_first());
    }
}

/// The serialized buffer is `total_size` bytes long.
pub proof fn lemma_spec_serialize_len(m: Seq<TensorView>)
    requires
        model_wf(m),
    ensures
        spec_serialize(m).len() == total_size(m),
{
    lemma_ser_descs_len(m, 0);
    lemma_ser_datas_len(m);
}

} // verus!
