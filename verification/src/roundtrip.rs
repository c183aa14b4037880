//! The round-trip law: serializing a well-formed model and parsing the
//! resulting buffer gives the model back, tensor for tensor — names, shapes
//! and elements exactly.

use vstd::prelude::*;
use crate::bytes::{
    le16_at, le16_bytes, le32_bytes, lemma_le16_roundtrip, lemma_le32_roundtrip,
};
use crate::format::{
    data_seq_at, data_size, desc_size, desc_to_tensor, descs_data_size, descs_size, fits_format,
    lemma_ser_datas_len, lemma_ser_desc_len, lemma_ser_descs_len, lemma_ser_u16s_index,
    lemma_ser_u16s_len, lemma_spec_serialize_len, offsets_canonical, parse_desc, parse_descs,
    parse_model, ser_datas, ser_desc, ser_descs, ser_u16s, spec_serialize, total_size, DescView,
    LoadError, HEADER_LEN, MAGIC, VERSION,
};
use crate::model::{
    lemma_model_wf_drop_first, model_wf, shape_product, tensor_wf, TensorView,
};

verus! {

/// The bytes of `s` stand in `b` starting at `pos`.
pub open spec fn has_bytes(b: Seq<u8>, pos: int, s: Seq<u8>) -> bool {
    &&& 0 <= pos
    &&& pos + s.len() <= b.len()
    &&& forall|k: int| 0 <= k < s.len() ==> b[pos + k] == #[trigger] s[k]
}

/// Bytes of a concatenation stand in `b` part by part.
pub proof fn lemma_has_bytes_split(b: Seq<u8>, pos: int, x: Seq<u8>, y: Seq<u8>)
    requires
        has_bytes(b, pos, x + y),
    ensures
        has_bytes(b, pos, x),
        has_bytes(b, pos + x.len(), y),
{
    assert forall|k: int| 0 <= k < x.len() implies b[pos + k] == #[trigger] x[k] by {
        assert((x + y)[k] == x[k]);
    }
    assert forall|k: int| 0 <= k < y.len() implies b[pos + x.len() + k] == #[trigger] y[k] by {
        assert((x + y)[x.len() + k] == y[k]);
    }
}

/// The descriptors the serializer writes for `m`, the first tensor's data at
/// offset `off`.
pub open spec fn model_descs(m: Seq<TensorView>, off: int) -> Seq<DescView>
    decreases m.len(),
{
    if m.len() == 0 {
        Seq::empty()
    } else {
        seq![DescView { name: m[0].name, shape: m[0].shape, offset: off as u16 }] + model_descs(
            m.drop_first(),
            off + 2 * m[0].data.len(),
        )
    }
}

/// A serialized descriptor parses back to its fields.
pub proof fn lemma_parse_desc_ser(b: Seq<u8>, pos: int, t: TensorView, off: int)
    requires
        tensor_wf(t),
        0 <= off <= 0xFFFF,
        has_bytes(b, pos, ser_desc(t, off)),
    ensures
        parse_desc(b, pos) == Some(
            (
                DescView { name: t.name, shape: t.shape, offset: off as u16 },
                pos + desc_size(t),
            ),
        ),
{
    let a = le16_bytes(t.name.len() as u16);
    let bb = le16_bytes(t.shape.len() as u16);
    let dd = ser_u16s(t.shape);
    let oo = le16_bytes(off as u16);
    let ll = le16_bytes((2 * t.data.len()) as u16);
    lemma_ser_u16s_len(t.shape);
    assert(ser_desc(t, off) == ((((a + t.name) + bb) + dd) + oo) + ll);
    lemma_has_bytes_split(b, pos, (((a + t.name) + bb) + dd) + oo, ll);
    lemma_has_bytes_split(b, pos, ((a + t.name) + bb) + dd, oo);
    lemma_has_bytes_split(b, pos, (a + t.name) + bb, dd);
    lemma_has_bytes_split(b, pos, a + t.name, bb);
    lemma_has_bytes_split(b, pos, a, t.name);

    let nl = t.name.len() as int;
    let dc = t.shape.len() as int;
    let dpos = pos + 4 + nl;

    lemma_le16_roundtrip(b, pos, t.name.len() as u16);
    assert(le16_at(b, pos) == t.name.len() as u16);
    lemma_le16_roundtrip(b, pos + 2 + nl, t.shape.len() as u16);
    lemma_le16_roundtrip(b, dpos + 2 * dc, off as u16);
    lemma_le16_roundtrip(b, dpos + 2 * dc + 2, (2 * t.data.len()) as u16);

    assert(b.subrange(pos + 2, pos + 2 + nl) =~= t.name);

    let shape2 = Seq::new(dc as nat, |i: int| le16_at(b, dpos + 2 * i));
    assert forall|i: int| 0 <= i < dc implies shape2[i] == t.shape[i] by {
        lemma_ser_u16s_index(t.shape, i);
        assert(b[dpos + 2 * i] == dd[2 * i]);
        assert(b[dpos + 2 * i + 1] == dd[2 * i + 1]);
        lemma_le16_roundtrip(b, dpos + 2 * i, t.shape[i]);
    }
    assert(shape2 =~= t.shape);

    assert((2 * t.data.len()) as u16 as nat == 2 * shape_product(t.shape));
    let dv = DescView { name: t.name, shape: t.shape, offset: off as u16 };
    assert(DescView { name: b.subrange(pos + 2, pos + 2 + nl), shape: shape2, offset: off as u16 }
        =~= dv);
    assert(parse_desc(b, pos) == Some((dv, pos + desc_size(t))));
}

/// Serialized descriptors parse back, in order, with canonical offsets.
pub proof fn lemma_parse_descs_ser(b: Seq<u8>, pos: int, m: Seq<TensorView>, off: int)
    requires
        model_wf(m),
        0 <= off,
        off + data_size(m) <= 0xFFFF,
        has_bytes(b, pos, ser_descs(m, off)),
    ensures
        parse_descs(b, pos, m.len()) == Some((model_descs(m, off), pos + descs_size(m))),
    decreases m.len(),
{
    lemma_ser_descs_len(m, off);
    if m.len() == 0 {
        assert(parse_descs(b, pos, 0) == Some((Seq::<DescView>::empty(), pos)));
        assert(model_descs(m, off) =~= Seq::<DescView>::empty());
    } else {
        lemma_model_wf_drop_first(m);
        let rest = m.drop_first();
        let off2 = off + 2 * m[0].data.len();
        lemma_ser_desc_len(m[0], off);
        lemma_ser_descs_len(rest, off2);
        assert(ser_descs(m, off) == ser_desc(m[0], off) + ser_descs(rest, off2));
        lemma_has_bytes_split(b, pos, ser_desc(m[0], off), ser_descs(rest, off2));
        lemma_parse_desc_ser(b, pos, m[0], off);
        let pos2 = pos + desc_size(m[0]);
        lemma_parse_descs_ser(b, pos2, rest, off2);
        let dv0 = DescView { name: m[0].name, shape: m[0].shape, offset: off as u16 };
        assert(parse_descs(b, pos, m.len()) == Some(
            (seq![dv0] + model_descs(rest, off2), pos2 + descs_size(rest)),
        ));
        assert(model_descs(m, off) == seq![dv0] + model_descs(rest, off2));
    }
}

/// The serializer's descriptors have canonical offsets, describe the same
/// data volume as the model, and carry the model's names and shapes.
pub proof fn lemma_model_descs_props(m: Seq<TensorView>, off: int)
    requires
        model_wf(m),
        0 <= off,
        off + data_size(m) <= 0xFFFF,
    ensures
        model_descs(m, off).len() == m.len(),
        offsets_canonical(model_descs(m, off), off),
        descs_data_size(model_descs(m, off)) == data_size(m),
        forall|i: int|
            0 <= i < m.len() ==> (#[trigger] model_descs(m, off)[i]).name == m[i].name
                && model_descs(m, off)[i].shape == m[i].shape,
    decreases m.len(),
{
    if m.len() > 0 {
        lemma_model_wf_drop_first(m);
        let rest = m.drop_first();
        let off2 = off + 2 * m[0].data.len();
        lemma_model_descs_props(rest, off2);
        let dv0 = DescView { name: m[0].name, shape: m[0].shape, offset: off as u16 };
        let ds = model_descs(m, off);
        assert(ds == seq![dv0] + model_descs(rest, off2));
        assert(ds[0] == dv0);
        assert(ds.drop_first() =~= model_descs(rest, off2));
        assert(shape_product(ds[0].shape) == m[0].data.len());
        assert(offsets_canonical(ds, off));
        assert forall|i: int|
            0 <= i < m.len() implies (#[trigger] ds[i]).name == m[i].name && ds[i].shape
            == m[i].shape by {
            if i > 0 {
                assert(ds[i] == model_descs(rest, off2)[i - 1]);
                assert(m[i] == rest[i - 1]);
            }
        }
    }
}

/// The serialized data section gives every tensor's elements back at its
/// descriptor's offset.
pub proof fn lemma_data_recover(b: Seq<u8>, m: Seq<TensorView>, dstart: int, off: int)
    requires
        model_wf(m),
        0 <= dstart,
        0 <= off,
        off + data_size(m) <= 0xFFFF,
        has_bytes(b, dstart + off, ser_datas(m)),
    ensures
        forall|i: int|
            0 <= i < m.len() ==> data_seq_at(
                b,
                dstart + (#[trigger] model_descs(m, off)[i]).offset,
                shape_product(m[i].shape),
            ) == m[i].data,
    decreases m.len(),
{
    if m.len() > 0 {
        lemma_model_wf_drop_first(m);
        let rest = m.drop_first();
        let off2 = off + 2 * m[0].data.len();
        lemma_ser_u16s_len(m[0].data);
        lemma_ser_datas_len(rest);
        assert(ser_datas(m) == ser_u16s(m[0].data) + ser_datas(rest));
        lemma_has_bytes_split(b, dstart + off, ser_u16s(m[0].data), ser_datas(rest));
        lemma_data_recover(b, rest, dstart, off2);
        lemma_model_descs_props(rest, off2);

        let dv0 = DescView { name: m[0].name, shape: m[0].shape, offset: off as u16 };
        let ds = model_descs(m, off);
        assert(ds == seq![dv0] + model_descs(rest, off2));

        // The first tensor's elements.
        let n0 = shape_product(m[0].shape);
        assert(n0 == m[0].data.len());
        let got = data_seq_at(b, dstart + off, n0);
        assert forall|j: int| 0 <= j < n0 implies got[j] == m[0].data[j] by {
            lemma_ser_u16s_index(m[0].data, j);
            assert(b[dstart + off + 2 * j] == ser_u16s(m[0].data)[2 * j]);
            assert(b[dstart + off + 2 * j + 1] == ser_u16s(m[0].data)[2 * j + 1]);
            lemma_le16_roundtrip(b, dstart + off + 2 * j, m[0].data[j]);
        }
        assert(got =~= m[0].data);
        assert(ds[0].offset as int == off);

        assert forall|i: int|
            0 <= i < m.len() implies data_seq_at(
            b,
            dstart + (#[trigger] ds[i]).offset,
            shape_product(m[i].shape),
        ) == m[i].data by {
            if i == 0 {
                assert(data_seq_at(b, dstart + ds[0].offset, shape_product(m[0].shape)) == got);
            } else {
                assert(ds[i] == model_descs(rest, off2)[i - 1]);
                assert(m[i] == rest[i - 1]);
            }
        }
    }
}

/// The round-trip law: parsing the canonical serialized form of any model
/// that fits the format gives exactly that model back.
pub proof fn lemma_parse_serialize(m: Seq<TensorView>)
    requires
        fits_format(m),
    ensures
        parse_model(spec_serialize(m)) == Ok::<Seq<TensorView>, LoadError>(m),
{
    let b = spec_serialize(m);
    lemma_spec_serialize_len(m);
    lemma_ser_descs_len(m, 0);
    lemma_ser_datas_len(m);
    assert(b.len() == total_size(m));

    let h1 = le32_bytes(MAGIC);
    let h2 = seq![VERSION];
    let h3 = le32_bytes(m.len() as u32);
    let h4 = le32_bytes(total_size(m) as u32);
    assert(b == ((((h1 + h2) + h3) + h4) + ser_descs(m, 0)) + ser_datas(m));
    assert(has_bytes(b, 0, b));
    lemma_has_bytes_split(b, 0, (((h1 + h2) + h3) + h4) + ser_descs(m, 0), ser_datas(m));
    lemma_has_bytes_split(b, 0, ((h1 + h2) + h3) + h4, ser_descs(m, 0));
    lemma_has_bytes_split(b, 0, (h1 + h2) + h3, h4);
    lemma_has_bytes_split(b, 0, h1 + h2, h3);
    lemma_has_bytes_split(b, 0, h1, h2);

    lemma_le32_roundtrip(b, 0, MAGIC);
    assert(b[4] == VERSION);
    lemma_le32_roundtrip(b, 5, m.len() as u32);
    lemma_le32_roundtrip(b, 9, total_size(m) as u32);
    assert(crate::bytes::le32_at(b, 9) as int == b.len());

    let dstart = HEADER_LEN + descs_size(m);
    lemma_parse_descs_ser(b, HEADER_LEN as int, m, 0);
    assert(parse_descs(b, HEADER_LEN as int, m.len()) == Some(
        (model_descs(m, 0), dstart as int),
    ));
    assert(crate::bytes::le32_at(b, 5) as nat == m.len());

    lemma_model_descs_props(m, 0);
    assert(offsets_canonical(model_descs(m, 0), 0));
    assert(dstart + descs_data_size(model_descs(m, 0)) == b.len());

    lemma_data_recover(b, m, dstart as int, 0);

    let descs = model_descs(m, 0);
    let out = Seq::new(descs.len(), |i: int| desc_to_tensor(b, dstart as int, descs[i]));
    assert forall|i: int| 0 <= i < m.len() implies out[i] == m[i] by {
        assert(descs[i].name == m[i].name);
        assert(descs[i].shape == m[i].shape);
        assert(data_seq_at(b, dstart + descs[i].offset, shape_product(m[i].shape)) == m[i].data);
        assert(out[i] =~= m[i]);
    }
    assert(out =~= m);
    assert(parse_model(b) == Ok::<Seq<TensorView>, LoadError>(out));
}

} // verus!

