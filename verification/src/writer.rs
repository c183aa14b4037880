//! The model serializer: writes a well-formed model into the documented
//! buffer format, producing exactly the canonical byte form
//! [`spec_serialize`] describes.

use vstd::prelude::*;
use crate::bytes::{le16_bytes, le32_bytes, push_le16, push_le32};
use crate::format::{
    data_size, descs_size, fits_format, lemma_ser_u16s_snoc, ser_datas, ser_desc, ser_descs,
    ser_u16s, spec_serialize, total_size, MAGIC, VERSION,
};
use crate::model::{model_wf, tensor_wf, ModelWeights, Tensor};

verus! {

/// Appends the serialized descriptor of `t`, with data offset `off`.
#[verifier::loop_isolation(false)]
fn write_desc(out: &mut Vec<u8>, t: &Tensor, off: u16)
    requires
        tensor_wf(t@),
    ensures
        final(out)@ == old(out)@ + ser_desc(t@, off as int),
{
    let ghost base = out@;
    let nl = t.name.len();
    push_le16(out, nl as u16);
    let mut j: usize = 0;
    while j < nl
        invariant
            j <= nl,
            out@ =~= base + le16_bytes(nl as u16) + t.name@.take(j as int),
        decreases nl - j,
    {
        out.push(t.name[j]);
        j = j + 1;
        proof {
            assert(out@ =~= base + le16_bytes(nl as u16) + t.name@.take(j as int));
        }
    }
    proof {
        assert(t.name@.take(nl as int) =~= t.name@);
    }
    let dc = t.shape.len();
    push_le16(out, dc as u16);
    let ghost base2 = out@;
    let mut k: usize = 0;
    while k < dc
        invariant
            k <= dc,
            out@ =~= base2 + ser_u16s(t.shape@.take(k as int)),
        decreases dc - k,
    {
        let ghost pre = t.shape@.take(k as int);
        push_le16(out, t.shape[k]);
        k = k + 1;
        proof {
            lemma_ser_u16s_snoc(pre, t.shape@[k - 1]);
            assert(t.shape@.take(k as int) =~= pre.push(t.shape@[k - 1]));
            assert(out@ =~= base2 + ser_u16s(t.shape@.take(k as int)));
        }
    }
    proof {
        assert(t.shape@.take(dc as int) =~= t.shape@);
    }
    push_le16(out, off);
    let dl = t.data.len();
    push_le16(out, (2 * dl) as u16);
    proof {
        assert(out@ =~= base + ser_desc(t@, off as int));
    }
}

/// Appends the serialized elements of `t`.
#[verifier::loop_isolation(false)]
fn write_data(out: &mut Vec<u8>, t: &Tensor)
    ensures
        final(out)@ == old(out)@ + ser_u16s(t@.data),
{
    let ghost base = out@;
    let dl = t.data.len();
    let mut j: usize = 0;
    while j < dl
        invariant
            j <= dl,
            out@ =~= base + ser_u16s(t.data@.take(j as int)),
        decreases dl - j,
    {
        let ghost pre = t.data@.take(j as int);
        push_le16(out, t.data[j]);
        j = j + 1;
        proof {
            lemma_ser_u16s_snoc(pre, t.data@[j - 1]);
            assert(t.data@.take(j as int) =~= pre.push(t.data@[j - 1]));
            assert(out@ =~= base + ser_u16s(t.data@.take(j as int)));
        }
    }
    proof {
        assert(t.data@.take(dl as int) =~= t.data@);
    }
}

/// Serializes a well-formed model into the documented buffer format.
///
/// Gives `None` exactly when the model does not fit the format's field
/// widths: a data section over the 16-bit offset range, or a total length
/// over the 32-bit header field.  On success the buffer is the canonical
/// form of the model, and parsing it gives the model back.
#[verifier::loop_isolation(false)]
#[verifier::rlimit(80)]
pub fn serialize_model(w: &ModelWeights) -> (r: Option<Vec<u8>>)
    requires
        model_wf(w@),
    ensures
        match r {
            Some(b) => fits_format(w@) && b@ == spec_serialize(w@) && crate::format::parse_model(
                b@,
            ) == Ok::<Seq<crate::model::TensorView>, crate::format::LoadError>(w@),
            None => !fits_format(w@),
        },
{
    let nt = w.tensors.len();
    proof {
        assert(w@.skip(0) =~= w@);
    }

    // First pass: the sizes, refusing anything over the format's caps.
    let mut dsz: u64 = 0;
    let mut tsz: u64 = 0;
    let mut i: usize = 0;
    while i < nt
        invariant
            i <= nt,
            dsz <= 0xFFFF,
            tsz <= 0xFFFF_FFFF,
            dsz as nat + data_size(w@.skip(i as int)) == data_size(w@),
            tsz as nat + descs_size(w@.skip(i as int)) == descs_size(w@),
        decreases nt - i,
    {
        proof {
            assert(w@.skip(i as int)[0] == w@[i as int]);
            assert(w@.skip(i as int).drop_first() =~= w@.skip(i as int + 1));
            assert(tensor_wf(w@[i as int]));
        }
        let dl = w.tensors[i].data.len();
        let new_dsz = dsz + 2 * (dl as u64);
        if new_dsz > 0xFFFF {
            return None;
        }
        dsz = new_dsz;
        let ds = 8 + (w.tensors[i].name.len() as u64) + 2 * (w.tensors[i].shape.len() as u64);
        let new_tsz = tsz + ds;
        if new_tsz > 0xFFFF_FFFF {
            return None;
        }
        tsz = new_tsz;
        i = i + 1;
    }
    proof {
        assert(w@.skip(nt as int) =~= Seq::<crate::model::TensorView>::empty());
        assert(dsz as nat == data_size(w@));
        assert(tsz as nat == descs_size(w@));
    }
    let total64: u64 = 13 + tsz + dsz;
    if total64 > 0xFFFF_FFFF {
        return None;
    }
    proof {
        assert(fits_format(w@));
    }

    // Second pass: the header, the descriptors, then the data section.
    let mut out: Vec<u8> = Vec::new();
    push_le32(&mut out, MAGIC);
    out.push(VERSION);
    push_le32(&mut out, nt as u32);
    push_le32(&mut out, total64 as u32);
    let ghost hdr = out@;
    proof {
        assert(hdr =~= le32_bytes(MAGIC) + seq![VERSION] + le32_bytes(nt as u32) + le32_bytes(
            (total_size(w@)) as u32,
        ));
    }

    let mut off: u16 = 0;
    let mut i2: usize = 0;
    proof {
        assert(out@ + ser_descs(w@.skip(0), 0) =~= hdr + ser_descs(w@, 0));
    }
    while i2 < nt
        invariant
            i2 <= nt,
            off as nat + data_size(w@.skip(i2 as int)) == data_size(w@),
            out@ + ser_descs(w@.skip(i2 as int), off as int) =~= hdr + ser_descs(w@, 0),
        decreases nt - i2,
    {
        proof {
            assert(w@.skip(i2 as int)[0] == w@[i2 as int]);
            assert(w@.skip(i2 as int).drop_first() =~= w@.skip(i2 as int + 1));
            assert(tensor_wf(w@[i2 as int]));
        }
        let ghost out0 = out@;
        write_desc(&mut out, &w.tensors[i2], off);
        let dl = w.tensors[i2].data.len();
        proof {
            assert(w.tensors@[i2 as int]@ == w@[i2 as int]);
            assert(out@ =~= out0 + ser_desc(w@[i2 as int], off as int));
            assert(ser_descs(w@.skip(i2 as int), off as int) == ser_desc(w@[i2 as int], off as int)
                + ser_descs(w@.skip(i2 as int + 1), off as int + 2 * dl as int));
            assert((out0 + ser_desc(w@[i2 as int], off as int)) + ser_descs(
                w@.skip(i2 as int + 1),
                off as int + 2 * dl as int,
            ) =~= out0 + (ser_desc(w@[i2 as int], off as int) + ser_descs(
                w@.skip(i2 as int + 1),
                off as int + 2 * dl as int,
            )));
        }
        off = off + (2 * dl) as u16;
        i2 = i2 + 1;
    }
    let ghost mid = out@;
    proof {
        assert(ser_descs(w@.skip(nt as int), off as int) =~= Seq::<u8>::empty());
        assert(mid + Seq::<u8>::empty() =~= mid);
        assert(mid =~= hdr + ser_descs(w@, 0));
        assert(mid + ser_datas(w@.skip(0)) =~= mid + ser_datas(w@));
    }

    let mut i3: usize = 0;
    while i3 < nt
        invariant
            i3 <= nt,
            out@ + ser_datas(w@.skip(i3 as int)) =~= mid + ser_datas(w@),
        decreases nt - i3,
    {
        proof {
            assert(w@.skip(i3 as int)[0] == w@[i3 as int]);
            assert(w@.skip(i3 as int).drop_first() =~= w@.skip(i3 as int + 1));
        }
        let ghost out0 = out@;
        write_data(&mut out, &w.tensors[i3]);
        proof {
            assert(w.tensors@[i3 as int]@ == w@[i3 as int]);
            assert(out@ =~= out0 + ser_u16s(w@[i3 as int].data));
            assert((out0 + ser_u16s(w@[i3 as int].data)) + ser_datas(w@.skip(i3 as int + 1)) =~= out0
                + (ser_u16s(w@[i3 as int].data) + ser_datas(w@.skip(i3 as int + 1))));
        }
        i3 = i3 + 1;
    }
    proof {
        assert(ser_datas(w@.skip(nt as int)) =~= Seq::<u8>::empty());
        assert(out@ + Seq::<u8>::empty() =~= out@);
        assert(out@ =~= spec_serialize(w@));
        crate::roundtrip::lemma_parse_serialize(w@);
    }
    Some(out)
}

} // verus!
