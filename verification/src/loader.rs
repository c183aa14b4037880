//! The model loader: validates and parses a raw weight buffer into an owned
//! [`ModelWeights`], exactly as [`crate::format::parse_model`] prescribes.

use vstd::prelude::*;
use crate::bytes::{read_le16, read_le32};
use crate::format::{
    parse_desc, parse_descs, parse_model, data_seq_at, desc_to_tensor, descs_data_size,
    offsets_canonical, DescView, LoadError, HEADER_LEN, MAGIC, VERSION,
};
use crate::model::{
    dims_positive, lemma_shape_product_prefix, lemma_shape_product_push, shape_product,
    tensor_wf, model_wf, ModelWeights, Tensor, TensorView,
};

verus! {

/// A parsed descriptor before its data section is read: name, shape, data
/// offset, and the element count its shape describes.
struct RawDesc {
    name: Vec<u8>,
    shape: Vec<u16>,
    offset: u16,
    elem_count: u16,
}

impl RawDesc {
    spec fn view(&self) -> DescView {
        DescView { name: self.name@, shape: self.shape@, offset: self.offset }
    }

    spec fn wf(&self) -> bool {
        &&& self.elem_count as nat == shape_product(self.shape@)
        &&& dims_positive(self.shape@)
        &&& self.name@.len() <= 0xFFFF
        &&& self.shape@.len() <= 0xFFFF
        &&& 2 * self.elem_count <= 0xFFFF
    }
}

/// Parses the descriptor at `pos`, mirroring [`parse_desc`].
#[verifier::loop_isolation(false)]
fn parse_desc_at(b: &Vec<u8>, pos: usize) -> (r: Option<(RawDesc, usize)>)
    requires
        pos <= b@.len(),
    ensures
        match r {
            Some((d, end)) => {
                &&& parse_desc(b@, pos as int) == Some((d.view(), end as int))
                &&& d.wf()
                &&& pos < end <= b@.len()
            },
            None => parse_desc(b@, pos as int) == None::<(DescView, int)>,
        },
{
    let n: usize = b.len();
    if n < 2 || pos > n - 2 {
        return None;
    }
    let nl = read_le16(b, pos) as usize;
    let rest: usize = n - (pos + 2);
    if rest < 2 || nl > rest - 2 {
        return None;
    }
    let mut name: Vec<u8> = Vec::new();
    let mut j: usize = 0;
    while j < nl
        invariant
            j <= nl,
            pos + 2 + nl <= n == b@.len(),
            name@ =~= b@.subrange(pos as int + 2, pos as int + 2 + j as int),
        decreases nl - j,
    {
        name.push(b[pos + 2 + j]);
        j = j + 1;
        proof {
            assert(name@ =~= b@.subrange(pos as int + 2, pos as int + 2 + j as int));
        }
    }
    let dc = read_le16(b, pos + 2 + nl) as usize;
    let dpos: usize = pos + 4 + nl;
    let rest2: usize = n - dpos;
    if rest2 < 4 || dc > (rest2 - 4) / 2 {
        return None;
    }
    proof {
        assert(dpos + 2 * dc + 4 <= n);
    }
    let ghost spec_shape: Seq<u16> = Seq::new(dc as nat, |i: int| crate::bytes::le16_at(b@, dpos as int + 2 * i));
    let mut shape: Vec<u16> = Vec::new();
    let mut acc: u32 = 1;
    let mut k: usize = 0;
    while k < dc
        invariant
            k <= dc,
            dpos + 2 * dc + 4 <= n == b@.len(),
            spec_shape == Seq::new(dc as nat, |i: int| crate::bytes::le16_at(b@, dpos as int + 2 * i)),
            shape@ =~= spec_shape.take(k as int),
            dims_positive(shape@),
            acc as nat == shape_product(shape@),
            acc <= 0xFFFF,
        decreases dc - k,
    {
        let d = read_le16(b, dpos + 2 * k);
        proof {
            assert(d == spec_shape[k as int]);
        }
        if d == 0 {
            proof {
                assert(!dims_positive(spec_shape));
            }
            return None;
        }
        proof {
            assert(spec_shape.take(k as int + 1).drop_last() =~= spec_shape.take(k as int));
            assert(spec_shape.take(k as int + 1).last() == spec_shape[k as int]);
        }
        assert(acc * (d as u32) <= 0xFFFF * 0xFFFF) by (nonlinear_arith)
            requires
                acc <= 0xFFFF,
                d <= 0xFFFF,
        ;
        let ghost shape0 = shape@;
        acc = acc * (d as u32);
        shape.push(d);
        proof {
            lemma_shape_product_push(shape0, d);
        }
        k = k + 1;
        if acc > 0xFFFF {
            proof {
                // Either a later dimension is zero, or the full element count
                // exceeds what any 16-bit byte length could declare.
                if dims_positive(spec_shape) {
                    lemma_shape_product_prefix(spec_shape, k as int);
                    assert((acc as nat) * 2 > 0xFFFF * 2);
                    assert(crate::bytes::le16_at(b@, dpos as int + 2 * dc + 2) as nat
                        != 2 * shape_product(spec_shape)) by {
                        assert(shape_product(spec_shape) >= acc as nat);
                    }
                }
            }
            return None;
        }
    }
    proof {
        assert(shape@ =~= spec_shape);
    }
    let offset = read_le16(b, dpos + 2 * dc);
    let byte_len = read_le16(b, dpos + 2 * dc + 2);
    if byte_len as u32 != 2 * acc {
        return None;
    }
    let d = RawDesc { name, shape, offset, elem_count: acc as u16 };
    Some((d, dpos + 2 * dc + 4))
}

/// The descriptors a sequence of raw descriptors denotes.
spec fn raw_views(s: Seq<RawDesc>) -> Seq<DescView> {
    Seq::new(s.len(), |i: int| s[i].view())
}

/// Prefixes `pre` onto the descriptors of a partial parse.
spec fn prepend_descs(pre: Seq<DescView>, r: Option<(Seq<DescView>, int)>) -> Option<
    (Seq<DescView>, int),
> {
    match r {
        None => None,
        Some((rest, end)) => Some((pre + rest, end)),
    }
}

/// Validates and parses a raw weight buffer into an owned model.
///
/// The result is exactly what [`parse_model`] ascribes to the buffer: the
/// parsed model on a well-formed buffer, and otherwise the error naming what
/// is wrong with it — `Empty` for a zero-length buffer, `UnsupportedFormat`
/// for a wrong magic tag or version, `MalformedHeader` for anything whose
/// declared counts, lengths or descriptors do not fit together.
#[verifier::loop_isolation(false)]
#[verifier::rlimit(80)]
pub fn load(buffer: &Vec<u8>) -> (r: Result<ModelWeights, LoadError>)
    ensures
        match r {
            Ok(w) => parse_model(buffer@) == Ok::<Seq<TensorView>, LoadError>(w@) && model_wf(w@),
            Err(e) => parse_model(buffer@) == Err::<Seq<TensorView>, LoadError>(e),
        },
{
    let n: usize = buffer.len();
    if n == 0 {
        return Err(LoadError::Empty);
    }
    if n < HEADER_LEN {
        return Err(LoadError::MalformedHeader);
    }
    let magic = read_le32(buffer, 0);
    let version = buffer[4];
    if magic != MAGIC || version != VERSION {
        return Err(LoadError::UnsupportedFormat);
    }
    let total = read_le32(buffer, 9);
    if total as u64 != n as u64 {
        return Err(LoadError::MalformedHeader);
    }
    let count = read_le32(buffer, 5);

    // First pass: parse every descriptor.
    let mut raws: Vec<RawDesc> = Vec::new();
    let mut pos: usize = HEADER_LEN;
    let mut i: u32 = 0;
    while i < count
        invariant
            i <= count,
            pos <= n,
            raws@.len() == i as int,
            forall|j: int| 0 <= j < raws@.len() ==> (#[trigger] raws@[j]).wf(),
            parse_descs(buffer@, HEADER_LEN as int, count as nat) == prepend_descs(
                raw_views(raws@),
                parse_descs(buffer@, pos as int, (count - i) as nat),
            ),
        decreases count - i,
    {
        match parse_desc_at(buffer, pos) {
            None => {
                proof {
                    assert(parse_descs(buffer@, pos as int, (count - i) as nat)
                        == None::<(Seq<DescView>, int)>);
                }
                return Err(LoadError::MalformedHeader);
            },
            Some((d, end)) => {
                proof {
                    let c = (count - i) as nat;
                    let tail = parse_descs(buffer@, end as int, (c - 1) as nat);
                    assert(parse_descs(buffer@, pos as int, c) == prepend_descs(
                        seq![d.view()],
                        tail,
                    ));
                    assert(raw_views(raws@.push(d)) =~= raw_views(raws@) + seq![d.view()]);
                    match tail {
                        None => {},
                        Some((rest, e2)) => {
                            assert((raw_views(raws@) + seq![d.view()]) + rest =~= raw_views(raws@)
                                + (seq![d.view()] + rest));
                        },
                    }
                }
                raws.push(d);
                pos = end;
                i = i + 1;
            },
        }
    }
    let ghost full: Seq<DescView> = raw_views(raws@);
    proof {
        assert(raw_views(raws@) + Seq::<DescView>::empty() =~= full);
        assert(parse_descs(buffer@, HEADER_LEN as int, count as nat) == Some((full, pos as int)));
        assert(full.skip(0) =~= full);
    }
    let data_start: usize = pos;

    // Second pass: the declared offsets must tile the data section exactly.
    let nd: usize = raws.len();
    let mut off_acc: u32 = 0;
    let mut t: usize = 0;
    while t < nd
        invariant
            t <= nd,
            off_acc <= 0x1FFFE,
            offsets_canonical(full, 0) <==> offsets_canonical(full.skip(t as int), off_acc as int),
            off_acc as nat + descs_data_size(full.skip(t as int)) == descs_data_size(full),
        decreases nd - t,
    {
        proof {
            assert(full.skip(t as int)[0] == full[t as int]);
            assert(full.skip(t as int).drop_first() =~= full.skip(t as int + 1));
            assert(full[t as int] == raws@[t as int].view());
        }
        let o = raws[t].offset;
        if o as u32 != off_acc {
            proof {
                assert(!offsets_canonical(full.skip(t as int), off_acc as int));
            }
            return Err(LoadError::MalformedHeader);
        }
        off_acc = off_acc + 2 * (raws[t].elem_count as u32);
        t = t + 1;
    }
    proof {
        assert(offsets_canonical(full.skip(nd as int), off_acc as int));
        assert(offsets_canonical(full, 0));
    }
    if n - data_start != off_acc as usize {
        return Err(LoadError::MalformedHeader);
    }

    // Third pass: copy each tensor's elements out of the data section.
    let mut tensors: Vec<Tensor> = Vec::new();
    let mut doff: u32 = 0;
    let mut t2: usize = 0;
    while t2 < nd
        invariant
            t2 <= nd,
            doff <= 0x1FFFE,
            raw_views(raws@) =~= full.skip(t2 as int),
            forall|j: int| 0 <= j < raws@.len() ==> (#[trigger] raws@[j]).wf(),
            offsets_canonical(full.skip(t2 as int), doff as int),
            doff as nat + descs_data_size(full.skip(t2 as int)) == descs_data_size(full),
            descs_data_size(full) == n - data_start,
            tensors@.len() == t2 as int,
            forall|j: int|
                0 <= j < t2 as int ==> #[trigger] tensors@[j]@ == desc_to_tensor(
                    buffer@,
                    data_start as int,
                    full[j],
                ) && tensor_wf(tensors@[j]@),
        decreases nd - t2,
    {
        proof {
            assert(raw_views(raws@)[0] == raws@[0].view());
            assert(full.skip(t2 as int)[0] == full[t2 as int]);
            assert(full.skip(t2 as int).drop_first() =~= full.skip(t2 as int + 1));
        }
        let d = raws.remove(0);
        proof {
            assert(d.wf());
            assert(d.view() == full[t2 as int]);
            assert(raw_views(raws@) =~= full.skip(t2 as int + 1));
            assert(d.offset as int == doff as int);
            assert(descs_data_size(full.skip(t2 as int)) == 2 * shape_product(d.view().shape)
                + descs_data_size(full.skip(t2 as int + 1)));
            assert(doff + 2 * (d.elem_count as nat) <= descs_data_size(full));
        }
        let base: usize = data_start + (d.offset as usize);
        let cnt: usize = d.elem_count as usize;
        let mut data: Vec<u16> = Vec::new();
        let mut j: usize = 0;
        while j < cnt
            invariant
                j <= cnt,
                base + 2 * cnt <= n,
                data@ =~= data_seq_at(buffer@, base as int, j as nat),
            decreases cnt - j,
        {
            data.push(read_le16(buffer, base + 2 * j));
            j = j + 1;
            proof {
                assert(data@ =~= data_seq_at(buffer@, base as int, j as nat));
            }
        }
        let tensor = Tensor { name: d.name, shape: d.shape, data };
        proof {
            assert(tensor@ =~= desc_to_tensor(buffer@, data_start as int, full[t2 as int]));
            assert(tensor_wf(tensor@));
        }
        tensors.push(tensor);
        doff = doff + 2 * (d.elem_count as u32);
        t2 = t2 + 1;
    }
    let w = ModelWeights { tensors };
    proof {
        let spec_out = Seq::new(
            full.len(),
            |i: int| desc_to_tensor(buffer@, data_start as int, full[i]),
        );
        assert(w@ =~= spec_out);
        assert(model_wf(w@));
    }
    Ok(w)
}

} // verus!
