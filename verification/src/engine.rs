//! The forward-pass engine.
//!
//! A loaded model that carries an embedding table `embed` of shape
//! `[vocab, dim]` and a vector `bias` of shape `[dim]` maps each input token
//! to the index of the largest entry of `embed[token] + bias` (16-bit
//! wrapping addition, first index on ties); an input token outside the
//! vocabulary ends generation.  Any other loaded model echoes its input.
//! Either way the engine emits at most `output_capacity` tokens, and the
//! result is a pure function of the loaded model and the input alone.

use vstd::prelude::*;
use crate::model::{model_wf, shape_product, tensor_wf, ModelWeights, TensorView};
use crate::state::ModelState;

verus! {

/// The name of the embedding-table tensor: the bytes of `embed`.
pub open spec fn embed_name() -> Seq<u8> {
    seq![101u8, 109u8, 98u8, 101u8, 100u8]
}

/// The name of the bias tensor: the bytes of `bias`.
pub open spec fn bias_name() -> Seq<u8> {
    seq![98u8, 105u8, 97u8, 115u8]
}

/// The first tensor of `m` named `name`, if any.
pub open spec fn find_named(m: Seq<TensorView>, name: Seq<u8>) -> Option<TensorView>
    decreases m.len(),
{
    if m.len() == 0 {
        None
    } else if m[0].name == name {
        Some(m[0])
    } else {
        find_named(m.drop_first(), name)
    }
}

/// The model carries the recognized architecture: an `embed` table of shape
/// `[vocab, dim]` and a `bias` of shape `[dim]`.
pub open spec fn arch_present(m: Seq<TensorView>) -> bool {
    match (find_named(m, embed_name()), find_named(m, bias_name())) {
        (Some(e), Some(bi)) => e.shape.len() == 2 && bi.shape.len() == 1 && e.shape[1]
            == bi.shape[0],
        _ => false,
    }
}

/// 16-bit wrapping addition.
pub open spec fn wrap_add(a: u16, b: u16) -> u16 {
    ((a + b) % 0x10000) as u16
}

/// The logits of one token: row `tok` of the embedding table plus the bias.
pub open spec fn logits(e: Seq<u16>, bi: Seq<u16>, d: int, tok: u32) -> Seq<u16> {
    Seq::new(d as nat, |j: int| wrap_add(e[tok * d + j], bi[j]))
}

/// The first index at which `s` attains its maximum (0 for an empty or
/// single-element sequence).
pub open spec fn argmax(s: Seq<u16>) -> int
    decreases s.len(),
{
    if s.len() <= 1 {
        0
    } else {
        let r = argmax(s.drop_last());
        if s.last() > s[r] {
            s.len() - 1
        } else {
            r
        }
    }
}

/// The output token for one input token: the argmax of its logits.
pub open spec fn step_token(e: Seq<u16>, bi: Seq<u16>, d: int, tok: u32) -> u32 {
    argmax(logits(e, bi, d, tok)) as u32
}

/// The tokens generated from `input` against an embedding table with `v`
/// rows of width `d`: one output per input token, until the input ends, a
/// token falls outside the vocabulary, or `cap` outputs are reached.
pub open spec fn gen_tokens(
    e: Seq<u16>,
    bi: Seq<u16>,
    v: int,
    d: int,
    input: Seq<u32>,
    cap: nat,
) -> Seq<u32>
    decreases input.len(),
{
    if cap == 0 || input.len() == 0 {
        Seq::empty()
    } else if input[0] >= v {
        Seq::empty()
    } else {
        seq![step_token(e, bi, d, input[0])] + gen_tokens(
            e,
            bi,
            v,
            d,
            input.drop_first(),
            (cap - 1) as nat,
        )
    }
}

/// The forward pass of a loaded model: embedding lookup plus bias and argmax
/// under the recognized architecture, otherwise the input truncated to the
/// capacity.
pub open spec fn spec_forward(m: Seq<TensorView>, input: Seq<u32>, cap: nat) -> Seq<u32> {
    if arch_present(m) {
        let e = find_named(m, embed_name()).unwrap();
        let bi = find_named(m, bias_name()).unwrap();
        gen_tokens(e.data, bi.data, e.shape[0] as int, e.shape[1] as int, input, cap)
    } else if cap < input.len() {
        input.take(cap as int)
    } else {
        input
    }
}

/// What one inference call produces: nothing without a loaded model, the
/// forward pass otherwise.
pub open spec fn spec_run(st: Option<Seq<TensorView>>, input: Seq<u32>, cap: nat) -> Seq<u32> {
    match st {
        None => Seq::empty(),
        Some(m) => spec_forward(m, input, cap),
    }
}

/// The result of a forward pass never exceeds the capacity.
pub proof fn lemma_gen_tokens_len(e: Seq<u16>, bi: Seq<u16>, v: int, d: int, input: Seq<u32>, cap: nat)
    ensures
        gen_tokens(e, bi, v, d, input, cap).len() <= cap,
    decreases input.len(),
{
    if cap != 0 && input.len() != 0 && input[0] < v {
        lemma_gen_tokens_len(e, bi, v, d, input.drop_first(), (cap - 1) as nat);
    }
}

/// The result of any inference is capacity-bounded.
pub proof fn lemma_spec_run_len(st: Option<Seq<TensorView>>, input: Seq<u32>, cap: nat)
    ensures
        spec_run(st, input, cap).len() <= cap,
{
    match st {
        None => {},
        Some(m) => {
            if arch_present(m) {
                let e = find_named(m, embed_name()).unwrap();
                let bi = find_named(m, bias_name()).unwrap();
                lemma_gen_tokens_len(e.data, bi.data, e.shape[0] as int, e.shape[1] as int, input, cap);
            }
        },
    }
}

/// Inference is deterministic: the result is fixed by the loaded model, the
/// input tokens and the output capacity alone, so two runs over the same
/// state and input agree bit for bit.
pub proof fn lemma_run_deterministic(
    r1: Seq<u32>,
    r2: Seq<u32>,
    st: Option<Seq<TensorView>>,
    input: Seq<u32>,
    cap: nat,
)
    requires
        r1 == spec_run(st, input, cap),
        r2 == spec_run(st, input, cap),
    ensures
        r1 == r2,
{
}

/// True exactly when `n` holds the bytes of `embed`.
fn is_embed_name(n: &Vec<u8>) -> (r: bool)
    ensures
        r == (n@ == embed_name()),
{
    let r = n.len() == 5 && n[0] == 101 && n[1] == 109 && n[2] == 98 && n[3] == 101 && n[4] == 100;
    proof {
        if r {
            assert(n@ =~= embed_name());
        }
    }
    r
}

/// True exactly when `n` holds the bytes of `bias`.
fn is_bias_name(n: &Vec<u8>) -> (r: bool)
    ensures
        r == (n@ == bias_name()),
{
    let r = n.len() == 4 && n[0] == 98 && n[1] == 105 && n[2] == 97 && n[3] == 115;
    proof {
        if r {
            assert(n@ =~= bias_name());
        }
    }
    r
}

/// Finds the first tensor named `embed` (`want_embed`) or `bias` (otherwise).
#[verifier::loop_isolation(false)]
fn find_tensor(w: &ModelWeights, want_embed: bool) -> (r: Option<usize>)
    ensures
        ({
            let name = if want_embed { embed_name() } else { bias_name() };
            match r {
                Some(i) => i < w@.len() && find_named(w@, name) == Some(w@[i as int]),
                None => find_named(w@, name) is None,
            }
        }),
{
    let ghost name = if want_embed { embed_name() } else { bias_name() };
    let n = w.tensors.len();
    proof {
        assert(w@.skip(0) =~= w@);
    }
    let mut i: usize = 0;
    while i < n
        invariant
            i <= n,
            find_named(w@, name) == find_named(w@.skip(i as int), name),
        decreases n - i,
    {
        proof {
            assert(w@.skip(i as int)[0] == w@[i as int]);
            assert(w@.skip(i as int).drop_first() =~= w@.skip(i as int + 1));
        }
        let hit = if want_embed {
            is_embed_name(&w.tensors[i].name)
        } else {
            is_bias_name(&w.tensors[i].name)
        };
        proof {
            assert(w@[i as int].name == w.tensors@[i as int]@.name);
        }
        if hit {
            return Some(i);
        }
        i = i + 1;
    }
    proof {
        assert(w@.skip(n as int) =~= Seq::<TensorView>::empty());
    }
    None
}

/// The identity pass: the input tokens, truncated to the capacity.
#[verifier::loop_isolation(false)]
fn echo(input: &Vec<u32>, cap: usize) -> (r: Vec<u32>)
    ensures
        r@ == if (cap as nat) < input@.len() {
            input@.take(cap as int)
        } else {
            input@
        },
        r@.len() <= cap,
{
    let m = if cap < input.len() {
        cap
    } else {
        input.len()
    };
    let mut out: Vec<u32> = Vec::new();
    let mut i: usize = 0;
    while i < m
        invariant
            i <= m <= input@.len(),
            out@ =~= input@.take(i as int),
        decreases m - i,
    {
        out.push(input[i]);
        i = i + 1;
        proof {
            assert(out@ =~= input@.take(i as int));
        }
    }
    proof {
        if cap as nat >= input@.len() {
            assert(input@.take(input@.len() as int) =~= input@);
        }
    }
    out
}

/// Runs the forward pass of a well-formed loaded model.
#[verifier::loop_isolation(false)]
pub fn forward(w: &ModelWeights, input: &Vec<u32>, output_capacity: usize) -> (r: Vec<u32>)
    requires
        model_wf(w@),
    ensures
        r@ == spec_forward(w@, input@, output_capacity as nat),
        r@.len() <= output_capacity,
{
    let e_idx = find_tensor(w, true);
    let b_idx = find_tensor(w, false);
    match (e_idx, b_idx) {
        (None, _) | (_, None) => {
            proof {
                assert(!arch_present(w@));
            }
            echo(input, output_capacity)
        },
        (Some(ei), Some(bi)) => {
            let et = &w.tensors[ei];
            let bt = &w.tensors[bi];
            if !(et.shape.len() == 2 && bt.shape.len() == 1 && et.shape[1] == bt.shape[0]) {
                proof {
                    assert(w@[ei as int] == et@);
                    assert(w@[bi as int] == bt@);
                    assert(!arch_present(w@));
                }
                return echo(input, output_capacity);
            }
            proof {
                assert(arch_present(w@));
            }
            let v: u16 = et.shape[0];
            let d: u16 = et.shape[1];
            let ghost ed = et@.data;
            let ghost bd = bt@.data;
            proof {
                assert(tensor_wf(w@[ei as int]));
                assert(tensor_wf(w@[bi as int]));
                // The element counts follow from the shapes.
                let s2 = seq![v, d];
                let s1 = seq![v];
                assert(w@[ei as int] == et@);
                assert(w@[bi as int] == bt@);
                assert(et@.shape =~= s2);
                assert(s2.drop_last() =~= s1);
                assert(s2.last() == d);
                assert(shape_product(s2) == shape_product(s1) * (d as nat));
                assert(s1.drop_last() =~= Seq::<u16>::empty());
                assert(s1.last() == v);
                assert(shape_product(s1) == shape_product(Seq::<u16>::empty()) * (v as nat));
                assert(shape_product(Seq::<u16>::empty()) == 1);
                assert(shape_product(s1) == (v as nat)) by (nonlinear_arith)
                    requires
                        shape_product(s1) == shape_product(Seq::<u16>::empty()) * (v as nat),
                        shape_product(Seq::<u16>::empty()) == 1,
                ;
                assert(tensor_wf(et@));
                assert(ed.len() == shape_product(et@.shape));
                assert(shape_product(et@.shape) == shape_product(s2));
                assert(shape_product(s2) == (v as nat) * (d as nat));
                assert(ed.len() == (v as nat) * (d as nat));
                let t1 = seq![d];
                assert(bt@.shape =~= t1);
                assert(t1.drop_last() =~= Seq::<u16>::empty());
                assert(t1.last() == d);
                assert(shape_product(t1) == shape_product(Seq::<u16>::empty()) * (d as nat));
                assert(bd.len() == d as nat);
            }
            let mut out: Vec<u32> = Vec::new();
            let mut i: usize = 0;
            let in_len = input.len();
            proof {
                assert(input@.skip(0) =~= input@);
                assert(out@ =~= Seq::<u32>::empty());
                assert(Seq::<u32>::empty() + gen_tokens(
                    ed,
                    bd,
                    v as int,
                    d as int,
                    input@,
                    output_capacity as nat,
                ) =~= gen_tokens(ed, bd, v as int, d as int, input@, output_capacity as nat));
            }
            while i < in_len
                invariant
                    i <= in_len,
                    out@.len() <= output_capacity,
                    gen_tokens(ed, bd, v as int, d as int, input@, output_capacity as nat) == out@
                        + gen_tokens(
                        ed,
                        bd,
                        v as int,
                        d as int,
                        input@.skip(i as int),
                        (output_capacity - out@.len()) as nat,
                    ),
                decreases in_len - i,
            {
                if out.len() == output_capacity {
                    proof {
                        assert(gen_tokens(
                            ed,
                            bd,
                            v as int,
                            d as int,
                            input@.skip(i as int),
                            (output_capacity - out@.len()) as nat,
                        ) =~= Seq::<u32>::empty());
                        assert(out@ + Seq::<u32>::empty() =~= out@);
                    }
                    return out;
                }
                proof {
                    assert(input@.skip(i as int)[0] == input@[i as int]);
                    assert(input@.skip(i as int).drop_first() =~= input@.skip(i as int + 1));
                }
                let tok = input[i];
                if tok >= v as u32 {
                    proof {
                        assert(gen_tokens(
                            ed,
                            bd,
                            v as int,
                            d as int,
                            input@.skip(i as int),
                            (output_capacity - out@.len()) as nat,
                        ) =~= Seq::<u32>::empty());
                        assert(out@ + Seq::<u32>::empty() =~= out@);
                    }
                    return out;
                }
                // One step: the argmax of this token's logits.
                let ghost lg = logits(ed, bd, d as int, tok);
                proof {
                    assert((tok as int + 1) * (d as int) <= (v as int) * (d as int))
                        by (nonlinear_arith)
                        requires
                            tok as int + 1 <= v as int,
                            d as int >= 0,
                    ;
                    assert((tok as int) * (d as int) + (d as int) == (tok as int + 1) * (d as int))
                        by (nonlinear_arith);
                }
                let row: usize = (tok as usize) * (d as usize);
                let mut best_j: usize = 0;
                let mut best_val: u16 = 0;
                let mut j: usize = 0;
                while j < d as usize
                    invariant
                        j <= d as usize,
                        row == (tok as int) * (d as int),
                        row + d as int <= ed.len(),
                        lg == logits(ed, bd, d as int, tok),
                        j > 0 ==> best_j < j && best_j == argmax(lg.take(j as int)) && best_val
                            == lg[best_j as int],
                        j == 0 ==> best_j == 0 && best_val == 0,
                    decreases d as usize - j,
                {
                    let s: u32 = (et.data[row + j] as u32) + (bt.data[j] as u32);
                    let val: u16 = (s % 0x10000) as u16;
                    proof {
                        assert(val == lg[j as int]);
                        assert(lg.take(j as int + 1).drop_last() =~= lg.take(j as int));
                        assert(lg.take(j as int + 1).last() == lg[j as int]);
                    }
                    if j == 0 || val > best_val {
                        best_j = j;
                        best_val = val;
                    }
                    j = j + 1;
                }
                proof {
                    assert(lg.take(d as int) =~= lg);
                    assert(d >= 1);
                    assert(best_j == argmax(lg));
                }
                let ghost out0 = out@;
                out.push(best_j as u32);
                i = i + 1;
                proof {
                    assert(out@ =~= out0.push(step_token(ed, bd, d as int, tok)));
                    assert(out0 + (seq![step_token(ed, bd, d as int, tok)] + gen_tokens(
                        ed,
                        bd,
                        v as int,
                        d as int,
                        input@.skip(i as int),
                        (output_capacity - out@.len()) as nat,
                    )) =~= out@ + gen_tokens(
                        ed,
                        bd,
                        v as int,
                        d as int,
                        input@.skip(i as int),
                        (output_capacity - out@.len()) as nat,
                    ));
                }
            }
            proof {
                assert(input@.skip(in_len as int) =~= Seq::<u32>::empty());
                assert(gen_tokens(
                    ed,
                    bd,
                    v as int,
                    d as int,
                    input@.skip(i as int),
                    (output_capacity - out@.len()) as nat,
                ) =~= Seq::<u32>::empty());
                assert(out@ + Seq::<u32>::empty() =~= out@);
            }
            out
        },
    }
}

/// Runs inference against the current model state: the empty result when no
/// model is loaded, the forward pass of the loaded model otherwise.
pub fn run(state: &ModelState, input: &Vec<u32>, output_capacity: usize) -> (r: Vec<u32>)
    requires
        state.wf(),
    ensures
        r@ == spec_run(state.model(), input@, output_capacity as nat),
        r@.len() <= output_capacity,
{
    match state.get_state() {
        None => Vec::new(),
        Some(w) => forward(w, input, output_capacity),
    }
}

} // verus!
