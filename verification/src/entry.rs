//! The two guest entry points, expressed over an explicit linear memory.
//!
//! Linear memory is the flat byte array the host and guest share; a pointer
//! is a byte offset into it, and offset zero is the null pointer.  Both
//! operations absorb every error into a silent no-op, as the fixed
//! host-facing calling convention demands: a failed load leaves the current
//! model in place, and a failed or model-less inference call leaves the
//! memory untouched.  `run_inference` additionally reports how many output
//! elements it wrote; bytes past the last written element keep their prior
//! contents.

use vstd::prelude::*;
use crate::bytes::{le32_at, le32_bytes};
use crate::engine::{run, spec_run};
use crate::format::parse_model;
use crate::state::ModelState;
use crate::view::{make_view, span_ok, view_read_u32, view_write_u32};

verus! {

/// The `n` 32-bit tokens stored little-endian at byte address `base`.
pub open spec fn tokens_at(b: Seq<u8>, base: int, n: nat) -> Seq<u32> {
    Seq::new(n, |i: int| le32_at(b, base + 4 * i))
}

/// The concatenated little-endian bytes of a sequence of 32-bit tokens.
pub open spec fn ser_u32s(s: Seq<u32>) -> Seq<u8>
    decreases s.len(),
{
    if s.len() == 0 {
        Seq::empty()
    } else {
        le32_bytes(s[0]) + ser_u32s(s.drop_first())
    }
}

/// `ser_u32s` writes four bytes per token.
pub proof fn lemma_ser_u32s_len(s: Seq<u32>)
    ensures
        ser_u32s(s).len() == 4 * s.len(),
    decreases s.len(),
{
    if s.len() > 0 {
        lemma_ser_u32s_len(s.drop_first());
    }
}

/// Appending a token appends its four bytes.
pub proof fn lemma_ser_u32s_snoc(s: Seq<u32>, x: u32)
    ensures
        ser_u32s(s.push(x)) == ser_u32s(s) + le32_bytes(x),
    decreases s.len(),
{
    if s.len() == 0 {
        assert(s.push(x)[0] == x);
        assert(s.push(x).drop_first() =~= Seq::<u32>::empty());
        assert(ser_u32s(Seq::<u32>::empty()) =~= Seq::<u8>::empty());
        assert(ser_u32s(s.push(x)) == le32_bytes(x) + ser_u32s(Seq::<u32>::empty()));
        assert(le32_bytes(x) + Seq::<u8>::empty() =~= le32_bytes(x));
        assert(ser_u32s(s) + le32_bytes(x) =~= le32_bytes(x));
    } else {
        assert(s.push(x).drop_first() =~= s.drop_first().push(x));
        lemma_ser_u32s_snoc(s.drop_first(), x);
        assert(s.push(x)[0] == s[0]);
        assert(ser_u32s(s.push(x)) == le32_bytes(s[0]) + (ser_u32s(s.drop_first())
            + le32_bytes(x)));
        assert(le32_bytes(s[0]) + (ser_u32s(s.drop_first()) + le32_bytes(x)) =~= (le32_bytes(s[0])
            + ser_u32s(s.drop_first())) + le32_bytes(x));
    }
}

/// Memory after writing `toks` at byte address `base`: those bytes replaced
/// with the tokens' little-endian form, everything else untouched.
pub open spec fn write_tokens(b: Seq<u8>, base: int, toks: Seq<u32>) -> Seq<u8> {
    b.take(base) + ser_u32s(toks) + b.skip(base + 4 * toks.len())
}

/// Loads a model from the byte span `(ptr, len)` of linear memory.
///
/// An invalid span — null with non-zero length, or running past the end of
/// memory — is a silent no-op, as is every parse failure: the previously
/// loaded model, if any, stays exactly as it was.  Only a fully validated
/// buffer replaces the current model.
#[verifier::loop_isolation(false)]
pub fn load_model(state: &mut ModelState, mem: &Vec<u8>, ptr: usize, len: usize)
    requires
        old(state).wf(),
    ensures
        final(state).wf(),
        !span_ok(mem@.len() as int, ptr as int, len as int, 1) ==> final(state).model() == old(
            state,
        ).model(),
        span_ok(mem@.len() as int, ptr as int, len as int, 1) ==> (match parse_model(
            mem@.subrange(ptr as int, ptr as int + len as int),
        ) {
            Ok(m) => final(state).model() == Some(m),
            Err(_) => final(state).model() == old(state).model(),
        }),
{
    match make_view(mem.len(), ptr, len, 1) {
        Err(_) => {},
        Ok(_) => {
            // Copy the viewed bytes into an owned buffer: the parsed model
            // must not alias caller-owned memory.
            let mut owned: Vec<u8> = Vec::new();
            let mut i: usize = 0;
            while i < len
                invariant
                    i <= len,
                    ptr + len <= mem@.len(),
                    owned@ =~= mem@.subrange(ptr as int, ptr as int + i as int),
                decreases len - i,
            {
                owned.push(mem[ptr + i]);
                i = i + 1;
                proof {
                    assert(owned@ =~= mem@.subrange(ptr as int, ptr as int + i as int));
                }
            }
            let _r = state.load(&owned);
        },
    }
}

/// Runs inference over the token span `(input_ptr, input_len)`, writing the
/// result to the span `(output_ptr, output_len)` and reporting how many
/// elements were written.
///
/// Without a loaded model, or with either span invalid, nothing is written
/// and zero is reported.  Otherwise the engine's result — a pure function of
/// the loaded model, the input tokens and the output capacity — is written
/// element by element from the start of the output span; all other bytes of
/// memory keep their prior contents.
#[verifier::loop_isolation(false)]
#[verifier::rlimit(80)]
pub fn run_inference(
    state: &ModelState,
    mem: &mut Vec<u8>,
    input_ptr: usize,
    input_len: usize,
    output_ptr: usize,
    output_len: usize,
) -> (written: usize)
    requires
        state.wf(),
    ensures
        final(mem)@.len() == old(mem)@.len(),
        written <= output_len,
        ({
            let ok = state.model() is Some && span_ok(
                old(mem)@.len() as int,
                input_ptr as int,
                input_len as int,
                4,
            ) && span_ok(old(mem)@.len() as int, output_ptr as int, output_len as int, 4);
            if ok {
                let outt = spec_run(
                    state.model(),
                    tokens_at(old(mem)@, input_ptr as int, input_len as nat),
                    output_len as nat,
                );
                written == outt.len() && final(mem)@ == write_tokens(
                    old(mem)@,
                    output_ptr as int,
                    outt,
                )
            } else {
                final(mem)@ == old(mem)@ && written == 0
            }
        }),
{
    let loaded = match state.get_state() {
        None => false,
        Some(_) => true,
    };
    if !loaded {
        return 0;
    }
    let n: usize = mem.len();
    let iv = match make_view(n, input_ptr, input_len, 4) {
        Err(_) => {
            return 0;
        },
        Ok(v) => v,
    };
    let ov = match make_view(n, output_ptr, output_len, 4) {
        Err(_) => {
            return 0;
        },
        Ok(v) => v,
    };

    // Read the input tokens out of memory.
    let mut toks: Vec<u32> = Vec::new();
    let mut i: usize = 0;
    while i < input_len
        invariant
            i <= input_len,
            toks@ =~= tokens_at(mem@, input_ptr as int, i as nat),
        decreases input_len - i,
    {
        toks.push(view_read_u32(mem, &iv, i));
        i = i + 1;
        proof {
            assert(toks@ =~= tokens_at(mem@, input_ptr as int, i as nat));
        }
    }
    proof {
        assert(toks@ =~= tokens_at(mem@, input_ptr as int, input_len as nat));
    }

    // Run the forward pass, then write the result.
    let out = run(state, &toks, output_len);
    let ghost mem0 = mem@;
    let outn = out.len();
    let p = output_ptr;
    proof {
        lemma_ser_u32s_len(out@.take(0));
        assert(out@.take(0) =~= Seq::<u32>::empty());
        assert(mem0.take(p as int) + ser_u32s(out@.take(0)) + mem0.skip(p as int) =~= mem0);
    }
    let mut j: usize = 0;
    while j < outn
        invariant
            j <= outn,
            mem@.len() == mem0.len(),
            mem@ =~= mem0.take(p as int) + ser_u32s(out@.take(j as int)) + mem0.skip(
                p as int + 4 * (j as int),
            ),
        decreases outn - j,
    {
        let ghost memj = mem@;
        view_write_u32(mem, &ov, j, out[j]);
        j = j + 1;
        proof {
            lemma_ser_u32s_len(out@.take(j - 1));
            lemma_ser_u32s_len(out@.take(j as int));
            assert(out@.take(j as int) =~= out@.take(j - 1).push(out@[j - 1]));
            lemma_ser_u32s_snoc(out@.take(j - 1), out@[j - 1]);
            assert(mem@ =~= mem0.take(p as int) + ser_u32s(out@.take(j as int)) + mem0.skip(
                p as int + 4 * (j as int),
            ));
        }
    }
    proof {
        assert(out@.take(outn as int) =~= out@);
        assert(mem@ =~= write_tokens(mem0, p as int, out@));
    }
    outn
}

} // verus!
