//! A model of the x86-64 instructions that the native backend emits, and the
//! law that the emitted code returns the value of its expression.
use vstd::prelude::*;

use crate::ast::SpecExpr;
use crate::consteval::{fits_i64, spec_eval_const};
use crate::native::{
    encode_sum, encode_term, encode_terms, fits_i32, law_terms_sum_to_value, le32, le64,
    le_bytes_u32, le_bytes_u64, lemma_sum_concat, negated, spec_build_code, spec_collect, sum,
};

verus! {

/// The number of values of a 64-bit register.
pub open spec fn word() -> int {
    0x1_0000_0000_0000_0000
}

/// A number as a 64-bit register holds it.
pub open spec fn wrap64(x: int) -> int {
    x % word()
}

/// A 64-bit register read as a signed number.
pub open spec fn signed64(x: int) -> int {
    if x >= 0x8000_0000_0000_0000 {
        x - word()
    } else {
        x
    }
}

/// A 32-bit immediate sign-extended.
pub open spec fn sext32(x: int) -> int {
    if x >= 0x8000_0000 {
        x - 0x1_0000_0000
    } else {
        x
    }
}

/// The little-endian 64-bit immediate at `at`.
pub open spec fn imm64(c: Seq<u8>, at: int) -> int {
    c[at] + 0x100 * c[at + 1] + 0x1_0000 * c[at + 2] + 0x100_0000 * c[at + 3] + 0x1_0000_0000 * c[at
        + 4] + 0x100_0000_0000 * c[at + 5] + 0x1_0000_0000_0000 * c[at + 6] + 0x100_0000_0000_0000
        * c[at + 7]
}

/// The little-endian 32-bit immediate at `at`.
pub open spec fn imm32(c: Seq<u8>, at: int) -> int {
    c[at] + 0x100 * c[at + 1] + 0x1_0000 * c[at + 2] + 0x100_0000 * c[at + 3]
}

proof fn lemma_bytes_u64(x: u64)
    ensures
        imm64(le_bytes_u64(x), 0) == x,
{
    let b = le_bytes_u64(x);
    assert(b[0] == x as u8 && b[1] == (x >> 8u64) as u8 && b[2] == (x >> 16u64) as u8 && b[3] == (x
        >> 24u64) as u8 && b[4] == (x >> 32u64) as u8 && b[5] == (x >> 40u64) as u8 && b[6] == (x
        >> 48u64) as u8 && b[7] == (x >> 56u64) as u8);
    assert(x == (x as u8) + 0x100 * ((x >> 8u64) as u8) + 0x1_0000 * ((x >> 16u64) as u8)
        + 0x100_0000 * ((x >> 24u64) as u8) + 0x1_0000_0000 * ((x >> 32u64) as u8) + 0x100_0000_0000
        * ((x >> 40u64) as u8) + 0x1_0000_0000_0000 * ((x >> 48u64) as u8) + 0x100_0000_0000_0000
        * ((x >> 56u64) as u8)) by (bit_vector);
}

proof fn lemma_bytes_u32(x: u32)
    ensures
        imm32(le_bytes_u32(x), 0) == x,
{
    let b = le_bytes_u32(x);
    assert(b[0] == x as u8 && b[1] == (x >> 8u32) as u8 && b[2] == (x >> 16u32) as u8 && b[3] == (x
        >> 24u32) as u8);
    assert(x == (x as u8) + 0x100 * ((x >> 8u32) as u8) + 0x1_0000 * ((x >> 16u32) as u8)
        + 0x100_0000 * ((x >> 24u32) as u8)) by (bit_vector);
}

proof fn lemma_i64_bits(v: i64)
    ensures
        (v as u64) as int == wrap64(v as int),
{
    if v >= 0 {
        assert((v as u64) as int == v as int);
    } else {
        assert(v < 0 ==> (v as u64) as int == v as int + 0x1_0000_0000_0000_0000) by (bit_vector);
        assert(wrap64(v as int) == v as int + word()) by {
            vstd::arithmetic::div_mod::lemma_mod_add_multiples_vanish(v as int, word());
            vstd::arithmetic::div_mod::lemma_small_mod((v as int + word()) as nat, word() as nat);
        }
    }
    if v >= 0 {
        vstd::arithmetic::div_mod::lemma_small_mod(v as nat, word() as nat);
    }
}

proof fn lemma_i32_bits(v: i32)
    ensures
        sext32((v as u32) as int) == v,
{
    assert(v < 0 ==> (v as u32) as int == v as int + 0x1_0000_0000) by (bit_vector);
    assert(v >= 0 ==> (v as u32) as int == v as int) by (bit_vector);
}

/// The bytes of a signed 64-bit number read back as a 64-bit immediate.
pub proof fn lemma_le64(v: int)
    requires
        i64::MIN <= v <= i64::MAX,
    ensures
        imm64(le64(v), 0) == wrap64(v),
{
    lemma_bytes_u64((v as i64) as u64);
    lemma_i64_bits(v as i64);
}

/// The bytes of a signed 32-bit number read back as a sign-extended immediate.
pub proof fn lemma_le32(v: int)
    requires
        i32::MIN <= v <= i32::MAX,
    ensures
        sext32(imm32(le32(v), 0)) == v,
{
    lemma_bytes_u32((v as i32) as u32);
    lemma_i32_bits(v as i32);
}

/// Runs machine code from `pc` with the given registers: the value of `rax`
/// at `ret`, or `None` on reaching an instruction outside the model. The model
/// knows `mov rax, imm64` (48 B8), `mov rcx, imm64` (48 B9), `add rax, imm32`
/// (48 05, sign-extended), `add rax, rcx` (48 01 C8) and `ret` (C3).
pub open spec fn run_x86(code: Seq<u8>, pc: int, rax: int, rcx: int) -> Option<int>
    decreases code.len() - pc,
{
    if pc < 0 || pc >= code.len() {
        None
    } else if code[pc] == 0xC3 {
        Some(rax)
    } else if code[pc] == 0x48 && pc + 1 < code.len() {
        let op = code[pc + 1];
        if op == 0xB8 && pc + 10 <= code.len() {
            run_x86(code, pc + 10, imm64(code, pc + 2), rcx)
        } else if op == 0xB9 && pc + 10 <= code.len() {
            run_x86(code, pc + 10, rax, imm64(code, pc + 2))
        } else if op == 0x05 && pc + 6 <= code.len() {
            run_x86(code, pc + 6, wrap64(rax + sext32(imm32(code, pc + 2))), rcx)
        } else if op == 0x01 && pc + 3 <= code.len() && code[pc + 2] == 0xC8 {
            run_x86(code, pc + 3, wrap64(rax + rcx), rcx)
        } else {
            None
        }
    } else {
        None
    }
}

/// `b` stands in `c` from index `pc` on.
pub open spec fn placed(c: Seq<u8>, pc: int, b: Seq<u8>) -> bool {
    &&& 0 <= pc
    &&& pc + b.len() <= c.len()
    &&& forall|k: int| 0 <= k < b.len() ==> c[pc + k] == #[trigger] b[k]
}

/// `rcx` after the code of one term.
pub open spec fn rcx_after(t: int, rcx: int) -> int {
    if fits_i32(t) {
        rcx
    } else {
        wrap64(t)
    }
}

pub open spec fn rcx_after_all(ts: Seq<int>, rcx: int) -> int
    decreases ts.len(),
{
    if ts.len() == 0 {
        rcx
    } else {
        rcx_after(ts.last(), rcx_after_all(ts.drop_last(), rcx))
    }
}

proof fn lemma_wrap_add(x: int, y: int)
    ensures
        wrap64(wrap64(x) + y) == wrap64(x + y),
        0 <= wrap64(x) < word(),
{
    vstd::arithmetic::div_mod::lemma_add_mod_noop_right(y, x, word());
    vstd::arithmetic::div_mod::lemma_mod_bound(x, word());
}

proof fn lemma_run_term(c: Seq<u8>, pc: int, t: int, rax: int, rcx: int)
    requires
        placed(c, pc, encode_term(t)),
        fits_i64(t),
    ensures
        run_x86(c, pc, rax, rcx) == run_x86(
            c,
            pc + encode_term(t).len(),
            wrap64(rax + t),
            rcx_after(t, rcx),
        ),
{
    let b = encode_term(t);
    assert(c[pc] == b[0] && c[pc + 1] == b[1]);
    if fits_i32(t) {
        let l = le32(t);
        assert(b =~= seq![0x48u8, 0x05u8] + l);
        assert forall|k: int| 0 <= k < 4 implies c[pc + 2 + k] == l[k] by {
            assert(b[2 + k] == l[k]);
        }
        assert(imm32(c, pc + 2) == imm32(l, 0));
        lemma_le32(t);
        assert(b[0] == 0x48u8 && b[1] == 0x05u8 && b.len() == 6);
        assert(run_x86(c, pc, rax, rcx) == run_x86(c, pc + 6, wrap64(rax + t), rcx));
    } else {
        let l = le64(t);
        assert(b =~= seq![0x48u8, 0xB9u8] + l + seq![0x48u8, 0x01u8, 0xC8u8]);
        assert forall|k: int| 0 <= k < 8 implies c[pc + 2 + k] == l[k] by {
            assert(b[2 + k] == l[k]);
        }
        assert(imm64(c, pc + 2) == imm64(l, 0));
        lemma_le64(t);
        assert(c[pc + 10] == b[10] && c[pc + 11] == b[11] && c[pc + 12] == b[12]);
        assert(b[0] == 0x48u8 && b[1] == 0xB9u8 && b[10] == 0x48u8 && b[11] == 0x01u8 && b[12]
            == 0xC8u8 && b.len() == 13);
        vstd::arithmetic::div_mod::lemma_add_mod_noop_right(rax, t, word());
        assert(run_x86(c, pc, rax, rcx) == run_x86(c, pc + 10, rax, wrap64(t)));
        assert(run_x86(c, pc + 10, rax, wrap64(t)) == run_x86(
            c,
            pc + 13,
            wrap64(rax + wrap64(t)),
            wrap64(t),
        ));
    }
}

proof fn lemma_run_terms(c: Seq<u8>, pc: int, ts: Seq<int>, rax: int, rcx: int)
    requires
        placed(c, pc, encode_terms(ts)),
        forall|k: int| 0 <= k < ts.len() ==> fits_i64(#[trigger] ts[k]),
        0 <= rax < word(),
    ensures
        run_x86(c, pc, rax, rcx) == run_x86(
            c,
            pc + encode_terms(ts).len(),
            wrap64(rax + sum(ts)),
            rcx_after_all(ts, rcx),
        ),
    decreases ts.len(),
{
    if ts.len() == 0 {
        vstd::arithmetic::div_mod::lemma_small_mod(rax as nat, word() as nat);
    } else {
        let pre = ts.drop_last();
        let a = encode_terms(pre);
        let b = encode_term(ts.last());
        assert(encode_terms(ts) == a + b);
        assert forall|k: int| 0 <= k < a.len() implies c[pc + k] == #[trigger] a[k] by {
            assert((a + b)[k] == a[k]);
        }
        assert forall|k: int| 0 <= k < b.len() implies c[pc + a.len() + k] == #[trigger] b[k] by {
            assert((a + b)[a.len() + k] == b[k]);
        }
        assert forall|k: int| 0 <= k < pre.len() implies fits_i64(#[trigger] pre[k]) by {
            assert(pre[k] == ts[k]);
        }
        assert(fits_i64(ts[ts.len() - 1]));
        lemma_run_terms(c, pc, pre, rax, rcx);
        let r1 = wrap64(rax + sum(pre));
        lemma_wrap_add(rax + sum(pre), ts.last());
        lemma_run_term(c, pc + a.len(), ts.last(), r1, rcx_after_all(pre, rcx));
    }
}

/// The terms of a constant additive expression are numbers of `i64` above its minimum.
proof fn lemma_collect_bounded(e: SpecExpr, out: Seq<int>)
    requires
        forall|k: int| 0 <= k < out.len() ==> -i64::MAX <= #[trigger] out[k] <= i64::MAX,
    ensures
        forall|k: int|
            0 <= k < spec_collect(e, out).0.len() ==> -i64::MAX <= #[trigger] spec_collect(
                e,
                out,
            ).0[k] <= i64::MAX,
    decreases e,
{
    match e {
        SpecExpr::Number(n) => {
            let res = spec_collect(e, out).0;
            assert forall|k: int| 0 <= k < res.len() implies -i64::MAX <= #[trigger] res[k]
                <= i64::MAX by {
                if k < out.len() {
                    assert(res[k] == out[k]);
                } else {
                    assert(res[k] == n as int);
                }
            }
        },
        SpecExpr::Add(l, r) => {
            lemma_collect_bounded(*l, out);
            let o1 = spec_collect(*l, out).0;
            lemma_collect_bounded(*r, o1);
            let res = spec_collect(e, out).0;
            assert(res == o1 || res == spec_collect(*r, o1).0);
        },
        SpecExpr::Sub(l, r) => {
            lemma_collect_bounded(*l, out);
            lemma_collect_bounded(*r, Seq::empty());
            let o1 = spec_collect(*l, out).0;
            let rhs = spec_collect(*r, Seq::empty()).0;
            let o = o1 + negated(rhs);
            assert forall|k: int| 0 <= k < o.len() implies -i64::MAX <= #[trigger] o[k] <= i64::MAX by {
                if k < o1.len() {
                    assert(o[k] == o1[k]);
                } else {
                    assert(o[k] == -rhs[k - o1.len()]);
                }
            }
            let res = spec_collect(e, out).0;
            assert(res == o1 || res == o);
        },
        _ => {
            assert(spec_collect(e, out).0 == out);
        },
    }
}

/// The emitted machine code returns the value of its expression: run from its
/// first byte, with any values in the registers, it reaches `ret` with the
/// expression's value in `rax`, read as a signed 64-bit number. This holds
/// wherever that value is a number of `i64`.
pub proof fn law_native_code_returns_value(e: SpecExpr, rax: int, rcx: int)
    requires
        spec_build_code(e) is Ok,
        spec_eval_const(e) is Some ==> fits_i64(spec_eval_const(e)->0),
    ensures
        spec_eval_const(e) is Some,
        run_x86(spec_build_code(e)->Ok_0, 0, rax, rcx) == Some(wrap64(spec_eval_const(e)->0)),
        signed64(wrap64(spec_eval_const(e)->0)) == spec_eval_const(e)->0,
{
    law_terms_sum_to_value(e);
    let ts = spec_collect(e, Seq::empty()).0;
    let v = spec_eval_const(e)->0;
    lemma_collect_bounded(e, Seq::empty());
    let code = encode_sum(ts);
    let rest = ts.skip(1);
    let head = seq![0x48u8, 0xB8u8] + le64(ts[0]);
    let mid = encode_terms(rest);
    assert(code == head + mid + seq![0xC3u8]);
    assert(fits_i64(ts[0]));
    assert forall|k: int| 0 <= k < 8 implies code[2 + k] == le64(ts[0])[k] by {
        assert(code[2 + k] == head[2 + k]);
    }
    assert(imm64(code, 2) == imm64(le64(ts[0]), 0));
    lemma_le64(ts[0]);
    assert(code[0] == 0x48u8 && code[1] == 0xB8u8);
    assert(run_x86(code, 0, rax, rcx) == run_x86(code, 10, wrap64(ts[0]), rcx));
    assert forall|k: int| 0 <= k < mid.len() implies code[10 + k] == #[trigger] mid[k] by {
        assert(code[10 + k] == (head + mid)[10 + k]);
    }
    assert forall|k: int| 0 <= k < rest.len() implies fits_i64(#[trigger] rest[k]) by {
        assert(rest[k] == ts[k + 1]);
    }
    lemma_wrap_add(ts[0], 0);
    lemma_run_terms(code, 10, rest, wrap64(ts[0]), rcx);
    lemma_wrap_add(ts[0], sum(rest));
    assert(code[10 + mid.len() as int] == 0xC3u8);
    assert(ts =~= seq![ts[0]] + rest);
    lemma_sum_concat(seq![ts[0]], rest);
    reveal_with_fuel(sum, 2);
    assert(sum(ts) == ts[0] + sum(rest));
    if v >= 0 {
        vstd::arithmetic::div_mod::lemma_small_mod(v as nat, word() as nat);
    } else {
        vstd::arithmetic::div_mod::lemma_mod_add_multiples_vanish(v, word());
        vstd::arithmetic::div_mod::lemma_small_mod((v + word()) as nat, word() as nat);
    }
}

} // verus!
