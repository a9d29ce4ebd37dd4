//! The native backend: constant additive expressions as x86-64 machine code.
use vstd::prelude::*;
use vstd::string::*;

use crate::ast::{Expr, Program, SpecExpr, SpecProgram};
use crate::bytecode::{first_handler, spec_first_handler};
use crate::consteval::{
    eval_const_expr, find_first_const_expr, spec_eval_const, spec_eval_ok, spec_find_first,
    spec_find_in_stmt, spec_find_ok, spec_find_stmt_ok, spec_eval_bool,
};
use crate::error::{CompileError, SpecCompileError};
use crate::text::{push_signed, signed_text};

verus! {

pub open spec fn msg_too_large() -> Seq<char> {
    "native backend: number too large for i64"@
}

pub open spec fn msg_not_additive() -> Seq<char> {
    "native backend supports only constant additive expressions"@
}

/// The values of a sequence of `i64`.
pub open spec fn ints(s: Seq<i64>) -> Seq<int> {
    Seq::new(s.len(), |i: int| s[i] as int)
}

/// Every value negated.
pub open spec fn negated(s: Seq<int>) -> Seq<int> {
    Seq::new(s.len(), |i: int| -s[i])
}

/// The terms of a constant additive expression appended to `out`, the
/// subtracted ones negated; or the message of the first unsupported part.
/// On an error, `out` keeps the terms appended before it.
pub open spec fn spec_collect(e: SpecExpr, out: Seq<int>) -> (Seq<int>, Option<Seq<char>>)
    decreases e,
{
    match e {
        SpecExpr::Number(n) => if n <= i64::MAX {
            (out.push(n as int), None)
        } else {
            (out, Some(msg_too_large()))
        },
        SpecExpr::Add(l, r) => {
            let (o1, e1) = spec_collect(*l, out);
            if e1 is Some {
                (o1, e1)
            } else {
                spec_collect(*r, o1)
            }
        },
        SpecExpr::Sub(l, r) => {
            let (o1, e1) = spec_collect(*l, out);
            if e1 is Some {
                (o1, e1)
            } else {
                let (rhs, e2) = spec_collect(*r, Seq::empty());
                if e2 is Some {
                    (o1, e2)
                } else {
                    (o1 + negated(rhs), None)
                }
            }
        },
        _ => (out, Some(msg_not_additive())),
    }
}

/// Whether every value from index `from` on is above `i64::MIN`, so that it can be negated.
pub open spec fn negatable_from(s: Seq<i64>, from: int) -> bool {
    forall|k: int| from <= k < s.len() ==> #[trigger] s[k] > i64::MIN
}

/// Appends the terms of a constant additive expression to `out`; what was in
/// `out` stays, and every appended term is above `i64::MIN`.
pub fn collect_add_terms(expr: &Expr, out: &mut Vec<i64>) -> (r: Result<(), CompileError>)
    ensures
        ints(final(out)@) == spec_collect(expr@, ints(old(out)@)).0,
        old(out)@.len() <= final(out)@.len(),
        final(out)@.subrange(0, old(out)@.len() as int) == old(out)@,
        negatable_from(final(out)@, old(out)@.len() as int),
        match spec_collect(expr@, ints(old(out)@)).1 {
            None => r is Ok,
            Some(m) => r is Err && r->Err_0@ == SpecCompileError::Verify(m),
        },
    decreases expr,
{
    let ghost o = ints(out@);
    let ghost raw = out@;
    match expr {
        Expr::Number(n) => {
            if *n > 9223372036854775807u64 {
                return Err(
                    CompileError::Verify(String::from_str("native backend: number too large for i64")),
                );
            }
            let value = *n as i64;
            out.push(value);
            assert(ints(out@) =~= o.push(*n as int));
            assert(out@.subrange(0, raw.len() as int) =~= raw);
            Ok(())
        },
        Expr::Add(l, r) => {
            collect_add_terms(l, out)?;
            let ghost mid = out@;
            assert(negatable_from(mid, raw.len() as int));
            let res = collect_add_terms(r, out);
            assert(out@.subrange(0, raw.len() as int) =~= mid.subrange(0, raw.len() as int)) by {
                assert forall|k: int| 0 <= k < raw.len() implies out@[k] == mid[k] by {
                    assert(out@.subrange(0, mid.len() as int)[k] == mid[k]);
                }
            }
            assert forall|k: int| raw.len() <= k < out@.len() implies #[trigger] out@[k] > i64::MIN by {
                if k < mid.len() {
                    assert(out@.subrange(0, mid.len() as int)[k] == mid[k]);
                }
            }
            res
        },
        Expr::Sub(l, r) => {
            collect_add_terms(l, out)?;
            let ghost o1 = ints(out@);
            let ghost mid = out@;
            let mut rhs: Vec<i64> = Vec::new();
            assert(ints(rhs@) =~= Seq::<int>::empty());
            collect_add_terms(r, &mut rhs)?;
            let ghost rv = ints(rhs@);
            let mut i: usize = 0;
            assert(out@.subrange(0, mid.len() as int) =~= mid);
            while i < rhs.len()
                invariant
                    i <= rhs.len(),
                    rv == ints(rhs@),
                    negatable_from(rhs@, 0),
                    negatable_from(mid, raw.len() as int),
                    mid.subrange(0, raw.len() as int) == raw,
                    raw.len() <= mid.len() <= out@.len(),
                    out@.subrange(0, mid.len() as int) == mid,
                    negatable_from(out@, mid.len() as int),
                    ints(out@) == o1 + negated(rv.take(i as int)),
                decreases rhs.len() - i,
            {
                let value = rhs[i];
                assert(value > i64::MIN);
                let ghost before = ints(out@);
                let ghost braw = out@;
                out.push(-value);
                assert(out@.subrange(0, mid.len() as int) =~= braw.subrange(0, mid.len() as int));
                assert forall|k: int| mid.len() <= k < out@.len() implies #[trigger] out@[k] > i64::MIN by {
                    if k < braw.len() {
                        assert(out@[k] == braw[k]);
                    }
                }
                assert(ints(out@) =~= before.push(-(value as int)));
                assert(rv[i as int] == value as int);
                assert(negated(rv.take(i + 1)) =~= negated(rv.take(i as int)).push(-rv[i as int]));
                assert(ints(out@) =~= o1 + negated(rv.take(i + 1)));
                i = i + 1;
            }
            assert(rv.take(rhs.len() as int) =~= rv);
            assert(out@.subrange(0, raw.len() as int) =~= raw) by {
                assert forall|k: int| 0 <= k < raw.len() implies out@[k] == raw[k] by {
                    assert(out@.subrange(0, mid.len() as int)[k] == mid[k]);
                    assert(mid.subrange(0, raw.len() as int)[k] == raw[k]);
                }
            }
            assert forall|k: int| raw.len() <= k < out@.len() implies #[trigger] out@[k] > i64::MIN by {
                if k < mid.len() {
                    assert(out@.subrange(0, mid.len() as int)[k] == mid[k]);
                }
            }
            Ok(())
        },
        _ => Err(
            CompileError::Verify(
                String::from_str("native backend supports only constant additive expressions"),
            ),
        ),
    }
}


/// The little-endian bytes of a 64-bit word.
pub open spec fn le_bytes_u64(x: u64) -> Seq<u8> {
    seq![
        x as u8,
        (x >> 8u64) as u8,
        (x >> 16u64) as u8,
        (x >> 24u64) as u8,
        (x >> 32u64) as u8,
        (x >> 40u64) as u8,
        (x >> 48u64) as u8,
        (x >> 56u64) as u8,
    ]
}

/// The little-endian bytes of a 32-bit word.
pub open spec fn le_bytes_u32(x: u32) -> Seq<u8> {
    seq![x as u8, (x >> 8u32) as u8, (x >> 16u32) as u8, (x >> 24u32) as u8]
}

/// The two's complement bytes of an `i64`, little-endian.
pub open spec fn le64(v: int) -> Seq<u8> {
    le_bytes_u64((v as i64) as u64)
}

/// The two's complement bytes of an `i32`, little-endian.
pub open spec fn le32(v: int) -> Seq<u8> {
    le_bytes_u32((v as i32) as u32)
}

pub open spec fn fits_i32(v: int) -> bool {
    i32::MIN <= v <= i32::MAX
}

/// The code that adds one more term to `rax`: `add rax, imm32` (sign-extended)
/// when the term fits in 32 bits, else `mov rcx, imm64; add rax, rcx`.
pub open spec fn encode_term(t: int) -> Seq<u8> {
    if fits_i32(t) {
        seq![0x48u8, 0x05u8] + le32(t)
    } else {
        seq![0x48u8, 0xB9u8] + le64(t) + seq![0x48u8, 0x01u8, 0xC8u8]
    }
}

pub open spec fn encode_terms(ts: Seq<int>) -> Seq<u8>
    decreases ts.len(),
{
    if ts.len() == 0 {
        Seq::empty()
    } else {
        encode_terms(ts.drop_last()) + encode_term(ts.last())
    }
}

/// `mov rax, imm64` of the first term, the additions of the others, `ret`.
pub open spec fn encode_sum(ts: Seq<int>) -> Seq<u8> {
    seq![0x48u8, 0xB8u8] + le64(ts[0]) + encode_terms(ts.skip(1)) + seq![0xC3u8]
}

/// The machine code that returns the value of a constant additive expression.
pub open spec fn spec_build_code(e: SpecExpr) -> Result<Seq<u8>, SpecCompileError> {
    let (ts, err) = spec_collect(e, Seq::empty());
    match err {
        Some(m) => Err(SpecCompileError::Verify(m)),
        None => if ts.len() == 0 {
            Err(SpecCompileError::Verify("native backend: expression has no terms"@))
        } else {
            Ok(encode_sum(ts))
        },
    }
}

fn push_le64(code: &mut Vec<u8>, v: i64)
    ensures
        final(code)@ == old(code)@ + le64(v as int),
{
    let x = v as u64;
    code.push(x as u8);
    code.push((x >> 8u64) as u8);
    code.push((x >> 16u64) as u8);
    code.push((x >> 24u64) as u8);
    code.push((x >> 32u64) as u8);
    code.push((x >> 40u64) as u8);
    code.push((x >> 48u64) as u8);
    code.push((x >> 56u64) as u8);
    assert(code@ =~= old(code)@ + le64(v as int));
}

fn push_le32(code: &mut Vec<u8>, v: i32)
    ensures
        final(code)@ == old(code)@ + le32(v as int),
{
    let x = v as u32;
    code.push(x as u8);
    code.push((x >> 8u32) as u8);
    code.push((x >> 16u32) as u8);
    code.push((x >> 24u32) as u8);
    assert(code@ =~= old(code)@ + le32(v as int));
}

pub fn build_x86_64_return_expr(expr: &Expr) -> (r: Result<Vec<u8>, CompileError>)
    ensures
        match spec_build_code(expr@) {
            Ok(code) => r is Ok && r->Ok_0@ == code,
            Err(e) => r is Err && r->Err_0@ == e,
        },
{
    let mut terms: Vec<i64> = Vec::new();
    assert(ints(terms@) =~= Seq::<int>::empty());
    collect_add_terms(expr, &mut terms)?;
    let ghost ts = ints(terms@);
    if terms.len() == 0 {
        return Err(CompileError::Verify(String::from_str("native backend: expression has no terms")));
    }
    let mut code: Vec<u8> = Vec::new();
    code.push(0x48u8);
    code.push(0xB8u8);
    push_le64(&mut code, terms[0]);
    let ghost head = code@;
    assert(head =~= seq![0x48u8, 0xB8u8] + le64(ts[0]));
    let mut i: usize = 1;
    assert(ts.skip(1).take(0) =~= Seq::<int>::empty());
    while i < terms.len()
        invariant
            1 <= i <= terms.len(),
            ts == ints(terms@),
            code@ == head + encode_terms(ts.skip(1).take(i - 1)),
        decreases terms.len() - i,
    {
        let term = terms[i];
        let ghost before = code@;
        if -2147483648i64 <= term && term <= 2147483647i64 {
            let imm32 = term as i32;
            code.push(0x48u8);
            code.push(0x05u8);
            push_le32(&mut code, imm32);
        } else {
            code.push(0x48u8);
            code.push(0xB9u8);
            push_le64(&mut code, term);
            code.push(0x48u8);
            code.push(0x01u8);
            code.push(0xC8u8);
        }
        assert(code@ =~= before + encode_term(ts[i as int]));
        assert(ts.skip(1).take(i as int).drop_last() =~= ts.skip(1).take(i - 1));
        assert(ts.skip(1).take(i as int).last() == ts[i as int]);
        i = i + 1;
    }
    assert(ts.skip(1).take(terms.len() - 1) =~= ts.skip(1));
    code.push(0xC3u8);
    assert(code@ =~= encode_sum(ts));
    Ok(code)
}


/// Machine code for the native backend and the value it must return.
pub struct NativeJob {
    pub code: Vec<u8>,
    pub expected: i64,
}

/// The code and the expected value for the first constant expression of the
/// first contract handler, or why there is none.
pub open spec fn spec_prepare_native(p: SpecProgram) -> Result<(Seq<u8>, int), SpecCompileError> {
    match spec_first_handler(p) {
        None => Err(SpecCompileError::Verify("native backend: no contract handler found"@)),
        Some(h) => match spec_find_first(h.body) {
            None => Err(
                SpecCompileError::Verify(
                    "native backend supports only handlers with at least one constant arithmetic expression"@,
                ),
            ),
            Some(e) => match spec_eval_const(e) {
                None => Err(SpecCompileError::Verify("native backend could not evaluate expression"@)),
                Some(v) => match spec_build_code(e) {
                    Ok(code) => Ok((code, v)),
                    Err(err) => Err(err),
                },
            },
        },
    }
}

/// The search in the first contract handler evaluates within `i64`.
pub open spec fn native_search_ok(p: SpecProgram) -> bool {
    spec_first_handler(p) matches Some(h) ==> spec_find_ok(h.body)
}

pub fn prepare_native(program: &Program) -> (r: Result<NativeJob, CompileError>)
    requires
        native_search_ok(program@),
    ensures
        match spec_prepare_native(program@) {
            Ok((code, v)) => r is Ok && r->Ok_0.code@ == code && r->Ok_0.expected as int == v,
            Err(e) => r is Err && r->Err_0@ == e,
        },
{
    let handler = match first_handler(program) {
        Some(h) => h,
        None => {
            return Err(
                CompileError::Verify(String::from_str("native backend: no contract handler found")),
            );
        },
    };
    proof {
        crate::consteval::lemma_found_is_constant(crate::ast::views(handler.body@));
    }
    let expr = match find_first_const_expr(handler.body.as_slice()) {
        Some(e) => e,
        None => {
            return Err(
                CompileError::Verify(
                    String::from_str(
                        "native backend supports only handlers with at least one constant arithmetic expression",
                    ),
                ),
            );
        },
    };
    let expected = match eval_const_expr(expr) {
        Some(v) => v,
        None => {
            return Err(
                CompileError::Verify(String::from_str("native backend could not evaluate expression")),
            );
        },
    };
    let code = build_x86_64_return_expr(expr)?;
    Ok(NativeJob { code, expected })
}


/// What the native code returned, held against the expected value.
pub open spec fn spec_native_outcome(got: int, expected: int) -> Result<(), SpecCompileError> {
    if got == expected {
        Ok(())
    } else {
        Err(
            SpecCompileError::Verify(
                "native backend mismatch: got "@ + signed_text(got) + ", expected "@ + signed_text(
                    expected,
                ),
            ),
        )
    }
}

/// Accepts the value that the native code returned when it is the expected one.
pub fn check_native_result(got: i64, expected: i64) -> (r: Result<(), CompileError>)
    ensures
        match spec_native_outcome(got as int, expected as int) {
            Ok(_) => r is Ok,
            Err(e) => r is Err && r->Err_0@ == e,
        },
{
    if got == expected {
        return Ok(());
    }
    let mut msg = String::from_str("native backend mismatch: got ");
    push_signed(&mut msg, got);
    msg.append(", expected ");
    push_signed(&mut msg, expected);
    Err(CompileError::Verify(msg))
}

/// The sum of a sequence of integers.
pub open spec fn sum(s: Seq<int>) -> int
    decreases s.len(),
{
    if s.len() == 0 {
        0
    } else {
        sum(s.drop_last()) + s.last()
    }
}

pub proof fn lemma_sum_concat(a: Seq<int>, b: Seq<int>)
    ensures
        sum(a + b) == sum(a) + sum(b),
    decreases b.len(),
{
    if b.len() > 0 {
        assert((a + b).drop_last() =~= a + b.drop_last());
        lemma_sum_concat(a, b.drop_last());
    } else {
        assert(a + b =~= a);
    }
}

pub proof fn lemma_sum_negated(s: Seq<int>)
    ensures
        sum(negated(s)) == -sum(s),
    decreases s.len(),
{
    if s.len() > 0 {
        assert(negated(s).drop_last() =~= negated(s.drop_last()));
        lemma_sum_negated(s.drop_last());
    }
}

/// Collecting appends to what was there and does not depend on it.
pub proof fn lemma_collect_appends(e: SpecExpr, out: Seq<int>)
    ensures
        spec_collect(e, out).0 == out + spec_collect(e, Seq::empty()).0,
        spec_collect(e, out).1 == spec_collect(e, Seq::empty()).1,
    decreases e,
{
    match e {
        SpecExpr::Number(n) => {
            assert(out.push(n as int) =~= out + Seq::<int>::empty().push(n as int));
            assert(out =~= out + Seq::<int>::empty());
        },
        SpecExpr::Add(l, r) => {
            lemma_collect_appends(*l, out);
            lemma_collect_appends(*l, Seq::empty());
            let o1 = spec_collect(*l, out).0;
            let p1 = spec_collect(*l, Seq::empty()).0;
            lemma_collect_appends(*r, o1);
            lemma_collect_appends(*r, p1);
            assert(o1 + spec_collect(*r, Seq::empty()).0 =~= out + (p1 + spec_collect(
                *r,
                Seq::empty(),
            ).0));
        },
        SpecExpr::Sub(l, r) => {
            lemma_collect_appends(*l, out);
            let o1 = spec_collect(*l, out).0;
            let p1 = spec_collect(*l, Seq::empty()).0;
            let rhs = spec_collect(*r, Seq::empty()).0;
            assert(o1 + negated(rhs) =~= out + (p1 + negated(rhs)));
        },
        _ => {
            assert(out =~= out + Seq::<int>::empty());
        },
    }
}

/// The native backend agrees with the interpreter: an expression has terms
/// exactly when it has a value, and the terms add up to that value.
pub proof fn law_terms_sum_to_value(e: SpecExpr)
    ensures
        spec_collect(e, Seq::empty()).1 is None <==> spec_eval_const(e) is Some,
        spec_collect(e, Seq::empty()).1 is None ==> sum(spec_collect(e, Seq::empty()).0)
            == spec_eval_const(e)->0,
        spec_collect(e, Seq::empty()).1 is None ==> spec_collect(e, Seq::empty()).0.len() > 0,
    decreases e,
{
    match e {
        SpecExpr::Number(n) => {
            reveal_with_fuel(sum, 2);
        },
        SpecExpr::Add(l, r) => {
            law_terms_sum_to_value(*l);
            law_terms_sum_to_value(*r);
            let p1 = spec_collect(*l, Seq::empty()).0;
            lemma_collect_appends(*r, p1);
            lemma_sum_concat(p1, spec_collect(*r, Seq::empty()).0);
        },
        SpecExpr::Sub(l, r) => {
            law_terms_sum_to_value(*l);
            law_terms_sum_to_value(*r);
            let p1 = spec_collect(*l, Seq::empty()).0;
            let rhs = spec_collect(*r, Seq::empty()).0;
            lemma_sum_concat(p1, negated(rhs));
            lemma_sum_negated(rhs);
        },
        _ => {},
    }
}

} // verus!
