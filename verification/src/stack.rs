//! The programs that the parser emits run on a stack without ever finding
//! it short of operands.

use crate::parser::{applied, joined, power, power_tail, primary, product, product_tail, sum, sum_tail, unary, Op, Parse};
use crate::token::{TType, Tok};
use vstd::prelude::*;

verus! {

/// The height of the stack after one instruction on a stack of height `h`;
/// `None` where the instruction finds too few operands.
pub open spec fn height_step(op: Op, h: int) -> Option<int> {
    match op {
        Op::Push(_) => Some(h + 1),
        Op::Neg | Op::Sqrt | Op::Abs => if h >= 1 {
            Some(h)
        } else {
            None
        },
        _ => if h >= 2 {
            Some(h - 1)
        } else {
            None
        },
    }
}

/// The height of the stack after running `code` on a stack of height `h`;
/// `None` where some instruction finds too few operands.
pub open spec fn height_after(code: Seq<Op>, h: int) -> Option<int>
    decreases code.len(),
{
    if code.len() == 0 {
        Some(h)
    } else {
        match height_after(code.drop_last(), h) {
            Some(k) => height_step(code.last(), k),
            None => None,
        }
    }
}

/// Every `Push` of `code` names a number token of `toks`.
pub open spec fn operands_in(toks: Seq<Tok>, code: Seq<Op>) -> bool {
    forall|i: int|
        0 <= i < code.len() ==> (#[trigger] code[i] matches Op::Push(j) ==> j < toks.len()
            && toks[j as int].typ == TType::NUM)
}

/// `p` runs on a stack of height `h` and leaves `gain` more on it; where it
/// stopped at a failure, what was emitted before still runs, and leaves the
/// stack no lower than it found it.
pub open spec fn runs(toks: Seq<Tok>, p: Parse, h: int, gain: int) -> bool {
    &&& operands_in(toks, p.code)
    &&& match height_after(p.code, h) {
        Some(k) => k >= h && (p.fault is None ==> k == h + gain),
        None => false,
    }
}

/// Running `a + b` is running `a`, then `b`.
pub proof fn lemma_height_concat(a: Seq<Op>, b: Seq<Op>, h: int)
    ensures
        height_after(a + b, h) == match height_after(a, h) {
            Some(k) => height_after(b, k),
            None => None,
        },
    decreases b.len(),
{
    if b.len() == 0 {
        assert(a + b =~= a);
    } else {
        assert((a + b).drop_last() =~= a + b.drop_last());
        assert((a + b).last() == b.last());
        lemma_height_concat(a, b.drop_last(), h);
    }
}

proof fn lemma_applied(toks: Seq<Tok>, p: Parse, op: Op, h: int)
    requires
        runs(toks, p, h, 1),
        h >= 0,
        !(op is Push),
        op is Neg || op is Sqrt || op is Abs || h >= 1,
    ensures
        runs(toks, applied(p, op), h, if op is Neg || op is Sqrt || op is Abs { 1int } else { 0int }),
{
    if p.fault is None {
        assert(p.code.push(op).drop_last() =~= p.code);
        assert(p.code.push(op).last() == op);
    }
}

proof fn lemma_joined(toks: Seq<Tok>, a: Parse, b: Parse, h: int, gain: int)
    requires
        a.fault is None,
        runs(toks, a, h, gain),
        runs(toks, b, h + gain, 0),
    ensures
        runs(toks, joined(a, b), h, gain),
{
    lemma_height_concat(a.code, b.code, h);
}

proof fn lemma_primary(toks: Seq<Tok>, pos: int, h: int)
    requires
        0 <= pos <= toks.len(),
        h >= 0,
        toks.len() <= usize::MAX,
    ensures
        runs(toks, primary(toks, pos), h, 1),
        pos + primary(toks, pos).used <= toks.len(),
    decreases crate::parser::toks_left(toks, pos), 1int,
{
    match crate::parser::kind_at(toks, pos) {
        Some(TType::NUM) => {
            let code = seq![Op::Push(pos as usize)];
            assert(code.drop_last() =~= Seq::<Op>::empty());
            assert(height_after(code.drop_last(), h) == Some(h));
            assert(code.last() == Op::Push(pos as usize));
        },
        Some(TType::LPAR) => {
            lemma_sum(toks, pos + 1, h);
        },
        _ => {},
    }
}

proof fn lemma_unary(toks: Seq<Tok>, pos: int, h: int)
    requires
        0 <= pos <= toks.len(),
        h >= 0,
        toks.len() <= usize::MAX,
    ensures
        runs(toks, unary(toks, pos), h, 1),
        pos + unary(toks, pos).used <= toks.len(),
    decreases crate::parser::toks_left(toks, pos), 2int,
{
    match crate::parser::un_op(crate::parser::kind_at(toks, pos)) {
        Some(op) => {
            lemma_unary(toks, pos + 1, h);
            lemma_applied(toks, unary(toks, pos + 1), op, h);
        },
        None => {
            lemma_primary(toks, pos, h);
        },
    }
}

proof fn lemma_power_tail(toks: Seq<Tok>, pos: int, h: int)
    requires
        0 <= pos <= toks.len(),
        h >= 1,
        toks.len() <= usize::MAX,
    ensures
        runs(toks, power_tail(toks, pos), h, 0),
        pos + power_tail(toks, pos).used <= toks.len(),
    decreases crate::parser::toks_left(toks, pos), 3int,
{
    match crate::parser::pow_op(crate::parser::kind_at(toks, pos)) {
        Some(op) => {
            lemma_unary(toks, pos + 1, h);
            lemma_applied(toks, unary(toks, pos + 1), op, h);
            let r = applied(unary(toks, pos + 1), op);
            if r.fault is None {
                lemma_power_tail(toks, pos + r.used, h);
                lemma_joined(toks, r, power_tail(toks, pos + r.used), h, 0);
            }
        },
        None => {},
    }
}

proof fn lemma_power(toks: Seq<Tok>, pos: int, h: int)
    requires
        0 <= pos <= toks.len(),
        h >= 0,
        toks.len() <= usize::MAX,
    ensures
        runs(toks, power(toks, pos), h, 1),
        pos + power(toks, pos).used <= toks.len(),
    decreases crate::parser::toks_left(toks, pos), 4int,
{
    lemma_unary(toks, pos, h);
    let l = unary(toks, pos);
    if l.fault is None {
        lemma_power_tail(toks, pos + l.used, h + 1);
        lemma_joined(toks, l, power_tail(toks, pos + l.used), h, 1);
    }
}

proof fn lemma_product_tail(toks: Seq<Tok>, pos: int, h: int)
    requires
        0 <= pos <= toks.len(),
        h >= 1,
        toks.len() <= usize::MAX,
    ensures
        runs(toks, product_tail(toks, pos), h, 0),
        pos + product_tail(toks, pos).used <= toks.len(),
    decreases crate::parser::toks_left(toks, pos), 5int,
{
    match crate::parser::mul_op(crate::parser::kind_at(toks, pos)) {
        Some(op) => {
            lemma_power(toks, pos + 1, h);
            lemma_applied(toks, power(toks, pos + 1), op, h);
            let r = applied(power(toks, pos + 1), op);
            if r.fault is None {
                lemma_product_tail(toks, pos + r.used, h);
                lemma_joined(toks, r, product_tail(toks, pos + r.used), h, 0);
            }
        },
        None => {},
    }
}

proof fn lemma_product(toks: Seq<Tok>, pos: int, h: int)
    requires
        0 <= pos <= toks.len(),
        h >= 0,
        toks.len() <= usize::MAX,
    ensures
        runs(toks, product(toks, pos), h, 1),
        pos + product(toks, pos).used <= toks.len(),
    decreases crate::parser::toks_left(toks, pos), 6int,
{
    lemma_power(toks, pos, h);
    let l = power(toks, pos);
    if l.fault is None {
        lemma_product_tail(toks, pos + l.used, h + 1);
        lemma_joined(toks, l, product_tail(toks, pos + l.used), h, 1);
    }
}

proof fn lemma_sum_tail(toks: Seq<Tok>, pos: int, h: int)
    requires
        0 <= pos <= toks.len(),
        h >= 1,
        toks.len() <= usize::MAX,
    ensures
        runs(toks, sum_tail(toks, pos), h, 0),
        pos + sum_tail(toks, pos).used <= toks.len(),
    decreases crate::parser::toks_left(toks, pos), 7int,
{
    match crate::parser::add_op(crate::parser::kind_at(toks, pos)) {
        Some(op) => {
            lemma_product(toks, pos + 1, h);
            lemma_applied(toks, product(toks, pos + 1), op, h);
            let r = applied(product(toks, pos + 1), op);
            if r.fault is None {
                lemma_sum_tail(toks, pos + r.used, h);
                lemma_joined(toks, r, sum_tail(toks, pos + r.used), h, 0);
            }
        },
        None => {},
    }
}

proof fn lemma_sum(toks: Seq<Tok>, pos: int, h: int)
    requires
        0 <= pos <= toks.len(),
        h >= 0,
        toks.len() <= usize::MAX,
    ensures
        runs(toks, sum(toks, pos), h, 1),
        pos + sum(toks, pos).used <= toks.len(),
    decreases crate::parser::toks_left(toks, pos), 8int,
{
    lemma_product(toks, pos, h);
    let l = product(toks, pos);
    if l.fault is None {
        lemma_sum_tail(toks, pos + l.used, h + 1);
        lemma_joined(toks, l, sum_tail(toks, pos + l.used), h, 1);
    }
}

/// Whatever the parser emits from tokens at `pos` on runs on a stack of any
/// height `h`: no instruction finds too few operands, every `Push` names a
/// number token, and a program emitted without failure leaves exactly one
/// value more on the stack.
pub proof fn lemma_program_runs(toks: Seq<Tok>, pos: int, h: int)
    requires
        0 <= pos <= toks.len(),
        h >= 0,
        toks.len() <= usize::MAX,
    ensures
        runs(toks, crate::parser::parse_from(toks, pos), h, 1),
{
    if toks.len() > 0 {
        lemma_sum(toks, pos, h);
    }
}

/// Parsing never takes more tokens than there are: from a position within
/// the token sequence, the position that parsing ends at lies within it too.
pub proof fn lemma_cursor_stays_within(toks: Seq<Tok>, pos: int)
    requires
        0 <= pos <= toks.len(),
        toks.len() <= usize::MAX,
    ensures
        pos + crate::parser::parse_from(toks, pos).used <= toks.len(),
{
    if toks.len() > 0 {
        lemma_sum(toks, pos, 0);
    }
}

} // verus!
