use crate::error::{CalcError, CalcResult, Fault};
use crate::token::{TType, Tok};
use vstd::prelude::*;

verus! {

/// One instruction of a postfix program. A program is run on a stack of
/// numbers: `Push` puts the value of a literal on it, a unary instruction
/// replaces the top, a binary one replaces the two on top, the upper being
/// its right operand.
#[derive(Debug, Clone, Copy, PartialEq, Eq, Structural)]
pub enum Op {
    /// The value of the numeric literal at this index of the token sequence.
    Push(usize),
    Add,
    Sub,
    Mul,
    /// Division; it fails on a right operand that is zero.
    Div,
    Mod,
    Pow,
    Neg,
    Sqrt,
    Abs,
}

/// What parsing one construct gives: how many tokens it took, the
/// instructions that compute it, and the failure if there is one. On a
/// failure `code` holds what was emitted before it.
pub struct Parse {
    pub used: nat,
    pub code: Seq<Op>,
    pub fault: Option<Fault>,
}

/// The kind of the token at `pos`, if there is one.
pub open spec fn kind_at(toks: Seq<Tok>, pos: int) -> Option<TType> {
    if 0 <= pos < toks.len() {
        Some(toks[pos].typ)
    } else {
        None
    }
}

pub open spec fn toks_left(toks: Seq<Tok>, pos: int) -> int {
    if pos <= toks.len() {
        toks.len() - pos
    } else {
        0
    }
}

/// Nothing parsed.
pub open spec fn nothing() -> Parse {
    Parse { used: 0, code: Seq::empty(), fault: None }
}

/// An operator token followed by its operand `p`: the operand's code, then
/// `op`. A failure in the operand is the whole's.
pub open spec fn applied(p: Parse, op: Op) -> Parse {
    if p.fault is Some {
        Parse { used: 1 + p.used, code: p.code, fault: p.fault }
    } else {
        Parse { used: 1 + p.used, code: p.code.push(op), fault: None }
    }
}

/// `a`, then `b`.
pub open spec fn joined(a: Parse, b: Parse) -> Parse {
    Parse { used: a.used + b.used, code: a.code + b.code, fault: b.fault }
}

/// The instruction of an operator of the addition tier.
pub open spec fn add_op(k: Option<TType>) -> Option<Op> {
    match k {
        Some(TType::ADD) => Some(Op::Add),
        Some(TType::SUB) => Some(Op::Sub),
        _ => None,
    }
}

/// The instruction of an operator of the multiplication tier.
pub open spec fn mul_op(k: Option<TType>) -> Option<Op> {
    match k {
        Some(TType::MUL) => Some(Op::Mul),
        Some(TType::DIV) => Some(Op::Div),
        Some(TType::MOD) => Some(Op::Mod),
        _ => None,
    }
}

/// The instruction of an operator of the exponentiation tier.
pub open spec fn pow_op(k: Option<TType>) -> Option<Op> {
    match k {
        Some(TType::POW) => Some(Op::Pow),
        _ => None,
    }
}

/// The instruction of a prefix operator.
pub open spec fn un_op(k: Option<TType>) -> Option<Op> {
    match k {
        Some(TType::SUB) => Some(Op::Neg),
        Some(TType::SQRT) => Some(Op::Sqrt),
        Some(TType::ABS) => Some(Op::Abs),
        _ => None,
    }
}

/// `primary := NUMBER | '(' expr ')'`
pub open spec fn primary(toks: Seq<Tok>, pos: int) -> Parse
    decreases toks_left(toks, pos), 1int,
{
    match kind_at(toks, pos) {
        Some(TType::NUM) => Parse { used: 1, code: seq![Op::Push(pos as usize)], fault: None },
        Some(TType::LPAR) => {
            let e = sum(toks, pos + 1);
            if e.fault is Some {
                Parse { used: 1 + e.used, code: e.code, fault: e.fault }
            } else if kind_at(toks, pos + 1 + e.used) == Some(TType::RPAR) {
                Parse { used: 2 + e.used, code: e.code, fault: None }
            } else {
                Parse { used: 1 + e.used, code: e.code, fault: Some(Fault::MismatchedParen) }
            }
        },
        _ => Parse { used: 0, code: Seq::empty(), fault: Some(Fault::InvalidExpr) },
    }
}

/// `unary := '-' unary | 'sqrt' unary | 'abs' unary | primary`
pub open spec fn unary(toks: Seq<Tok>, pos: int) -> Parse
    decreases toks_left(toks, pos), 2int,
{
    match un_op(kind_at(toks, pos)) {
        Some(op) => applied(unary(toks, pos + 1), op),
        None => primary(toks, pos),
    }
}

/// `( '^' unary )*` from `pos` on.
pub open spec fn power_tail(toks: Seq<Tok>, pos: int) -> Parse
    decreases toks_left(toks, pos), 3int,
{
    match pow_op(kind_at(toks, pos)) {
        Some(op) => {
            let r = applied(unary(toks, pos + 1), op);
            if r.fault is Some {
                r
            } else {
                joined(r, power_tail(toks, pos + r.used))
            }
        },
        None => nothing(),
    }
}

/// `exp := unary ( '^' unary )*`, folded from the left.
pub open spec fn power(toks: Seq<Tok>, pos: int) -> Parse
    decreases toks_left(toks, pos), 4int,
{
    let l = unary(toks, pos);
    if l.fault is Some {
        l
    } else {
        joined(l, power_tail(toks, pos + l.used))
    }
}

/// `( ('*' | '/' | '%') exp )*` from `pos` on.
pub open spec fn product_tail(toks: Seq<Tok>, pos: int) -> Parse
    decreases toks_left(toks, pos), 5int,
{
    match mul_op(kind_at(toks, pos)) {
        Some(op) => {
            let r = applied(power(toks, pos + 1), op);
            if r.fault is Some {
                r
            } else {
                joined(r, product_tail(toks, pos + r.used))
            }
        },
        None => nothing(),
    }
}

/// `mul := exp ( ('*' | '/' | '%') exp )*`, folded from the left.
pub open spec fn product(toks: Seq<Tok>, pos: int) -> Parse
    decreases toks_left(toks, pos), 6int,
{
    let l = power(toks, pos);
    if l.fault is Some {
        l
    } else {
        joined(l, product_tail(toks, pos + l.used))
    }
}

/// `( ('+' | '-') mul )*` from `pos` on.
pub open spec fn sum_tail(toks: Seq<Tok>, pos: int) -> Parse
    decreases toks_left(toks, pos), 7int,
{
    match add_op(kind_at(toks, pos)) {
        Some(op) => {
            let r = applied(product(toks, pos + 1), op);
            if r.fault is Some {
                r
            } else {
                joined(r, sum_tail(toks, pos + r.used))
            }
        },
        None => nothing(),
    }
}

/// `add := mul ( ('+' | '-') mul )*`, folded from the left.
pub open spec fn sum(toks: Seq<Tok>, pos: int) -> Parse
    decreases toks_left(toks, pos), 8int,
{
    let l = product(toks, pos);
    if l.fault is Some {
        l
    } else {
        joined(l, sum_tail(toks, pos + l.used))
    }
}

/// Parsing an expression at `pos`; an empty token sequence is refused.
pub open spec fn parse_from(toks: Seq<Tok>, pos: int) -> Parse {
    if toks.len() == 0 {
        Parse { used: 0, code: Seq::empty(), fault: Some(Fault::EmptyExpr) }
    } else {
        sum(toks, pos)
    }
}

/// Parsing a whole token sequence.
pub open spec fn parse_spec(toks: Seq<Tok>) -> Parse {
    parse_from(toks, 0)
}

/// A construct that began at `start` with `code0` emitted is parsed up to
/// `at` with `code` emitted, and `tail` is what remains of it: the whole is
/// what has been parsed followed by `tail`.
#[verifier::opaque]
spec fn chain(
    whole: Parse,
    tail: Parse,
    start: int,
    at: int,
    code0: Seq<Op>,
    code: Seq<Op>,
) -> bool {
    &&& whole.fault == tail.fault
    &&& start + whole.used == at + tail.used
    &&& code0 + whole.code == code + tail.code
}

proof fn lemma_chain_begins(l: Parse, tail: Parse, start: int, code0: Seq<Op>)
    requires
        l.fault is None,
    ensures
        chain(joined(l, tail), tail, start, start + l.used, code0, code0 + l.code),
{
    reveal(chain);
    assert(code0 + (l.code + tail.code) =~= (code0 + l.code) + tail.code);
}

proof fn lemma_chain_goes_on(
    whole: Parse,
    step: Parse,
    next: Parse,
    start: int,
    at: int,
    code0: Seq<Op>,
    code: Seq<Op>,
)
    requires
        chain(whole, joined(step, next), start, at, code0, code),
    ensures
        chain(whole, next, start, at + step.used, code0, code + step.code),
{
    reveal(chain);
    assert(code + (step.code + next.code) =~= (code + step.code) + next.code);
}

proof fn lemma_chain_ends(
    whole: Parse,
    tail: Parse,
    start: int,
    at: int,
    code0: Seq<Op>,
    code: Seq<Op>,
)
    requires
        chain(whole, tail, start, at, code0, code),
    ensures
        whole.fault == tail.fault,
        start + whole.used == at + tail.used,
        code0 + whole.code == code + tail.code,
        tail.code.len() == 0 ==> code0 + whole.code == code,
{
    reveal(chain);
    if tail.code.len() == 0 {
        assert(code + tail.code =~= code);
    }
}

/// A parser over one token sequence, with its cursor and the instructions
/// emitted so far.
pub struct Parser {
    toks: Vec<Tok>,
    cur: usize,
    code: Vec<Op>,
}

impl Parser {
    /// The tokens being parsed.
    pub closed spec fn tokens(&self) -> Seq<Tok> {
        self.toks@
    }

    /// The position of the next token to read.
    pub closed spec fn cursor(&self) -> int {
        self.cur as int
    }

    /// The instructions emitted so far.
    pub closed spec fn emitted(&self) -> Seq<Op> {
        self.code@
    }

    /// The cursor lies within the token sequence.
    pub open spec fn wf(&self) -> bool {
        0 <= self.cursor() <= self.tokens().len()
    }

    /// `self` is what `before` becomes by parsing `p`, and `r` reports it.
    spec fn follows(&self, before: &Parser, p: Parse, r: CalcResult<()>) -> bool {
        &&& self.wf()
        &&& self.toks == before.toks
        &&& self.cur == before.cur + p.used
        &&& self.code@ == before.code@ + p.code
        &&& match p.fault {
            None => r is Ok,
            Some(f) => r matches Err(e) && e@ == f,
        }
    }

    pub fn new(toks: Vec<Tok>) -> (p: Parser)
        ensures
            p.wf(),
            p.tokens() == toks@,
            p.cursor() == 0,
            p.emitted() == Seq::<Op>::empty(),
    {
        Parser { toks, cur: 0, code: Vec::new() }
    }

    /// Parses one expression from the cursor on and returns the program
    /// emitted so far, or the first failure. After a failure `ops` still
    /// gives what was emitted before it.
    pub fn parse(&mut self) -> (r: CalcResult<Vec<Op>>)
        requires
            old(self).wf(),
        ensures
            final(self).wf(),
            final(self).tokens() == old(self).tokens(),
            final(self).cursor() == old(self).cursor() + parse_from(
                old(self).tokens(),
                old(self).cursor(),
            ).used,
            final(self).emitted() == old(self).emitted() + parse_from(
                old(self).tokens(),
                old(self).cursor(),
            ).code,
            match parse_from(old(self).tokens(), old(self).cursor()).fault {
                None => r matches Ok(v) && v@ == final(self).emitted(),
                Some(f) => r matches Err(e) && e@ == f,
            },
    {
        if self.toks.len() == 0 {
            assert(self.code@ + Seq::<Op>::empty() =~= self.code@);
            return Err(CalcError::EmptyExpr);
        }
        match self.expr() {
            Ok(()) => Ok(self.program()),
            Err(e) => Err(e),
        }
    }

    /// The instructions emitted so far.
    pub fn ops(&self) -> (v: &Vec<Op>)
        ensures
            v@ == self.emitted(),
    {
        &self.code
    }

    /// A copy of the instructions emitted so far.
    fn program(&self) -> (v: Vec<Op>)
        ensures
            v@ == self.code@,
    {
        let mut v: Vec<Op> = Vec::new();
        let mut i: usize = 0;
        while i < self.code.len()
            invariant
                i <= self.code.len(),
                v@ == self.code@.subrange(0, i as int),
            decreases self.code.len() - i,
        {
            v.push(self.code[i]);
            i += 1;
            assert(v@ =~= self.code@.subrange(0, i as int));
        }
        assert(v@ =~= self.code@);
        v
    }

    fn expr(&mut self) -> (r: CalcResult<()>)
        requires
            old(self).wf(),
        ensures
            final(self).follows(old(self), sum(old(self).toks@, old(self).cur as int), r),
        decreases toks_left(old(self).toks@, old(self).cur as int), 9int,
    {
        self.add()
    }

    /// A chain of additions and subtractions, folded from the left.
    fn add(&mut self) -> (r: CalcResult<()>)
        requires
            old(self).wf(),
        ensures
            final(self).follows(old(self), sum(old(self).toks@, old(self).cur as int), r),
        decreases toks_left(old(self).toks@, old(self).cur as int), 8int,
    {
        let ghost t = self.toks@;
        let ghost start = self.cur as int;
        let ghost code0 = self.code@;
        let ghost whole = sum(t, start);
        match self.mul() {
            Ok(()) => {},
            Err(e) => {
                return Err(e);
            },
        }
        let mut go = self.m(&[TType::ADD, TType::SUB]);
        proof {
            let l = product(t, start);
            lemma_chain_begins(l, sum_tail(t, start + l.used), start, code0);
        }
        while go
            invariant
                self.wf(),
                self.toks == old(self).toks,
                t == self.toks@,
                start == old(self).cur,
                code0 == old(self).code@,
                whole == sum(t, start),
                go ==> self.cur >= 1,
                start <= self.cur - (if go { 1int } else { 0int }),
                go == (add_op(kind_at(t, self.cur - (if go { 1int } else { 0int }))) is Some),
                chain(
                    whole,
                    sum_tail(t, self.cur - (if go { 1int } else { 0int })),
                    start,
                    self.cur - (if go { 1int } else { 0int }),
                    code0,
                    self.code@,
                ),
            decreases self.toks.len() - self.cur + (if go { 1int } else { 0int }),
        {
            let ghost at = self.cur - 1;
            let ghost code1 = self.code@;
            let ghost step = applied(product(t, at + 1), add_op(kind_at(t, at))->0);
            let op = self.prev().typ;
            match self.mul() {
                Ok(()) => {},
                Err(e) => {
                    proof {
                        lemma_chain_ends(whole, step, start, at, code0, code1);
                    }
                    return Err(e);
                },
            }
            match op {
                TType::ADD => {
                    self.code.push(Op::Add);
                },
                TType::SUB => {
                    self.code.push(Op::Sub);
                },
                _ => {},
            }
            go = self.m(&[TType::ADD, TType::SUB]);
            proof {
                assert(self.code@ =~= code1 + step.code);
                lemma_chain_goes_on(
                    whole,
                    step,
                    sum_tail(t, at + step.used),
                    start,
                    at,
                    code0,
                    code1,
                );
            }
        }
        proof {
            lemma_chain_ends(whole, nothing(), start, self.cur as int, code0, self.code@);
        }
        Ok(())
    }

    /// A chain of multiplications, divisions and remainders, folded from the left.
    fn mul(&mut self) -> (r: CalcResult<()>)
        requires
            old(self).wf(),
        ensures
            final(self).follows(old(self), product(old(self).toks@, old(self).cur as int), r),
        decreases toks_left(old(self).toks@, old(self).cur as int), 6int,
    {
        let ghost t = self.toks@;
        let ghost start = self.cur as int;
        let ghost code0 = self.code@;
        let ghost whole = product(t, start);
        match self.exp() {
            Ok(()) => {},
            Err(e) => {
                return Err(e);
            },
        }
        let mut go = self.m(&[TType::MUL, TType::DIV, TType::MOD]);
        proof {
            let l = power(t, start);
            lemma_chain_begins(l, product_tail(t, start + l.used), start, code0);
        }
        while go
            invariant
                self.wf(),
                self.toks == old(self).toks,
                t == self.toks@,
                start == old(self).cur,
                code0 == old(self).code@,
                whole == product(t, start),
                go ==> self.cur >= 1,
                start <= self.cur - (if go { 1int } else { 0int }),
                go == (mul_op(kind_at(t, self.cur - (if go { 1int } else { 0int }))) is Some),
                chain(
                    whole,
                    product_tail(t, self.cur - (if go { 1int } else { 0int })),
                    start,
                    self.cur - (if go { 1int } else { 0int }),
                    code0,
                    self.code@,
                ),
            decreases self.toks.len() - self.cur + (if go { 1int } else { 0int }),
        {
            let ghost at = self.cur - 1;
            let ghost code1 = self.code@;
            let ghost step = applied(power(t, at + 1), mul_op(kind_at(t, at))->0);
            let op = self.prev().typ;
            match self.exp() {
                Ok(()) => {},
                Err(e) => {
                    proof {
                        lemma_chain_ends(whole, step, start, at, code0, code1);
                    }
                    return Err(e);
                },
            }
            match op {
                TType::MUL => {
                    self.code.push(Op::Mul);
                },
                TType::DIV => {
                    self.code.push(Op::Div);
                },
                TType::MOD => {
                    self.code.push(Op::Mod);
                },
                _ => {},
            }
            go = self.m(&[TType::MUL, TType::DIV, TType::MOD]);
            proof {
                assert(self.code@ =~= code1 + step.code);
                lemma_chain_goes_on(
                    whole,
                    step,
                    product_tail(t, at + step.used),
                    start,
                    at,
                    code0,
                    code1,
                );
            }
        }
        proof {
            lemma_chain_ends(whole, nothing(), start, self.cur as int, code0, self.code@);
        }
        Ok(())
    }

    /// A chain of exponentiations, folded from the left.
    fn exp(&mut self) -> (r: CalcResult<()>)
        requires
            old(self).wf(),
        ensures
            final(self).follows(old(self), power(old(self).toks@, old(self).cur as int), r),
        decreases toks_left(old(self).toks@, old(self).cur as int), 4int,
    {
        let ghost t = self.toks@;
        let ghost start = self.cur as int;
        let ghost code0 = self.code@;
        let ghost whole = power(t, start);
        match self.un() {
            Ok(()) => {},
            Err(e) => {
                return Err(e);
            },
        }
        let mut go = self.m(&[TType::POW]);
        proof {
            let l = unary(t, start);
            lemma_chain_begins(l, power_tail(t, start + l.used), start, code0);
        }
        while go
            invariant
                self.wf(),
                self.toks == old(self).toks,
                t == self.toks@,
                start == old(self).cur,
                code0 == old(self).code@,
                whole == power(t, start),
                go ==> self.cur >= 1,
                start <= self.cur - (if go { 1int } else { 0int }),
                go == (pow_op(kind_at(t, self.cur - (if go { 1int } else { 0int }))) is Some),
                chain(
                    whole,
                    power_tail(t, self.cur - (if go { 1int } else { 0int })),
                    start,
                    self.cur - (if go { 1int } else { 0int }),
                    code0,
                    self.code@,
                ),
            decreases self.toks.len() - self.cur + (if go { 1int } else { 0int }),
        {
            let ghost at = self.cur - 1;
            let ghost code1 = self.code@;
            let ghost step = applied(unary(t, at + 1), pow_op(kind_at(t, at))->0);
            let op = self.prev().typ;
            match self.un() {
                Ok(()) => {},
                Err(e) => {
                    proof {
                        lemma_chain_ends(whole, step, start, at, code0, code1);
                    }
                    return Err(e);
                },
            }
            match op {
                TType::POW => {
                    self.code.push(Op::Pow);
                },
                _ => {},
            }
            go = self.m(&[TType::POW]);
            proof {
                assert(self.code@ =~= code1 + step.code);
                lemma_chain_goes_on(
                    whole,
                    step,
                    power_tail(t, at + step.used),
                    start,
                    at,
                    code0,
                    code1,
                );
            }
        }
        proof {
            lemma_chain_ends(whole, nothing(), start, self.cur as int, code0, self.code@);
        }
        Ok(())
    }

    /// A prefix operator and its operand, or a primary.
    fn un(&mut self) -> (r: CalcResult<()>)
        requires
            old(self).wf(),
        ensures
            final(self).follows(old(self), unary(old(self).toks@, old(self).cur as int), r),
        decreases toks_left(old(self).toks@, old(self).cur as int), 2int,
    {
        let ghost code0 = self.code@;
        let ghost inner = unary(self.toks@, self.cur + 1);
        if self.m(&[TType::SUB]) {
            match self.un() {
                Ok(()) => {},
                Err(e) => {
                    return Err(e);
                },
            }
            self.code.push(Op::Neg);
            assert(self.code@ =~= code0 + inner.code.push(Op::Neg));
            return Ok(());
        }
        if self.m(&[TType::SQRT]) {
            match self.un() {
                Ok(()) => {},
                Err(e) => {
                    return Err(e);
                },
            }
            self.code.push(Op::Sqrt);
            assert(self.code@ =~= code0 + inner.code.push(Op::Sqrt));
            return Ok(());
        }
        if self.m(&[TType::ABS]) {
            match self.un() {
                Ok(()) => {},
                Err(e) => {
                    return Err(e);
                },
            }
            self.code.push(Op::Abs);
            assert(self.code@ =~= code0 + inner.code.push(Op::Abs));
            return Ok(());
        }
        self.prim()
    }

    /// A number or a group in parentheses.
    fn prim(&mut self) -> (r: CalcResult<()>)
        requires
            old(self).wf(),
        ensures
            final(self).follows(old(self), primary(old(self).toks@, old(self).cur as int), r),
        decreases toks_left(old(self).toks@, old(self).cur as int), 1int,
    {
        let ghost code0 = self.code@;
        if self.m(&[TType::NUM]) {
            self.code.push(Op::Push(self.cur - 1));
            assert(self.code@ =~= code0 + seq![Op::Push((self.cur - 1) as usize)]);
            return Ok(());
        }
        if self.m(&[TType::LPAR]) {
            match self.expr() {
                Ok(()) => {},
                Err(e) => {
                    return Err(e);
                },
            }
            if !self.m(&[TType::RPAR]) {
                return Err(CalcError::MismatchedParen);
            }
            return Ok(());
        }
        assert(self.code@ + Seq::<Op>::empty() =~= self.code@);
        Err(CalcError::InvalidExpr)
    }

    /// Whether the token at the cursor is of one of the kinds `typs`; if so,
    /// the cursor moves past it.
    fn m(&mut self, typs: &[TType]) -> (b: bool)
        requires
            old(self).wf(),
        ensures
            final(self).wf(),
            final(self).toks == old(self).toks,
            final(self).code == old(self).code,
            b == (kind_at(old(self).toks@, old(self).cur as int) is Some && typs@.contains(
                kind_at(old(self).toks@, old(self).cur as int)->0,
            )),
            typs@.len() == 1 ==> b == (kind_at(old(self).toks@, old(self).cur as int) == Some(
                typs@[0],
            )),
            final(self).cur == old(self).cur + (if b {
                1int
            } else {
                0int
            }),
    {
        let mut i: usize = 0;
        while i < typs.len()
            invariant
                *self == *old(self),
                self.wf(),
                i <= typs@.len(),
                forall|k: int|
                    0 <= k < i ==> kind_at(self.toks@, self.cur as int) != Some(
                        #[trigger] typs@[k],
                    ),
            decreases typs.len() - i,
        {
            if self.chk(&typs[i]) {
                self.adv();
                return true;
            }
            i += 1;
        }
        false
    }

    fn chk(&self, t: &TType) -> (b: bool)
        requires
            self.wf(),
        ensures
            b == (kind_at(self.toks@, self.cur as int) == Some(*t)),
    {
        if self.end() {
            return false;
        }
        self.peek().typ == *t
    }

    /// Moves the cursor one token on, unless it is at the end.
    fn adv(&mut self)
        requires
            old(self).wf(),
        ensures
            final(self).wf(),
            final(self).toks == old(self).toks,
            final(self).code == old(self).code,
            final(self).cur == if old(self).cur < old(self).toks.len() {
                old(self).cur + 1
            } else {
                old(self).cur as int
            },
    {
        if !self.end() {
            self.cur += 1;
        }
    }

    fn end(&self) -> (b: bool)
        ensures
            b == (self.cur >= self.toks.len()),
    {
        self.cur >= self.toks.len()
    }

    fn peek(&self) -> (t: &Tok)
        requires
            self.cur < self.toks.len(),
        ensures
            *t == self.toks@[self.cur as int],
    {
        &self.toks[self.cur]
    }

    fn prev(&self) -> (t: &Tok)
        requires
            1 <= self.cur <= self.toks.len(),
        ensures
            *t == self.toks@[self.cur - 1],
    {
        &self.toks[self.cur - 1]
    }
}

} // verus!
