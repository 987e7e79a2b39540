//! What holds of scanning followed by parsing.

use crate::parser::{parse_spec, power, power_tail, primary, product, product_tail, sum, sum_tail, unary, Op, Parse};
use crate::scanner::{ascii_digit, lit_len, numeric, plain_decimal, scan_from, scan_spec, step_at, Scan};
use crate::token::{lexemes, Lexeme, TType, Tok};
use vstd::prelude::*;

verus! {

/// `s` is one numeric literal and nothing else: digits with at most one `.`
/// among them, at least one digit, and possibly a `-` in front that a digit
/// follows.
pub open spec fn single_literal(s: Seq<char>) -> bool {
    let b: int = if s.len() > 0 && s[0] == '-' {
        1
    } else {
        0
    };
    &&& s.len() > b
    &&& b == 1 ==> ascii_digit(s[1])
    &&& forall|k: int| b <= k < s.len() ==> ascii_digit(#[trigger] s[k]) || s[k] == '.'
    &&& forall|j: int, k: int|
        b <= j < k < s.len() ==> !(#[trigger] s[j] == '.' && #[trigger] s[k] == '.')
    &&& exists|k: int| b <= k < s.len() && ascii_digit(#[trigger] s[k])
}

/// Where nothing but digits and at most one `.` follows, a literal's body
/// runs to the end of the text.
proof fn lemma_body_to_end(s: Seq<char>, i: int, dot: bool)
    requires
        0 <= i <= s.len(),
        forall|k: int| i <= k < s.len() ==> ascii_digit(#[trigger] s[k]) || s[k] == '.',
        forall|j: int, k: int|
            i <= j < k < s.len() ==> !(#[trigger] s[j] == '.' && #[trigger] s[k] == '.'),
        dot ==> forall|k: int| i <= k < s.len() ==> #[trigger] s[k] != '.',
    ensures
        lit_len(s, i, dot) == s.len() - i,
    decreases s.len() - i,
{
    if i < s.len() {
        if ascii_digit(s[i]) {
            assert(numeric(s[i]));
            lemma_body_to_end(s, i + 1, dot);
        } else {
            assert(s[i] == '.');
            assert(!numeric(s[i]));
            assert(!dot);
            lemma_body_to_end(s, i + 1, true);
        }
    }
}

/// A text that is one numeric literal scans to one number token with that
/// text, and such a token sequence parses to the program that pushes the
/// token's value and does nothing else: evaluating the text yields the
/// literal's own value.
pub proof fn lemma_single_literal(s: Seq<char>, toks: Seq<Tok>)
    requires
        single_literal(s),
        lexemes(toks) == scan_spec(s).toks,
    ensures
        scan_spec(s) == (Scan { toks: seq![Lexeme { typ: TType::NUM, text: s }], fail: None }),
        parse_spec(toks) == (Parse { used: 1, code: seq![Op::Push(0)], fault: None }),
{
    let n = s.len() as int;
    let lx = Lexeme { typ: TType::NUM, text: s };
    assert(s.subrange(0, n) =~= s);
    if s[0] == '-' {
        assert(numeric(s[1]));
        lemma_body_to_end(s, 1, false);
    } else if s[0] == '.' {
        lemma_body_to_end(s, 1, true);
    } else {
        assert(numeric(s[0]));
        lemma_body_to_end(s, 1, false);
    }
    let k = choose|k: int| (if s[0] == '-' { 1int } else { 0int }) <= k < s.len() && ascii_digit(#[trigger] s[k]);
    assert(ascii_digit(s[k]));
    assert(plain_decimal(s));
    assert(step_at(s, 0) == crate::scanner::Step::Emit(lx, (n - 1) as nat));
    assert(scan_from(s, n).toks =~= Seq::<Lexeme>::empty());
    assert(scan_from(s, 0).toks =~= seq![lx]);
    assert(lexemes(toks).len() == 1);
    assert(lexemes(toks)[0] == toks[0]@);
    assert(toks[0].typ == TType::NUM);
    assert(primary(toks, 0) == (Parse { used: 1, code: seq![Op::Push(0)], fault: None }));
    assert(unary(toks, 0) == primary(toks, 0));
    assert(power_tail(toks, 1) == crate::parser::nothing());
    assert(product_tail(toks, 1) == crate::parser::nothing());
    assert(sum_tail(toks, 1) == crate::parser::nothing());
    assert(seq![Op::Push(0)] + Seq::<Op>::empty() =~= seq![Op::Push(0)]);
    assert(power(toks, 0) == primary(toks, 0));
    assert(product(toks, 0) == primary(toks, 0));
    assert(sum(toks, 0) == primary(toks, 0));
}

/// A literal that begins with `.` and has a `-` in front, which the scanner
/// takes for an operator: the text scans to that operator and the literal,
/// and parses to the program that pushes the literal's value and negates it.
pub proof fn lemma_negated_literal(s: Seq<char>, toks: Seq<Tok>)
    requires
        s.len() >= 2,
        s[0] == '-',
        s[1] == '.',
        single_literal(s.skip(1)),
        lexemes(toks) == scan_spec(s).toks,
    ensures
        scan_spec(s) == (Scan {
            toks: seq![
                Lexeme { typ: TType::SUB, text: Seq::empty() },
                Lexeme { typ: TType::NUM, text: s.skip(1) },
            ],
            fail: None,
        }),
        parse_spec(toks) == (Parse { used: 2, code: seq![Op::Push(1), Op::Neg], fault: None }),
{
    let n = s.len() as int;
    let t = s.skip(1);
    let minus = Lexeme { typ: TType::SUB, text: Seq::empty() };
    let lx = Lexeme { typ: TType::NUM, text: t };
    assert(s.subrange(1, n) =~= t);
    assert(t[0] == '.');
    assert forall|k: int| 2 <= k < n implies ascii_digit(#[trigger] s[k]) by {
        assert(s[k] == t[k - 1]);
        assert(!(t[0] == '.' && t[k - 1] == '.'));
    }
    lemma_body_to_end(s, 2, true);
    assert(!numeric(s[1]));
    assert(step_at(s, 0) == crate::scanner::operator(TType::SUB, 0));
    let k = choose|k: int| 0 <= k < t.len() && ascii_digit(#[trigger] t[k]);
    assert(ascii_digit(t[k]));
    assert(plain_decimal(t));
    assert(step_at(s, 1) == crate::scanner::Step::Emit(lx, (n - 2) as nat));
    assert(scan_from(s, n).toks =~= Seq::<Lexeme>::empty());
    assert(scan_from(s, 1).toks =~= seq![lx]);
    assert(scan_from(s, 0).toks =~= seq![minus, lx]);
    assert(lexemes(toks).len() == 2);
    assert(lexemes(toks)[0] == toks[0]@);
    assert(lexemes(toks)[1] == toks[1]@);
    assert(primary(toks, 1) == (Parse { used: 1, code: seq![Op::Push(1)], fault: None }));
    assert(unary(toks, 1) == primary(toks, 1));
    assert(seq![Op::Push(1)].push(Op::Neg) =~= seq![Op::Push(1), Op::Neg]);
    assert(unary(toks, 0) == (Parse { used: 2, code: seq![Op::Push(1), Op::Neg], fault: None }));
    assert(power_tail(toks, 2) == crate::parser::nothing());
    assert(product_tail(toks, 2) == crate::parser::nothing());
    assert(sum_tail(toks, 2) == crate::parser::nothing());
    assert(seq![Op::Push(1), Op::Neg] + Seq::<Op>::empty() =~= seq![Op::Push(1), Op::Neg]);
    assert(power(toks, 0) == unary(toks, 0));
    assert(product(toks, 0) == unary(toks, 0));
    assert(sum(toks, 0) == unary(toks, 0));
}

} // verus!
