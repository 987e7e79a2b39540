use vstd::prelude::*;

verus! {

/// The kinds of lexical unit.
#[derive(Debug, Clone, Copy, PartialEq, Eq, Structural)]
pub enum TType {
    ADD,
    SUB,
    MUL,
    DIV,
    POW,
    MOD,
    LPAR,
    RPAR,
    NUM,
    SQRT,
    ABS,
}

impl TType {
    /// Binding power of an operator kind; 0 for what is no operator.
    pub open spec fn prec_spec(self) -> int {
        match self {
            TType::ADD | TType::SUB => 1,
            TType::MUL | TType::DIV | TType::MOD => 2,
            TType::POW => 3,
            TType::SQRT | TType::ABS => 4,
            _ => 0,
        }
    }

    pub fn prec(&self) -> (p: i32)
        ensures
            p == self.prec_spec(),
    {
        match self {
            TType::ADD | TType::SUB => 1,
            TType::MUL | TType::DIV | TType::MOD => 2,
            TType::POW => 3,
            TType::SQRT | TType::ABS => 4,
            _ => 0,
        }
    }
}

/// What a token is, as a mathematical value: its kind and the characters of
/// its literal.
pub struct Lexeme {
    pub typ: TType,
    pub text: Seq<char>,
}

/// One lexical unit. `text` is the spelling of a numeric literal and is empty
/// for every other kind.
#[derive(Debug, Clone)]
pub struct Tok {
    pub typ: TType,
    pub text: String,
}

impl View for Tok {
    type V = Lexeme;

    open spec fn view(&self) -> Lexeme {
        Lexeme { typ: self.typ, text: self.text@ }
    }
}

impl Tok {
    pub fn new(typ: TType, text: String) -> (t: Tok)
        ensures
            t.typ == typ,
            t.text == text,
    {
        Tok { typ, text }
    }
}

/// The tokens of `toks` as mathematical values, in order.
pub open spec fn lexemes(toks: Seq<Tok>) -> Seq<Lexeme> {
    Seq::new(toks.len(), |i: int| toks[i]@)
}

} // verus!
