use crate::error::{CalcError, CalcResult, Fault};
use crate::token::{lexemes, Lexeme, TType, Tok};
use vstd::prelude::*;
use vstd::string::{StrSliceExecFns, StringExecFns};

verus! {

/// Whether `char::is_numeric` holds of `c`.
pub uninterp spec fn unicode_numeric(c: char) -> bool;

/// Calls `char::is_numeric`, which tells whether a character belongs to one
/// of Unicode's number categories. Nothing is claimed of the answer but that
/// it depends on the character alone.
#[verifier::external_body]
fn numeric_by_unicode(c: char) -> (b: bool)
    ensures
        b == unicode_numeric(c),
{
    c.is_numeric()
}

pub open spec fn ascii_digit(c: char) -> bool {
    '0' <= c && c <= '9'
}

/// The characters that a numeric literal is made of, besides `.`: among the
/// ASCII characters the ten digits, beyond them whatever Unicode counts as a
/// number.
pub open spec fn numeric(c: char) -> bool {
    if c <= '\u{7f}' {
        ascii_digit(c)
    } else {
        unicode_numeric(c)
    }
}

pub fn is_numeric(c: char) -> (b: bool)
    ensures
        b == numeric(c),
{
    if c <= '\u{7f}' {
        '0' <= c && c <= '9'
    } else {
        numeric_by_unicode(c)
    }
}

pub open spec fn blank(c: char) -> bool {
    c == ' ' || c == '\t' || c == '\n' || c == '\r'
}

/// The token that a single-character operator stands for.
pub open spec fn symbol(c: char) -> Option<TType> {
    if c == '+' {
        Some(TType::ADD)
    } else if c == '*' {
        Some(TType::MUL)
    } else if c == '/' {
        Some(TType::DIV)
    } else if c == '^' {
        Some(TType::POW)
    } else if c == '%' {
        Some(TType::MOD)
    } else if c == '(' {
        Some(TType::LPAR)
    } else if c == ')' {
        Some(TType::RPAR)
    } else {
        None
    }
}

/// The letters that a word alias begins with.
pub open spec fn starts_word(c: char) -> bool {
    c == 'p' || c == 'm' || c == 'd' || c == 's' || c == 'a'
}

/// `w` stands in `s` at position `i`.
pub open spec fn has_word(s: Seq<char>, i: int, w: Seq<char>) -> bool {
    0 <= i && i + w.len() <= s.len() && s.subrange(i, i + w.len()) == w
}

/// The word alias at position `i`, by its first letter: the longest of the
/// words with that letter that stands there, as its token kind and the number
/// of its characters after the first.
pub open spec fn keyword_at(s: Seq<char>, i: int) -> Option<(TType, nat)>
    recommends
        0 <= i < s.len(),
{
    let c = s[i];
    if c == 'p' {
        if has_word(s, i, "plus"@) {
            Some((TType::ADD, 3))
        } else if has_word(s, i, "pow"@) {
            Some((TType::POW, 2))
        } else {
            None
        }
    } else if c == 'm' {
        if has_word(s, i, "multiply"@) {
            Some((TType::MUL, 7))
        } else if has_word(s, i, "minus"@) {
            Some((TType::SUB, 4))
        } else if has_word(s, i, "mult"@) {
            Some((TType::MUL, 3))
        } else if has_word(s, i, "mod"@) {
            Some((TType::MOD, 2))
        } else {
            None
        }
    } else if c == 'd' {
        if has_word(s, i, "divide"@) {
            Some((TType::DIV, 5))
        } else if has_word(s, i, "div"@) {
            Some((TType::DIV, 2))
        } else {
            None
        }
    } else if c == 's' {
        if has_word(s, i, "sqrt"@) {
            Some((TType::SQRT, 3))
        } else {
            None
        }
    } else if c == 'a' {
        if has_word(s, i, "abs"@) {
            Some((TType::ABS, 2))
        } else {
            None
        }
    } else {
        None
    }
}

/// The character at `i` and up to four that follow it.
pub open spec fn preview(s: Seq<char>, i: int) -> Seq<char>
    recommends
        0 <= i < s.len(),
{
    s.subrange(i, if i + 5 <= s.len() { i + 5 } else { s.len() as int })
}

/// How many characters from `i` on belong to a literal's body: numeric
/// characters and, unless `dot` says that one was seen, one `.`.
pub open spec fn lit_len(s: Seq<char>, i: int, dot: bool) -> nat
    decreases s.len() - i,
{
    if i < 0 || i >= s.len() {
        0
    } else if numeric(s[i]) {
        1 + lit_len(s, i + 1, dot)
    } else if s[i] == '.' && !dot {
        1 + lit_len(s, i + 1, true)
    } else {
        0
    }
}

/// `t` reads as a decimal number: it has an ASCII digit, and holds nothing
/// but ASCII digits, `.` and a `-` in front. (A literal's body holds one `.`
/// at most, so no more is asked of it here.)
pub open spec fn plain_decimal(t: Seq<char>) -> bool {
    &&& exists|k: int| 0 <= k < t.len() && ascii_digit(#[trigger] t[k])
    &&& forall|k: int|
        0 <= k < t.len() ==> ascii_digit(#[trigger] t[k]) || t[k] == '.' || (k == 0 && t[k]
            == '-')
}

/// What the scanner does at one position.
pub enum Step {
    /// White space: one character is passed over.
    Skip,
    /// A token, and the number of characters that it takes after its first.
    Emit(Lexeme, nat),
    /// The text that cannot be classified.
    Fail(Seq<char>),
}

pub open spec fn operator(typ: TType, more: nat) -> Step {
    Step::Emit(Lexeme { typ, text: Seq::empty() }, more)
}

/// The literal of `n` characters at `i`.
pub open spec fn literal(s: Seq<char>, i: int, n: nat) -> Step
    recommends
        n >= 1,
{
    let t = s.subrange(i, i + n);
    if plain_decimal(t) {
        Step::Emit(Lexeme { typ: TType::NUM, text: t }, (n - 1) as nat)
    } else {
        Step::Fail(t)
    }
}

/// The scanner's rules at position `i`, in their order of priority.
pub open spec fn step_at(s: Seq<char>, i: int) -> Step
    recommends
        0 <= i < s.len(),
{
    let c = s[i];
    if starts_word(c) {
        match keyword_at(s, i) {
            Some((typ, more)) => operator(typ, more),
            None => Step::Fail(preview(s, i)),
        }
    } else if symbol(c) is Some {
        operator(symbol(c)->0, 0)
    } else if c == '-' {
        if i + 1 < s.len() && numeric(s[i + 1]) {
            literal(s, i, 1 + lit_len(s, i + 1, false))
        } else {
            operator(TType::SUB, 0)
        }
    } else if blank(c) {
        Step::Skip
    } else if numeric(c) {
        literal(s, i, 1 + lit_len(s, i + 1, false))
    } else if c == '.' {
        literal(s, i, 1 + lit_len(s, i + 1, true))
    } else {
        Step::Fail(seq![c])
    }
}

/// The outcome of scanning: the tokens found, and what stopped the scan if
/// anything did.
pub struct Scan {
    pub toks: Seq<Lexeme>,
    pub fail: Option<Seq<char>>,
}

pub open spec fn chars_left(s: Seq<char>, i: int) -> int {
    if i <= s.len() {
        s.len() - i
    } else {
        0
    }
}

/// Scanning `s` from position `i` to its end or to the first failure.
pub open spec fn scan_from(s: Seq<char>, i: int) -> Scan
    decreases chars_left(s, i),
{
    if i < 0 || i >= s.len() {
        Scan { toks: Seq::empty(), fail: None }
    } else {
        match step_at(s, i) {
            Step::Skip => scan_from(s, i + 1),
            Step::Emit(lx, more) => {
                let rest = scan_from(s, i + 1 + more);
                Scan { toks: seq![lx] + rest.toks, fail: rest.fail }
            },
            Step::Fail(d) => Scan { toks: Seq::empty(), fail: Some(d) },
        }
    }
}

/// Scanning a whole text.
pub open spec fn scan_spec(s: Seq<char>) -> Scan {
    scan_from(s, 0)
}

/// The kind of token that a word alias stands for.
pub open spec fn alias_kind(w: Seq<char>) -> Option<TType> {
    if w == "plus"@ {
        Some(TType::ADD)
    } else if w == "minus"@ {
        Some(TType::SUB)
    } else if w == "mult"@ || w == "multiply"@ {
        Some(TType::MUL)
    } else if w == "div"@ || w == "divide"@ {
        Some(TType::DIV)
    } else if w == "pow"@ {
        Some(TType::POW)
    } else if w == "mod"@ {
        Some(TType::MOD)
    } else if w == "sqrt"@ {
        Some(TType::SQRT)
    } else if w == "abs"@ {
        Some(TType::ABS)
    } else {
        None
    }
}

/// The kind of the symbolic operator at position `i`, if one stands there: a
/// `-` counts unless it begins a literal.
pub open spec fn symbol_at(s: Seq<char>, i: int) -> Option<TType>
    recommends
        0 <= i < s.len(),
{
    if s[i] == '-' {
        if i + 1 < s.len() && numeric(s[i + 1]) {
            None
        } else {
            Some(TType::SUB)
        }
    } else {
        symbol(s[i])
    }
}

proof fn lemma_word_chars(s: Seq<char>, i: int, w: Seq<char>)
    requires
        has_word(s, i, w),
    ensures
        forall|k: int| 0 <= k < w.len() ==> s[i + k] == #[trigger] w[k],
{
    assert forall|k: int| 0 <= k < w.len() implies s[i + k] == #[trigger] w[k] by {
        assert(s.subrange(i, i + w.len())[k] == s[i + k]);
    }
}

/// The symbolic and the word form of an operator are the same to the
/// scanner: wherever the word `w` stands in a text and wherever the symbol of
/// its kind stands in one, the token emitted is the same, of that kind and
/// without a literal.
pub proof fn lemma_word_as_symbol(s: Seq<char>, i: int, w: Seq<char>, z: Seq<char>, j: int)
    requires
        has_word(s, i, w),
        alias_kind(w) is Some,
        0 <= j < z.len(),
        symbol_at(z, j) == alias_kind(w),
    ensures
        step_at(s, i) matches Step::Emit(a, _) && step_at(z, j) matches Step::Emit(b, _) && a == b
            && a == (Lexeme { typ: alias_kind(w)->0, text: Seq::empty() }),
{
    reveal_strlit("plus");
    reveal_strlit("pow");
    reveal_strlit("multiply");
    reveal_strlit("minus");
    reveal_strlit("mult");
    reveal_strlit("mod");
    reveal_strlit("divide");
    reveal_strlit("div");
    reveal_strlit("sqrt");
    reveal_strlit("abs");
    lemma_word_chars(s, i, w);
    assert(s[i + 0] == w[0]);
    assert(s[i + 1] == w[1]);
    if has_word(s, i, "multiply"@) {
        lemma_word_chars(s, i, "multiply"@);
        assert(s[i + 1] == "multiply"@[1]);
    }
    if has_word(s, i, "divide"@) {
        lemma_word_chars(s, i, "divide"@);
        assert(s[i + 1] == "divide"@[1]);
    }
    if has_word(s, i, "plus"@) {
        lemma_word_chars(s, i, "plus"@);
        assert(s[i + 1] == "plus"@[1]);
    }
    if has_word(s, i, "minus"@) {
        lemma_word_chars(s, i, "minus"@);
        assert(s[i + 1] == "minus"@[1]);
    }
    if has_word(s, i, "mult"@) {
        lemma_word_chars(s, i, "mult"@);
        assert(s[i + 1] == "mult"@[1]);
    }
}

/// A scanner over one source text, with its cursor and the tokens found so
/// far.
pub struct Scanner {
    src: String,
    chars: Vec<char>,
    toks: Vec<Tok>,
    cur: usize,
}

impl Scanner {
    /// The text being scanned.
    pub closed spec fn source(&self) -> Seq<char> {
        self.src@
    }

    /// The position of the next character to read.
    pub closed spec fn cursor(&self) -> int {
        self.cur as int
    }

    /// The tokens found so far.
    pub closed spec fn emitted(&self) -> Seq<Lexeme> {
        lexemes(self.toks@)
    }

    /// The cursor lies within the text.
    pub closed spec fn wf(&self) -> bool {
        self.chars@ == self.src@ && self.cur <= self.chars.len()
    }

    /// What `wf` says of the cursor.
    pub proof fn lemma_cursor_within(&self)
        requires
            self.wf(),
        ensures
            0 <= self.cursor() <= self.source().len(),
    {
    }

    pub fn new(src: &str) -> (s: Scanner)
        ensures
            s.wf(),
            s.source() == src@,
            s.cursor() == 0,
            s.emitted() == Seq::<Lexeme>::empty(),
    {
        let mut chars: Vec<char> = Vec::new();
        for c in it: src.chars()
            invariant
                it.seq() == src@,
                chars@ == src@.subrange(0, it.index() as int),
        {
            chars.push(c);
            assert(chars@ =~= src@.subrange(0, it.index() + 1));
        }
        assert(chars@ =~= src@);
        let s = Scanner { src: String::from_str(src), chars, toks: Vec::new(), cur: 0 };
        assert(s.emitted() =~= Seq::<Lexeme>::empty());
        s
    }

    /// Scans from the cursor to the end of the text and returns every token
    /// found so far, or the first failure.
    pub fn scan(&mut self) -> (r: CalcResult<Vec<Tok>>)
        requires
            old(self).wf(),
        ensures
            final(self).wf(),
            final(self).source() == old(self).source(),
            match scan_from(old(self).source(), old(self).cursor()).fail {
                None => r matches Ok(v) && lexemes(v@) == final(self).emitted() && final(self).cursor()
                    == old(self).source().len(),
                Some(d) => r matches Err(e) && e@ == Fault::UnexpectedChar(d),
            },
            final(self).emitted() == old(self).emitted() + scan_from(
                old(self).source(),
                old(self).cursor(),
            ).toks,
    {
        let ghost s = self.src@;
        let ghost all = scan_from(s, self.cur as int);
        let ghost before = lexemes(self.toks@);
        while !self.end()
            invariant
                self.wf(),
                self.src@ == s,
                s == old(self).src@,
                all == scan_from(s, old(self).cur as int),
                before == lexemes(old(self).toks@),
                all.fail == scan_from(s, self.cur as int).fail,
                before + all.toks == lexemes(self.toks@) + scan_from(s, self.cur as int).toks,
            decreases self.chars.len() - self.cur,
        {
            let ghost here = self.cur as int;
            let ghost sofar = lexemes(self.toks@);
            match self.scan_tok() {
                Ok(()) => {
                    proof {
                        match step_at(s, here) {
                            Step::Emit(lx, more) => {
                                let rest = scan_from(s, here + 1 + more).toks;
                                assert(sofar + (seq![lx] + rest) =~= sofar.push(lx) + rest);
                            },
                            _ => {},
                        }
                    }
                },
                Err(e) => {
                    proof {
                        assert(sofar + Seq::<Lexeme>::empty() =~= sofar);
                    }
                    return Err(e);
                },
            }
        }
        proof {
            assert(lexemes(self.toks@) + Seq::<Lexeme>::empty() =~= lexemes(self.toks@));
        }
        Ok(self.tokens())
    }

    /// A copy of the tokens found so far.
    fn tokens(&self) -> (v: Vec<Tok>)
        ensures
            v@ == self.toks@,
    {
        let mut v: Vec<Tok> = Vec::new();
        let mut i: usize = 0;
        while i < self.toks.len()
            invariant
                i <= self.toks.len(),
                v@ == self.toks@.subrange(0, i as int),
            decreases self.toks.len() - i,
        {
            let t = &self.toks[i];
            v.push(Tok::new(t.typ, t.text.clone()));
            i += 1;
            assert(v@ =~= self.toks@.subrange(0, i as int));
        }
        assert(v@ =~= self.toks@);
        v
    }

    /// Adds a token without a literal.
    fn put(&mut self, typ: TType)
        ensures
            final(self).src == old(self).src,
            final(self).chars == old(self).chars,
            final(self).cur == old(self).cur,
            lexemes(final(self).toks@) == lexemes(old(self).toks@).push(
                Lexeme { typ, text: Seq::empty() },
            ),
    {
        self.toks.push(Tok::new(typ, String::new()));
        assert(lexemes(self.toks@) =~= lexemes(old(self).toks@).push(
            Lexeme { typ, text: Seq::empty() },
        ));
    }

    /// One step of the scan: a token, white space or a failure.
    fn scan_tok(&mut self) -> (r: CalcResult<()>)
        requires
            old(self).wf(),
            old(self).cur < old(self).chars.len(),
        ensures
            final(self).wf(),
            final(self).src == old(self).src,
            match step_at(old(self).src@, old(self).cur as int) {
                Step::Skip => r is Ok && final(self).cur == old(self).cur + 1 && final(self).toks
                    == old(self).toks,
                Step::Emit(lx, more) => r is Ok && final(self).cur == old(self).cur + 1 + more
                    && lexemes(final(self).toks@) == lexemes(old(self).toks@).push(lx),
                Step::Fail(d) => r matches Err(e) && e@ == Fault::UnexpectedChar(d) && final(self).toks == old(self).toks,
            },
    {
        let ghost s = self.src@;
        let at = self.cur;
        let ch = self.adv();
        if ch == 'p' || ch == 'm' || ch == 'd' || ch == 's' || ch == 'a' {
            match self.keyword(ch) {
                Some(typ) => {
                    self.put(typ);
                },
                None => {
                    return Err(CalcError::UnexpectedChar(self.rest()));
                },
            }
        } else if ch == '+' {
            self.put(TType::ADD);
        } else if ch == '*' {
            self.put(TType::MUL);
        } else if ch == '/' {
            self.put(TType::DIV);
        } else if ch == '^' {
            self.put(TType::POW);
        } else if ch == '%' {
            self.put(TType::MOD);
        } else if ch == '(' {
            self.put(TType::LPAR);
        } else if ch == ')' {
            self.put(TType::RPAR);
        } else if ch == '-' {
            let digit_next = match self.peek() {
                Some(c) => is_numeric(c),
                None => false,
            };
            if digit_next {
                return self.num(true);
            } else {
                self.put(TType::SUB);
            }
        } else if ch == ' ' || ch == '\t' || ch == '\n' || ch == '\r' {
        } else if is_numeric(ch) || ch == '.' {
            self.cur = self.cur - 1;
            return self.num(false);
        } else {
            let d = String::from_str(self.src.as_str().substring_char(at, at + 1));
            assert(d@ =~= seq![ch]);
            return Err(CalcError::UnexpectedChar(d));
        }
        Ok(())
    }

    /// Tries the word aliases that begin with `ch`, the character just read,
    /// longest first, and moves the cursor past the one that stands there.
    fn keyword(&mut self, ch: char) -> (r: Option<TType>)
        requires
            old(self).wf(),
            old(self).cur >= 1,
            ch == old(self).chars@[old(self).cur - 1],
            starts_word(ch),
        ensures
            final(self).wf(),
            final(self).src == old(self).src,
            final(self).toks == old(self).toks,
            match keyword_at(old(self).src@, old(self).cur - 1) {
                Some((typ, more)) => r == Some(typ) && final(self).cur == old(self).cur + more,
                None => r is None && final(self).cur == old(self).cur,
            },
    {
        proof {
            reveal_strlit("plus");
            reveal_strlit("pow");
            reveal_strlit("multiply");
            reveal_strlit("minus");
            reveal_strlit("mult");
            reveal_strlit("mod");
            reveal_strlit("divide");
            reveal_strlit("div");
            reveal_strlit("sqrt");
            reveal_strlit("abs");
        }
        if ch == 'p' {
            if self.word("plus") {
                Some(TType::ADD)
            } else if self.word("pow") {
                Some(TType::POW)
            } else {
                None
            }
        } else if ch == 'm' {
            if self.word("multiply") {
                Some(TType::MUL)
            } else if self.word("minus") {
                Some(TType::SUB)
            } else if self.word("mult") {
                Some(TType::MUL)
            } else if self.word("mod") {
                Some(TType::MOD)
            } else {
                None
            }
        } else if ch == 'd' {
            if self.word("divide") {
                Some(TType::DIV)
            } else if self.word("div") {
                Some(TType::DIV)
            } else {
                None
            }
        } else if ch == 's' {
            if self.word("sqrt") {
                Some(TType::SQRT)
            } else {
                None
            }
        } else {
            if self.word("abs") {
                Some(TType::ABS)
            } else {
                None
            }
        }
    }

    /// Scans the body of a numeric literal from the cursor on. With `neg` the
    /// character before the cursor is the literal's minus sign.
    fn num(&mut self, neg: bool) -> (r: CalcResult<()>)
        requires
            old(self).wf(),
            neg ==> old(self).cur >= 1,
        ensures
            final(self).wf(),
            final(self).src == old(self).src,
            final(self).cur == old(self).cur + lit_len(
                old(self).src@,
                old(self).cur as int,
                false,
            ),
            ({
                let start = if neg {
                    old(self).cur - 1
                } else {
                    old(self).cur as int
                };
                let t = old(self).src@.subrange(start, final(self).cur as int);
                if plain_decimal(t) {
                    r is Ok && lexemes(final(self).toks@) == lexemes(old(self).toks@).push(
                        Lexeme { typ: TType::NUM, text: t },
                    )
                } else {
                    r matches Err(e) && e@ == Fault::UnexpectedChar(t) && final(self).toks == old(self).toks
                }
            }),
    {
        let ghost s = self.src@;
        let start = if neg {
            self.cur - 1
        } else {
            self.cur
        };
        let mut dot = false;
        let mut go = true;
        while go && !self.end()
            invariant
                self.wf(),
                self.src == old(self).src,
                self.toks == old(self).toks,
                s == self.src@,
                old(self).cur <= self.cur,
                self.cur + lit_len(s, self.cur as int, dot) == old(self).cur + lit_len(
                    s,
                    old(self).cur as int,
                    false,
                ),
                !go ==> lit_len(s, self.cur as int, dot) == 0,
            decreases self.chars.len() - self.cur + (if go { 1int } else { 0int }),
        {
            let c = self.chars[self.cur];
            if is_numeric(c) {
                self.cur += 1;
            } else if c == '.' && !dot {
                dot = true;
                self.cur += 1;
            } else {
                go = false;
            }
        }
        let text = String::from_str(self.src.as_str().substring_char(start, self.cur));
        if self.plain(start, self.cur) {
            self.toks.push(Tok::new(TType::NUM, text));
            assert(lexemes(self.toks@) =~= lexemes(old(self).toks@).push(
                Lexeme { typ: TType::NUM, text: text@ },
            ));
            Ok(())
        } else {
            Err(CalcError::UnexpectedChar(text))
        }
    }

    /// Whether the text between two positions reads as a decimal number.
    fn plain(&self, from: usize, to: usize) -> (b: bool)
        requires
            self.wf(),
            from <= to <= self.chars.len(),
        ensures
            b == plain_decimal(self.src@.subrange(from as int, to as int)),
    {
        let ghost t = self.src@.subrange(from as int, to as int);
        let mut seen = false;
        let mut clean = true;
        let mut i: usize = from;
        while i < to
            invariant
                self.wf(),
                from <= i <= to <= self.chars.len(),
                t == self.src@.subrange(from as int, to as int),
                seen == exists|k: int| 0 <= k < i - from && ascii_digit(#[trigger] t[k]),
                clean == forall|k: int|
                    0 <= k < i - from ==> ascii_digit(#[trigger] t[k]) || t[k] == '.' || (k == 0
                        && t[k] == '-'),
            decreases to - i,
        {
            let c = self.chars[i];
            assert(c == t[i - from]);
            if '0' <= c && c <= '9' {
                seen = true;
            } else if !(c == '.' || (i == from && c == '-')) {
                clean = false;
            }
            i += 1;
        }
        seen && clean
    }

    fn end(&self) -> (b: bool)
        requires
            self.wf(),
        ensures
            b == (self.cur >= self.src@.len()),
    {
        self.cur >= self.chars.len()
    }

    /// Reads the character at the cursor and moves past it.
    fn adv(&mut self) -> (c: char)
        requires
            old(self).wf(),
            old(self).cur < old(self).chars.len(),
        ensures
            final(self).wf(),
            final(self).src == old(self).src,
            final(self).chars == old(self).chars,
            final(self).toks == old(self).toks,
            final(self).cur == old(self).cur + 1,
            c == old(self).src@[old(self).cur as int],
    {
        let v = self.chars[self.cur];
        self.cur += 1;
        v
    }

    fn peek(&self) -> (c: Option<char>)
        requires
            self.wf(),
        ensures
            c == if self.cur < self.src@.len() {
                Some(self.src@[self.cur as int])
            } else {
                None
            },
    {
        if self.end() {
            None
        } else {
            Some(self.chars[self.cur])
        }
    }

    /// The character before the cursor and up to four from the cursor on.
    fn rest(&self) -> (d: String)
        requires
            self.wf(),
            self.cur >= 1,
        ensures
            d@ == preview(self.src@, self.cur - 1),
    {
        let n = self.chars.len();
        let e = if n - self.cur >= 4 {
            self.cur + 4
        } else {
            n
        };
        String::from_str(self.src.as_str().substring_char(self.cur - 1, e))
    }

    /// Whether `w` stands at the character before the cursor; if so, the
    /// cursor moves past it.
    fn word(&mut self, w: &str) -> (b: bool)
        requires
            old(self).wf(),
            old(self).cur >= 1,
        ensures
            final(self).wf(),
            final(self).src == old(self).src,
            final(self).toks == old(self).toks,
            b == has_word(old(self).src@, old(self).cur - 1, w@),
            final(self).cur == if b {
                old(self).cur - 1 + w@.len()
            } else {
                old(self).cur as int
            },
    {
        let st = self.cur - 1;
        let n = w.unicode_len();
        if n > self.chars.len() - st {
            return false;
        }
        let ghost s = self.src@;
        let mut i: usize = 0;
        while i < n
            invariant
                self.wf(),
                *self == *old(self),
                s == self.src@,
                st == self.cur - 1,
                n == w@.len(),
                st + n <= self.chars.len(),
                i <= n,
                forall|k: int| 0 <= k < i ==> s[st + k] == w@[k],
            decreases n - i,
        {
            if self.chars[st + i] != w.get_char(i) {
                assert(s.subrange(st as int, st + n)[i as int] != w@[i as int]);
                return false;
            }
            i += 1;
        }
        assert(s.subrange(st as int, st + n) =~= w@);
        self.cur = st + n;
        true
    }
}

} // verus!
