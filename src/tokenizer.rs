//! Lexer for templates: text mode outside directives, directive mode inside
//! `{{ ... }}`.
use vstd::prelude::*;

verus! {

/// `{`
pub const LEFT_BRACE: u8 = 123;
/// `}`
pub const RIGHT_BRACE: u8 = 125;
/// `.`
pub const DOT: u8 = 46;
/// `=`
pub const EQUALS_SIGN: u8 = 61;
/// `!`
pub const BANG: u8 = 33;
/// `&`
pub const AMPERSAND: u8 = 38;
/// `|`
pub const PIPE: u8 = 124;
/// `"`
pub const QUOTE: u8 = 34;
/// `\`
pub const BACKSLASH: u8 = 92;

/// The kind of a token.
#[derive(PartialEq, Eq, Structural, Debug, Clone, Copy)]
pub enum TokenType {
    DoubleLeftBrackets,
    DoubleRightBrackets,
    For,
    In,
    If,
    Else,
    End,
    Identifier,
    StringLiteral,
    TemplateLiteral,
    Dot,
    DoubleEquals,
    ExclamationEqual,
    Exclamation,
    DoubleAmpersand,
    DoublePipe,
}

/// A token: its kind and the bytes of the source that it covers.
#[derive(Debug, Clone, Copy, PartialEq)]
pub struct Token<'a> {
    pub token_type: TokenType,
    pub token_value: &'a [u8],
}

/// Why a source could not be tokenized.
#[derive(PartialEq, Eq, Structural, Debug, Clone, Copy)]
pub enum LexError {
    /// A byte inside a directive that starts no token.
    InvalidCharacter { offset: usize },
    /// A string literal without its closing quote.
    UnterminatedString,
}

/// One step of the lexer, as a mathematical function of the source, the
/// position and the mode.
pub enum LexStep {
    Done,
    Emit { kind: TokenType, start: int, end: int, in_directive: bool },
    Fail { error: LexError },
}

/// `a`-`z` or `A`-`Z`.
pub open spec fn is_alpha(b: u8) -> bool {
    (97u8 <= b && b <= 122u8) || (65u8 <= b && b <= 90u8)
}

/// A letter, a digit or `_`.
pub open spec fn is_word_byte(b: u8) -> bool {
    is_alpha(b) || (48u8 <= b && b <= 57u8) || b == 95u8
}

/// Space, tab, newline, form feed or carriage return.
pub open spec fn is_space(b: u8) -> bool {
    b == 32u8 || b == 9u8 || b == 10u8 || b == 0x0cu8 || b == 13u8
}

/// Whether `pat` occurs in `s` at position `p`.
pub open spec fn on_at(s: Seq<u8>, p: int, pat: Seq<u8>) -> bool {
    0 <= p && p + pat.len() <= s.len() && s.subrange(p, p + pat.len()) == pat
}

pub open spec fn open_at(s: Seq<u8>, p: int) -> bool {
    on_at(s, p, seq![LEFT_BRACE, LEFT_BRACE])
}

/// The first position at or after `q` where a directive opens, or the end.
pub open spec fn text_end(s: Seq<u8>, q: int) -> int
    decreases s.len() - q,
{
    if q >= s.len() || open_at(s, q) {
        q
    } else {
        text_end(s, q + 1)
    }
}

/// The first position at or after `q` that holds no identifier byte.
pub open spec fn word_end(s: Seq<u8>, q: int) -> int
    decreases s.len() - q,
{
    if q < 0 || q >= s.len() || !is_word_byte(s[q]) {
        q
    } else {
        word_end(s, q + 1)
    }
}

/// The first position at or after `q` that holds no whitespace.
pub open spec fn space_end(s: Seq<u8>, q: int) -> int
    decreases s.len() - q,
{
    if q < 0 || q >= s.len() || !is_space(s[q]) {
        q
    } else {
        space_end(s, q + 1)
    }
}

/// The position of the first quote at or after `q` that no backslash
/// precedes, if there is one.
pub open spec fn closing_quote(s: Seq<u8>, q: int) -> Option<int>
    decreases s.len() - q,
{
    if q < 1 || q >= s.len() {
        None
    } else if s[q] == QUOTE && s[q - 1] != BACKSLASH {
        Some(q)
    } else {
        closing_quote(s, q + 1)
    }
}

/// The operator at `p`, tried in a fixed order so that two-byte operators win
/// over their one-byte prefixes, with its length.
pub open spec fn operator_at(s: Seq<u8>, p: int) -> Option<(TokenType, int)> {
    if on_at(s, p, seq![LEFT_BRACE, LEFT_BRACE]) {
        Some((TokenType::DoubleLeftBrackets, 2))
    } else if on_at(s, p, seq![RIGHT_BRACE, RIGHT_BRACE]) {
        Some((TokenType::DoubleRightBrackets, 2))
    } else if on_at(s, p, seq![DOT]) {
        Some((TokenType::Dot, 1))
    } else if on_at(s, p, seq![EQUALS_SIGN, EQUALS_SIGN]) {
        Some((TokenType::DoubleEquals, 2))
    } else if on_at(s, p, seq![BANG, EQUALS_SIGN]) {
        Some((TokenType::ExclamationEqual, 2))
    } else if on_at(s, p, seq![BANG]) {
        Some((TokenType::Exclamation, 1))
    } else if on_at(s, p, seq![AMPERSAND, AMPERSAND]) {
        Some((TokenType::DoubleAmpersand, 2))
    } else if on_at(s, p, seq![PIPE, PIPE]) {
        Some((TokenType::DoublePipe, 2))
    } else {
        None
    }
}

/// The kind of an alphabetic word: a keyword, or else an identifier.
pub open spec fn word_type(w: Seq<u8>) -> TokenType {
    // for, in, if, else, end
    if w == seq![102u8, 111u8, 114u8] {
        TokenType::For
    } else if w == seq![105u8, 110u8] {
        TokenType::In
    } else if w == seq![105u8, 102u8] {
        TokenType::If
    } else if w == seq![101u8, 108u8, 115u8, 101u8] {
        TokenType::Else
    } else if w == seq![101u8, 110u8, 100u8] {
        TokenType::End
    } else {
        TokenType::Identifier
    }
}

/// What the lexer does at position `p` in the given mode.
pub open spec fn lex_step(s: Seq<u8>, p: int, in_directive: bool) -> LexStep {
    if !in_directive {
        if p >= s.len() {
            LexStep::Done
        } else if open_at(s, p) {
            LexStep::Emit { kind: TokenType::DoubleLeftBrackets, start: p, end: p + 2, in_directive: true }
        } else {
            LexStep::Emit { kind: TokenType::TemplateLiteral, start: p, end: text_end(s, p + 1), in_directive: false }
        }
    } else {
        let q = space_end(s, p);
        if q >= s.len() {
            LexStep::Done
        } else if is_alpha(s[q]) {
            let e = word_end(s, q + 1);
            LexStep::Emit { kind: word_type(s.subrange(q, e)), start: q, end: e, in_directive: true }
        } else if s[q] == QUOTE {
            match closing_quote(s, q + 1) {
                None => LexStep::Fail { error: LexError::UnterminatedString },
                Some(c) => LexStep::Emit { kind: TokenType::StringLiteral, start: q, end: c + 1, in_directive: true },
            }
        } else {
            match operator_at(s, q) {
                Some(op) => LexStep::Emit {
                    kind: op.0,
                    start: q,
                    end: q + op.1,
                    in_directive: op.0 != TokenType::DoubleRightBrackets,
                },
                None => LexStep::Fail { error: LexError::InvalidCharacter { offset: q as usize } },
            }
        }
    }
}

/// All tokens from position `p` on, each as its kind and the range it covers,
/// or the first error.
pub open spec fn lex_from(s: Seq<u8>, p: int, in_directive: bool) -> Result<Seq<(TokenType, int, int)>, LexError>
    decreases s.len() - p,
{
    match lex_step(s, p, in_directive) {
        LexStep::Done => Ok(seq![]),
        LexStep::Fail { error } => Err(error),
        LexStep::Emit { kind, start, end, in_directive: d } => {
            if p < end <= s.len() {
                match lex_from(s, end, d) {
                    Ok(rest) => Ok(seq![(kind, start, end)] + rest),
                    Err(e) => Err(e),
                }
            } else {
                Ok(seq![])
            }
        }
    }
}

/// All tokens of a source, or the first error.
pub open spec fn lex(s: Seq<u8>) -> Result<Seq<(TokenType, int, int)>, LexError> {
    lex_from(s, 0, false)
}

/// A token holds the kind and the bytes that a lexer step gives.
pub open spec fn token_is(t: Token, s: Seq<u8>, spec_token: (TokenType, int, int)) -> bool {
    &&& t.token_type == spec_token.0
    &&& 0 <= spec_token.1 <= spec_token.2 <= s.len()
    &&& t.token_value@ == s.subrange(spec_token.1, spec_token.2)
}

pub open spec fn tokens_are(ts: Seq<Token>, s: Seq<u8>, spec_tokens: Seq<(TokenType, int, int)>) -> bool {
    &&& ts.len() == spec_tokens.len()
    &&& forall|i: int| 0 <= i < ts.len() ==> #[trigger] token_is(ts[i], s, spec_tokens[i])
}

/// `acc` followed by what `r` holds, or the error of `r`.
pub open spec fn prefixed(acc: Seq<(TokenType, int, int)>, r: Result<Seq<(TokenType, int, int)>, LexError>) -> Result<Seq<(TokenType, int, int)>, LexError> {
    match r {
        Ok(rest) => Ok(acc + rest),
        Err(e) => Err(e),
    }
}

/// Tokenizes a source one token at a time.
pub struct Tokenizer<'a> {
    /// Current index into the source.
    i: usize,
    source: &'a [u8],
    /// Whether the cursor stands inside a directive.
    in_curly: bool,
}

impl<'a> Tokenizer<'a> {
    pub closed spec fn position(&self) -> int {
        self.i as int
    }

    pub closed spec fn in_directive(&self) -> bool {
        self.in_curly
    }

    pub closed spec fn text(&self) -> Seq<u8> {
        self.source@
    }

    pub closed spec fn wf(&self) -> bool {
        self.i <= self.source@.len()
    }

    /// Returns a tokenizer at the start of `source`, in text mode.
    pub fn new(source: &'a [u8]) -> (r: Self)
        ensures
            r.wf(),
            r.text() == source@,
            r.position() == 0,
            !r.in_directive(),
    {
        Tokenizer { i: 0, source, in_curly: false }
    }

    /// Returns all remaining tokens, or the first error.
    pub fn tokenize(&mut self) -> (r: Result<Vec<Token<'a>>, LexError>)
        requires
            old(self).wf(),
        ensures
            match lex_from(old(self).text(), old(self).position(), old(self).in_directive()) {
                Ok(ts) => r is Ok && tokens_are(r->Ok_0@, old(self).text(), ts),
                Err(e) => r == Err::<Vec<Token<'a>>, LexError>(e),
            },
    {
        let ghost s = self.text();
        let ghost whole = lex_from(s, self.position(), self.in_directive());
        let ghost mut acc: Seq<(TokenType, int, int)> = seq![];
        let mut tokens: Vec<Token<'a>> = Vec::new();
        loop
            invariant
                self.wf(),
                self.text() == s,
                s == old(self).text(),
                whole == lex_from(old(self).text(), old(self).position(), old(self).in_directive()),
                tokens_are(tokens@, s, acc),
                whole == prefixed(acc, lex_from(s, self.position(), self.in_directive())),
            decreases s.len() - self.position(),
        {
            let ghost p = self.position();
            let ghost d = self.in_directive();
            match self.next() {
                Ok(Some(t)) => {
                    proof {
                        let step = lex_step(s, p, d);
                        let tok = (step->kind, step->start, step->end);
                        assert(acc + (seq![tok] + lex_from(s, step->end, step->Emit_in_directive)->Ok_0) =~= (acc + seq![tok]) + lex_from(s, step->end, step->Emit_in_directive)->Ok_0);
                        acc = acc + seq![tok];
                    }
                    tokens.push(t);
                },
                Ok(None) => {
                    assert(acc + seq![] =~= acc);
                    return Ok(tokens);
                },
                Err(e) => {
                    return Err(e);
                },
            }
        }
    }

    /// Whether the bytes `first`, `second` occur at the current index.
    fn is_on_pair(&self, first: u8, second: u8) -> (r: bool)
        requires
            self.wf(),
        ensures
            r == on_at(self.text(), self.position(), seq![first, second]),
    {
        let n = self.source.len();
        if n < 2 || self.i > n - 2 {
            return false;
        }
        let r = self.source[self.i] == first && self.source[self.i + 1] == second;
        if r {
            assert(self.source@.subrange(self.i as int, self.i + 2) =~= seq![first, second]);
        } else {
            assert(self.source@.subrange(self.i as int, self.i + 2) !~= seq![first, second]);
        }
        r
    }

    /// Whether the byte `character` occurs at the current index.
    fn is_on_byte(&self, character: u8) -> (r: bool)
        requires
            self.wf(),
        ensures
            r == on_at(self.text(), self.position(), seq![character]),
    {
        if self.i >= self.source.len() {
            return false;
        }
        let r = self.source[self.i] == character;
        if r {
            assert(self.source@.subrange(self.i as int, self.i + 1) =~= seq![character]);
        } else {
            assert(self.source@.subrange(self.i as int, self.i + 1)[0] != seq![character][0]);
        }
        r
    }

    /// Whether a directive opens at the current index.
    fn is_on_open(&self) -> (r: bool)
        requires
            self.wf(),
        ensures
            r == open_at(self.text(), self.position()),
    {
        self.is_on_pair(LEFT_BRACE, LEFT_BRACE)
    }

    /// The kind of the alphabetic word `symbol`.
    fn get_symbol_token_type(symbol: &[u8]) -> (r: TokenType)
        ensures
            r == word_type(symbol@),
    {
        // for, in, if, else, end
        if bytes_equal(symbol, &[102u8, 111u8, 114u8]) {
            TokenType::For
        } else if bytes_equal(symbol, &[105u8, 110u8]) {
            TokenType::In
        } else if bytes_equal(symbol, &[105u8, 102u8]) {
            TokenType::If
        } else if bytes_equal(symbol, &[101u8, 108u8, 115u8, 101u8]) {
            TokenType::Else
        } else if bytes_equal(symbol, &[101u8, 110u8, 100u8]) {
            TokenType::End
        } else {
            TokenType::Identifier
        }
    }

    /// The token of kind `token_type` from `start` to the current index.
    fn tokenize_last(&self, token_type: TokenType, start: usize) -> (r: Token<'a>)
        requires
            self.wf(),
            start <= self.i,
        ensures
            r.token_type == token_type,
            r.token_value@ == self.text().subrange(start as int, self.position()),
    {
        Token { token_type, token_value: vstd::slice::slice_subrange(self.source, start, self.i) }
    }

    /// Reads the template text that starts at the current index.
    fn tokenize_template_string(&mut self) -> (r: Token<'a>)
        requires
            old(self).wf(),
            old(self).position() < old(self).text().len(),
        ensures
            final(self).wf(),
            final(self).text() == old(self).text(),
            final(self).in_directive() == old(self).in_directive(),
            final(self).position() == text_end(old(self).text(), old(self).position() + 1),
            r.token_type == TokenType::TemplateLiteral,
            r.token_value@ == old(self).text().subrange(old(self).position(), final(self).position()),
    {
        let start = self.i;
        assert(self.i < self.source.len());
        self.i = self.i + 1;
        while self.i < self.source.len() && !self.is_on_open()
            invariant
                self.wf(),
                self.source == old(self).source,
                self.in_curly == old(self).in_curly,
                start == old(self).i,
                start < self.i,
                text_end(self.source@, start + 1) == text_end(self.source@, self.i as int),
            decreases self.source@.len() - self.i,
        {
            self.i = self.i + 1;
        }
        self.tokenize_last(TokenType::TemplateLiteral, start)
    }

    /// Reads the alphabetic word that starts at the current index.
    fn tokenize_symbol(&mut self) -> (r: Token<'a>)
        requires
            old(self).wf(),
            old(self).position() < old(self).text().len(),
        ensures
            final(self).wf(),
            final(self).text() == old(self).text(),
            final(self).in_directive() == old(self).in_directive(),
            final(self).position() == word_end(old(self).text(), old(self).position() + 1),
            r.token_type == word_type(old(self).text().subrange(old(self).position(), final(self).position())),
            r.token_value@ == old(self).text().subrange(old(self).position(), final(self).position()),
    {
        let start = self.i;
        assert(self.i < self.source.len());
        self.i = self.i + 1;
        while self.i < self.source.len() && is_word(self.source[self.i])
            invariant
                self.wf(),
                self.source == old(self).source,
                self.in_curly == old(self).in_curly,
                start == old(self).i,
                start < self.i,
                word_end(self.source@, start + 1) == word_end(self.source@, self.i as int),
            decreases self.source@.len() - self.i,
        {
            self.i = self.i + 1;
        }
        let symbol = vstd::slice::slice_subrange(self.source, start, self.i);
        let token_type = Self::get_symbol_token_type(symbol);
        self.tokenize_last(token_type, start)
    }

    /// Reads the string literal that starts at the current index; a quote
    /// after a backslash does not close it.
    fn tokenize_string_literal(&mut self) -> (r: Result<Token<'a>, LexError>)
        requires
            old(self).wf(),
            old(self).position() < old(self).text().len(),
        ensures
            final(self).wf(),
            final(self).text() == old(self).text(),
            final(self).in_directive() == old(self).in_directive(),
            match closing_quote(old(self).text(), old(self).position() + 1) {
                None => r == Err::<Token<'a>, LexError>(LexError::UnterminatedString),
                Some(c) => r is Ok && final(self).position() == c + 1
                    && r->Ok_0.token_type == TokenType::StringLiteral
                    && r->Ok_0.token_value@ == old(self).text().subrange(old(self).position(), c + 1),
            },
    {
        let start = self.i;
        assert(self.i < self.source.len());
        self.i = self.i + 1;
        while self.i < self.source.len()
            invariant
                self.wf(),
                self.source == old(self).source,
                self.in_curly == old(self).in_curly,
                start == old(self).i,
                start < self.i,
                closing_quote(self.source@, start + 1) == closing_quote(self.source@, self.i as int),
            decreases self.source@.len() - self.i,
        {
            if self.source[self.i] == QUOTE && self.source[self.i - 1] != BACKSLASH {
                self.i = self.i + 1;
                return Ok(self.tokenize_last(TokenType::StringLiteral, start));
            }
            self.i = self.i + 1;
        }
        Err(LexError::UnterminatedString)
    }

    /// The operator at the current index and its length, in the order of
    /// `operator_at`.
    fn match_operator(&self) -> (r: Option<(TokenType, usize)>)
        requires
            self.wf(),
        ensures
            match operator_at(self.text(), self.position()) {
                None => r is None,
                Some(op) => r is Some && r->Some_0.0 == op.0 && r->Some_0.1 == op.1,
            },
    {
        if self.is_on_pair(LEFT_BRACE, LEFT_BRACE) {
            Some((TokenType::DoubleLeftBrackets, 2))
        } else if self.is_on_pair(RIGHT_BRACE, RIGHT_BRACE) {
            Some((TokenType::DoubleRightBrackets, 2))
        } else if self.is_on_byte(DOT) {
            Some((TokenType::Dot, 1))
        } else if self.is_on_pair(EQUALS_SIGN, EQUALS_SIGN) {
            Some((TokenType::DoubleEquals, 2))
        } else if self.is_on_pair(BANG, EQUALS_SIGN) {
            Some((TokenType::ExclamationEqual, 2))
        } else if self.is_on_byte(BANG) {
            Some((TokenType::Exclamation, 1))
        } else if self.is_on_pair(AMPERSAND, AMPERSAND) {
            Some((TokenType::DoubleAmpersand, 2))
        } else if self.is_on_pair(PIPE, PIPE) {
            Some((TokenType::DoublePipe, 2))
        } else {
            None
        }
    }

    /// Returns the next token, `None` at the end of the source, or the error
    /// at the current position.
    pub fn next(&mut self) -> (r: Result<Option<Token<'a>>, LexError>)
        requires
            old(self).wf(),
        ensures
            final(self).wf(),
            final(self).text() == old(self).text(),
            match lex_step(old(self).text(), old(self).position(), old(self).in_directive()) {
                LexStep::Done => {
                    &&& r == Ok::<Option<Token<'a>>, LexError>(None)
                    &&& final(self).position() == old(self).text().len()
                    &&& final(self).in_directive() == old(self).in_directive()
                },
                LexStep::Fail { error } => r == Err::<Option<Token<'a>>, LexError>(error),
                LexStep::Emit { kind, start, end, in_directive } => {
                    &&& r matches Ok(Some(t))
                    &&& token_is(t, old(self).text(), (kind, start, end))
                    &&& old(self).position() < end <= old(self).text().len()
                    &&& final(self).position() == end
                    &&& final(self).in_directive() == in_directive
                },
            },
    {
        if !self.in_curly {
            if self.i >= self.source.len() {
                return Ok(None);
            }
            if self.is_on_open() {
                let start = self.i;
                self.i = self.i + 2;
                self.in_curly = true;
                return Ok(Some(self.tokenize_last(TokenType::DoubleLeftBrackets, start)));
            }
            proof { lemma_text_end_bounds(self.source@, self.i + 1); }
            return Ok(Some(self.tokenize_template_string()));
        }
        while self.i < self.source.len() && is_whitespace(self.source[self.i])
            invariant
                self.wf(),
                self.source == old(self).source,
                self.in_curly,
                old(self).i <= self.i,
                space_end(self.source@, old(self).i as int) == space_end(self.source@, self.i as int),
            decreases self.source@.len() - self.i,
        {
            self.i = self.i + 1;
        }
        if self.i >= self.source.len() {
            return Ok(None);
        }
        let character = self.source[self.i];
        if is_alphabetic(character) {
            proof { lemma_word_end_bounds(self.source@, self.i + 1); }
            Ok(Some(self.tokenize_symbol()))
        } else if character == QUOTE {
            proof { lemma_closing_quote_bounds(self.source@, self.i + 1); }
            match self.tokenize_string_literal() {
                Ok(t) => Ok(Some(t)),
                Err(e) => Err(e),
            }
        } else {
            match self.match_operator() {
                Some(op) => {
                    let start = self.i;
                    self.i = self.i + op.1;
                    if op.0 == TokenType::DoubleRightBrackets {
                        self.in_curly = false;
                    }
                    Ok(Some(self.tokenize_last(op.0, start)))
                },
                None => Err(LexError::InvalidCharacter { offset: self.i }),
            }
        }
    }
}

/// Whether two byte strings are equal.
pub fn bytes_equal(a: &[u8], b: &[u8]) -> (r: bool)
    ensures
        r == (a@ == b@),
{
    if a.len() != b.len() {
        return false;
    }
    let mut k: usize = 0;
    while k < a.len()
        invariant
            a@.len() == b@.len(),
            0 <= k <= a@.len(),
            forall|j: int| 0 <= j < k ==> a@[j] == b@[j],
        decreases a.len() - k,
    {
        if a[k] != b[k] {
            return false;
        }
        k += 1;
    }
    assert(a@ =~= b@);
    true
}

fn is_alphabetic(b: u8) -> (r: bool)
    ensures
        r == is_alpha(b),
{
    (97u8 <= b && b <= 122u8) || (65u8 <= b && b <= 90u8)
}

fn is_word(b: u8) -> (r: bool)
    ensures
        r == is_word_byte(b),
{
    is_alphabetic(b) || (48u8 <= b && b <= 57u8) || b == 95u8
}

fn is_whitespace(b: u8) -> (r: bool)
    ensures
        r == is_space(b),
{
    b == 32u8 || b == 9u8 || b == 10u8 || b == 12u8 || b == 13u8
}

proof fn lemma_text_end_bounds(s: Seq<u8>, q: int)
    requires
        0 <= q <= s.len(),
    ensures
        q <= text_end(s, q) <= s.len(),
    decreases s.len() - q,
{
    if !(q >= s.len() || open_at(s, q)) {
        lemma_text_end_bounds(s, q + 1);
    }
}

proof fn lemma_word_end_bounds(s: Seq<u8>, q: int)
    requires
        0 <= q <= s.len(),
    ensures
        q <= word_end(s, q) <= s.len(),
    decreases s.len() - q,
{
    if !(q >= s.len() || !is_word_byte(s[q])) {
        lemma_word_end_bounds(s, q + 1);
    }
}

proof fn lemma_closing_quote_bounds(s: Seq<u8>, q: int)
    requires
        1 <= q <= s.len(),
    ensures
        closing_quote(s, q) matches Some(c) ==> q <= c < s.len(),
    decreases s.len() - q,
{
    if q < s.len() && !(s[q] == QUOTE && s[q - 1] != BACKSLASH) {
        lemma_closing_quote_bounds(s, q + 1);
    }
}

} // verus!
