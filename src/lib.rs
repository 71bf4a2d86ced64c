//! A small text-templating engine: a lexer for the `{{ ... }}` directive
//! language, a recursive-descent parser producing statements and
//! expressions, and a tree-walking interpreter that renders them against a
//! JSON-like context.
use vstd::prelude::*;

pub mod expression;
pub mod interperter;
pub mod message_formatter;
pub mod parser;
pub mod statement;
pub mod tokenizer;
pub mod value;

use crate::expression::{Expression, TemplateLiteralExpression};
use crate::interperter::{render_statement, render_statements, EvalError, Interperter, Scope};
use crate::parser::{spec_list, spec_parse, spec_statement, ParseError, Parser, StatementStep};
use crate::statement::StatementModel;
use crate::tokenizer::{
    lex, lex_from, lex_step, open_at, text_end, token_is, tokens_are, LexError, LexStep, Token, TokenType, Tokenizer,
};
use crate::value::Value;

verus! {

/// Why a template could not be rendered.
#[derive(Debug, PartialEq, Eq)]
pub enum RenderError<'a> {
    Lex(LexError),
    Parse(ParseError),
    Eval(EvalError<'a>),
}

/// What parsing the tokens and rendering the statements against `context`
/// gives.
pub open spec fn render_tokens<'a>(toks: Seq<Token<'a>>, context: Value) -> Result<Seq<u8>, RenderError<'a>> {
    match spec_parse(toks) {
        Err(e) => Err(RenderError::Parse(e)),
        Ok(stmts) => match render_statements(stmts, seq![Scope::Root(context)]) {
            Ok(t) => Ok(t),
            Err(e) => Err(RenderError::Eval(e)),
        },
    }
}

/// Whether an exec result holds the bytes or the error of a spec result.
pub open spec fn same_result<'a>(r: Result<Vec<u8>, RenderError<'a>>, s: Result<Seq<u8>, RenderError<'a>>) -> bool {
    match s {
        Ok(t) => r matches Ok(out) && out@ == t,
        Err(e) => r == Err::<Vec<u8>, RenderError<'a>>(e),
    }
}

/// Renders the template `source` against `context`: tokenizes, parses, and
/// interprets, returning the first error of any stage.
pub fn render<'a>(source: &'a [u8], context: &'a Value) -> (r: Result<Vec<u8>, RenderError<'a>>)
    ensures
        match lex(source@) {
            Err(e) => r == Err::<Vec<u8>, RenderError<'a>>(RenderError::Lex(e)),
            Ok(ts) => exists|toks: Seq<Token<'a>>|
                tokens_are(toks, source@, ts) && same_result(r, #[trigger] render_tokens(toks, *context)),
        },
{
    let mut tokenizer = Tokenizer::new(source);
    let tokens = match tokenizer.tokenize() {
        Ok(tokens) => tokens,
        Err(e) => {
            return Err(RenderError::Lex(e));
        },
    };
    let mut parser = Parser::new(&tokens);
    let statements = match parser.parse() {
        Ok(statements) => statements,
        Err(e) => {
            assert(same_result(Err(RenderError::Parse(e)), render_tokens(tokens@, *context)));
            return Err(RenderError::Parse(e));
        },
    };
    let mut interperter = Interperter::new(context);
    let r = match interperter.interpret(&statements) {
        Ok(out) => Ok(out),
        Err(e) => Err(RenderError::Eval(e)),
    };
    assert(same_result(r, render_tokens(tokens@, *context)));
    r
}

/// Whether no directive opens anywhere in `s`.
pub open spec fn has_no_directive(s: Seq<u8>) -> bool {
    forall|p: int| !open_at(s, p)
}

proof fn lemma_text_runs_to_end(s: Seq<u8>, q: int)
    requires
        has_no_directive(s),
        0 <= q <= s.len(),
    ensures
        text_end(s, q) == s.len(),
    decreases s.len() - q,
{
    assert(!open_at(s, q));
    if q < s.len() {
        lemma_text_runs_to_end(s, q + 1);
    }
}

/// A template without directives renders as itself, whatever the context:
/// it lexes to at most one template-text token, and the tokens that stand
/// for that render as the source.
pub proof fn lemma_text_renders_verbatim<'a>(source: Seq<u8>, toks: Seq<Token<'a>>, context: Value)
    requires
        has_no_directive(source),
    ensures
        lex(source) is Ok,
        tokens_are(toks, source, lex(source)->Ok_0) ==> render_tokens(toks, context) == Ok::<Seq<u8>, RenderError<'a>>(source),
{
    let scopes = seq![Scope::Root(context)];
    if source.len() == 0 {
        assert(lex_step(source, 0, false) is Done);
        assert(lex(source) == Ok::<Seq<(TokenType, int, int)>, LexError>(seq![]));
        if tokens_are(toks, source, lex(source)->Ok_0) {
            assert(spec_list(toks, 0) == Ok::<(Seq<StatementModel<'a>>, int), ParseError>((seq![], 0)));
            assert(source =~= seq![]);
        }
    } else {
        lemma_text_runs_to_end(source, 1);
        let step = lex_step(source, 0, false);
        assert(!open_at(source, 0));
        assert(step == LexStep::Emit {
            kind: TokenType::TemplateLiteral, start: 0, end: source.len() as int, in_directive: false });
        assert(lex_step(source, source.len() as int, false) is Done);
        assert(lex_from(source, source.len() as int, false) == Ok::<Seq<(TokenType, int, int)>, LexError>(seq![]));
        let only = (TokenType::TemplateLiteral, 0int, source.len() as int);
        assert(seq![only] + seq![] =~= seq![only]);
        assert(lex(source) == Ok::<Seq<(TokenType, int, int)>, LexError>(seq![only]));
        if tokens_are(toks, source, lex(source)->Ok_0) {
            assert(lex(source)->Ok_0[0] == only);
            assert(token_is(toks[0], source, lex(source)->Ok_0[0]));
            let value = toks[0].token_value;
            assert(value@ =~= source);
            let m = StatementModel::Expression(
                Expression::TemplateLiteral(TemplateLiteralExpression { value }));
            assert(spec_statement(toks, 0) == Ok::<StatementStep<'a>, ParseError>(StatementStep::Parsed(m, 1)));
            assert(spec_list(toks, 1) == Ok::<(Seq<StatementModel<'a>>, int), ParseError>((seq![], 1)));
            assert(seq![m] + seq![] =~= seq![m]);
            assert(spec_list(toks, 0) == Ok::<(Seq<StatementModel<'a>>, int), ParseError>((seq![m], 1)));
            assert(render_statement(m, scopes) == Ok::<Seq<u8>, EvalError<'a>>(value@));
            assert(seq![m].subrange(1, 1) =~= seq![]);
            assert(render_statements(seq![m].subrange(1, 1), scopes) == Ok::<Seq<u8>, EvalError<'a>>(seq![]));
            assert(value@ + seq![] =~= source);
        }
    }
}

} // verus!
