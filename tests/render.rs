use yartl_engine::interperter::{EvalError, Interperter};
use yartl_engine::parser::{ParseError, Parser};
use yartl_engine::render;
use yartl_engine::tokenizer::{LexError, TokenType, Tokenizer};
use yartl_engine::value::Value;
use yartl_engine::RenderError;

fn s(text: &str) -> Value {
    Value::String(text.as_bytes().to_vec())
}

fn n(text: &str) -> Value {
    Value::Number(text.as_bytes().to_vec())
}

fn obj(entries: Vec<(&str, Value)>) -> Value {
    Value::Object(entries.into_iter().map(|(k, v)| (k.as_bytes().to_vec(), v)).collect())
}

fn ok(source: &str, context: &Value) -> String {
    String::from_utf8(render(source.as_bytes(), context).unwrap()).unwrap()
}

#[test]
fn text_only_renders_verbatim() {
    let context = obj(vec![("a", s("x"))]);
    assert_eq!(ok("hello, world {not a directive}", &context), "hello, world {not a directive}");
    assert_eq!(ok("", &context), "");
    assert_eq!(ok("x", &Value::Null), "x");
}

#[test]
fn innermost_loop_binding_wins() {
    let context = obj(vec![
        ("a", Value::Array(vec![s("1"), s("2")])),
        ("b", Value::Array(vec![s("p"), s("q")])),
    ]);
    assert_eq!(ok("{{ for x in a }}{{ for x in b }}{{x}}{{end}}{{end}}", &context), "pqpq");
}

#[test]
fn null_binding_falls_through_to_outer_scope() {
    let context = obj(vec![("x", s("outer")), ("xs", Value::Array(vec![Value::Null]))]);
    assert_eq!(ok("{{for x in xs}}{{x}}{{end}}", &context), "outer");
}

#[test]
fn truthiness_table() {
    let context = obj(vec![
        ("zero", n("0")),
        ("zero_float", n("0.0")),
        ("negative_zero", n("-0")),
        ("one", n("1")),
        ("empty", Value::Array(vec![])),
        ("full", Value::Array(vec![Value::Null])),
        ("object", obj(vec![])),
        ("yes", Value::Bool(true)),
        ("no", Value::Bool(false)),
        ("nothing", Value::Null),
    ]);
    let check = |cond: &str, expected: &str| {
        let template = format!("{{{{if {}}}}}T{{{{else}}}}F{{{{end}}}}", cond);
        assert_eq!(ok(&template, &context), expected, "condition {}", cond);
    };
    check("zero", "F");
    check("zero_float", "F");
    check("negative_zero", "F");
    check("one", "T");
    check("\"x\"", "T");
    check("\"\"", "F");
    check("empty", "F");
    check("full", "T");
    check("object", "T");
    check("yes", "T");
    check("no", "F");
    check("nothing", "F");
    check("missing", "F");
}

#[test]
fn literal_zero_is_not_in_the_grammar() {
    assert_eq!(
        render(b"{{if 0}}T{{else}}F{{end}}", &Value::Null),
        Err(RenderError::Lex(LexError::InvalidCharacter { offset: 5 }))
    );
}

#[test]
fn truthiness_of_literal_strings() {
    assert_eq!(ok("{{if \"x\"}}T{{else}}F{{end}}", &Value::Null), "T");
    assert_eq!(ok("{{if \"\"}}T{{else}}F{{end}}", &Value::Null), "F");
}

#[test]
fn equality_compares_strings() {
    let context = obj(vec![("a", s("yes"))]);
    assert_eq!(ok("{{if a == \"yes\"}}T{{else}}F{{end}}", &context), "T");
    assert_eq!(ok("{{if a != \"yes\"}}T{{else}}F{{end}}", &context), "F");
    assert_eq!(ok("{{if a == \"no\"}}T{{else}}F{{end}}", &context), "F");
}

#[test]
fn equality_on_a_number_is_unsupported() {
    let context = obj(vec![("a", n("1"))]);
    assert_eq!(
        render(b"{{if a == \"1\"}}T{{end}}", &context),
        Err(RenderError::Eval(EvalError::UnsupportedValueType))
    );
}

#[test]
fn negation_inverts_truthiness() {
    let context = obj(vec![("a", Value::Bool(false))]);
    assert_eq!(ok("{{if !a}}T{{else}}F{{end}}", &context), "T");
    let context = obj(vec![("a", s("x"))]);
    assert_eq!(ok("{{if !a}}T{{else}}F{{end}}", &context), "F");
}

#[test]
fn and_or_combine_truthiness() {
    let context = obj(vec![("t", Value::Bool(true)), ("f", Value::Bool(false))]);
    assert_eq!(ok("{{if t && f}}T{{else}}F{{end}}", &context), "F");
    assert_eq!(ok("{{if t || f}}T{{else}}F{{end}}", &context), "T");
    assert_eq!(ok("{{if f || f && t}}T{{else}}F{{end}}", &context), "F");
}

#[test]
fn both_operands_are_evaluated() {
    let context = obj(vec![("t", Value::Bool(true)), ("p", n("5"))]);
    assert_eq!(
        render(b"{{if t || p.q}}T{{end}}", &context),
        Err(RenderError::Eval(EvalError::UndefinedProperty { name: b"q" }))
    );
}

#[test]
fn property_access_on_a_non_object_fails() {
    let context = obj(vec![("p", n("5"))]);
    assert_eq!(
        render(b"{{p.q}}", &context),
        Err(RenderError::Eval(EvalError::UndefinedProperty { name: b"q" }))
    );
}

#[test]
fn property_access_reads_nested_members() {
    let context = obj(vec![("person", obj(vec![("name", obj(vec![("first", s("Ada"))]))]))]);
    assert_eq!(ok("Hi {{ person.name.first }}!", &context), "Hi Ada!");
    assert_eq!(ok("{{ person.age }}", &context), "null");
}

#[test]
fn for_over_an_empty_array_renders_nothing() {
    let context = obj(vec![("xs", Value::Array(vec![]))]);
    assert_eq!(ok("{{for i in xs}}{{i.n}}{{end}}", &context), "");
}

#[test]
fn for_renders_the_body_for_each_element() {
    let context = obj(vec![(
        "xs",
        Value::Array(vec![obj(vec![("n", s("A"))]), obj(vec![("n", s("B"))])]),
    )]);
    assert_eq!(ok("{{for i in xs}}{{i.n}}{{end}}", &context), "AB");
}

#[test]
fn for_over_a_non_array_fails() {
    let context = obj(vec![("xs", s("abc"))]);
    assert_eq!(
        render(b"{{for i in xs}}x{{end}}", &context),
        Err(RenderError::Eval(EvalError::NotAnArray))
    );
}

#[test]
fn values_are_written_out() {
    let context = obj(vec![("num", n("2.5")), ("text", s("t")), ("nothing", Value::Null)]);
    assert_eq!(ok("{{num}} {{text}} {{nothing}} {{missing}} {{\"lit\"}}", &context), "2.5 t null null lit");
}

#[test]
fn booleans_cannot_be_written_out() {
    let context = obj(vec![("b", Value::Bool(true))]);
    assert_eq!(render(b"{{b}}", &context), Err(RenderError::Eval(EvalError::UnsupportedValueType)));
    assert_eq!(render(b"{{!b}}", &context), Err(RenderError::Eval(EvalError::UnsupportedValueType)));
}

#[test]
fn else_branch_and_missing_else() {
    let context = obj(vec![("f", Value::Bool(false))]);
    assert_eq!(ok("a{{if f}}T{{end}}b", &context), "ab");
    assert_eq!(ok("a{{if f}}T{{else}}{{end}}b", &context), "ab");
}

#[test]
fn rendering_a_parsed_template_twice_gives_the_same_output() {
    let context = obj(vec![("xs", Value::Array(vec![s("a"), s("b")])), ("x", s("outer"))]);
    let source = b"{{for x in xs}}{{x}}{{end}}-{{x}}";
    let mut tokenizer = Tokenizer::new(source);
    let tokens = tokenizer.tokenize().unwrap();
    let mut parser = Parser::new(&tokens);
    let statements = parser.parse().unwrap();
    let mut interperter = Interperter::new(&context);
    let first = interperter.interpret(&statements).unwrap();
    let second = interperter.interpret(&statements).unwrap();
    assert_eq!(first, b"ab-outer".to_vec());
    assert_eq!(first, second);
}

#[test]
fn unmatched_end_stops_the_template() {
    assert_eq!(ok("a{{end}}b", &Value::Null), "a");
}

#[test]
fn missing_end_is_an_unexpected_end_of_input() {
    assert_eq!(
        render(b"{{if \"x\"}}T", &Value::Null),
        Err(RenderError::Parse(ParseError::UnexpectedEndOfInput))
    );
}

#[test]
fn missing_close_is_an_unexpected_token() {
    assert_eq!(
        render(b"{{ a b }}", &Value::Null),
        Err(RenderError::Parse(ParseError::UnexpectedToken {
            expected: TokenType::DoubleRightBrackets,
            found: TokenType::Identifier,
        }))
    );
}

#[test]
fn for_needs_an_identifier_to_iterate() {
    assert_eq!(
        render(b"{{ for i in \"xs\" }}{{ end }}", &Value::Null),
        Err(RenderError::Parse(ParseError::UnexpectedToken {
            expected: TokenType::Identifier,
            found: TokenType::StringLiteral,
        }))
    );
}

#[test]
fn literal_quotes_are_stripped_without_escape_processing() {
    assert_eq!(ok("{{ \"a\\\"b\" }}", &Value::Null), "a\\\"b");
}
