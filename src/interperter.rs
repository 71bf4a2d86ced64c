//! Tree-walking interpreter: renders statements against a stack of scopes.
use vstd::prelude::*;

use crate::expression::{BinaryOperator, Expression};
use crate::statement::{lemma_models_of, model_of, models_of, Statement, StatementModel};
use crate::value::{get_member, is_zero_number, member, number_is_zero, Value};

verus! {

/// Why rendering failed.
#[derive(Debug, PartialEq, Eq)]
pub enum EvalError<'a> {
    /// Property access on something that is not an object.
    UndefinedProperty { name: &'a [u8] },
    /// A `for` over something that is not an array.
    NotAnArray,
    /// A value that cannot be rendered or compared as text.
    UnsupportedValueType,
}

/// One scope of the context stack.
#[derive(Debug, Clone, Copy)]
pub enum Frame<'a> {
    /// The caller's context.
    Root(&'a Value),
    /// A loop variable bound to an element.
    Binding(&'a [u8], &'a Value),
}

/// A scope, as a mathematical value.
pub enum Scope {
    Root(Value),
    Binding(Seq<u8>, Value),
}

impl<'a> View for Frame<'a> {
    type V = Scope;

    open spec fn view(&self) -> Scope {
        match *self {
            Frame::Root(v) => Scope::Root(*v),
            Frame::Binding(name, v) => Scope::Binding(name@, *v),
        }
    }
}

/// What an expression evaluates to.
#[derive(Debug, Clone, Copy)]
pub enum Evaluated<'a> {
    /// A value of the context.
    Json(&'a Value),
    /// Nothing was found: null.
    Null,
    /// The result of an operator.
    Bool(bool),
    /// Text of the template: a literal's contents or template text.
    Text(&'a [u8]),
}

/// What an expression evaluates to, as a mathematical value.
pub enum Outcome {
    Json(Value),
    Null,
    Bool(bool),
    Text(Seq<u8>),
}

impl<'a> View for Evaluated<'a> {
    type V = Outcome;

    open spec fn view(&self) -> Outcome {
        match *self {
            Evaluated::Json(v) => Outcome::Json(*v),
            Evaluated::Null => Outcome::Null,
            Evaluated::Bool(b) => Outcome::Bool(b),
            Evaluated::Text(t) => Outcome::Text(t@),
        }
    }
}

/// The value that a scope gives `key`, if any.
pub open spec fn scope_get(scope: Scope, key: Seq<u8>) -> Option<Value> {
    match scope {
        Scope::Root(Value::Object(entries)) => member(entries@, key),
        Scope::Root(_) => None,
        Scope::Binding(name, v) => if name == key { Some(v) } else { None },
    }
}

/// Variable lookup: the innermost scope that gives `key` a value other than
/// null wins; otherwise null.
pub open spec fn lookup(scopes: Seq<Scope>, key: Seq<u8>) -> Outcome
    decreases scopes.len(),
{
    if scopes.len() == 0 {
        Outcome::Null
    } else {
        match scope_get(scopes.last(), key) {
            Some(v) => if v is Null { lookup(scopes.drop_last(), key) } else { Outcome::Json(v) },
            None => lookup(scopes.drop_last(), key),
        }
    }
}

/// Truthiness: null is false, a boolean is itself, a number is false iff
/// zero, a string or an array is false iff empty, an object is true.
pub open spec fn truthy(o: Outcome) -> bool {
    match o {
        Outcome::Null => false,
        Outcome::Bool(b) => b,
        Outcome::Text(t) => t.len() > 0,
        Outcome::Json(v) => match v {
            Value::Null => false,
            Value::Bool(b) => b,
            Value::Number(t) => !is_zero_number(t@),
            Value::String(s) => s@.len() > 0,
            Value::Array(a) => a@.len() > 0,
            Value::Object(_) => true,
        },
    }
}

/// The text of a string-like outcome.
pub open spec fn text_of(o: Outcome) -> Option<Seq<u8>> {
    match o {
        Outcome::Text(t) => Some(t),
        Outcome::Json(Value::String(s)) => Some(s@),
        _ => None,
    }
}

/// Equality compares text with text; anything else is unsupported.
pub open spec fn equals<'a>(l: Outcome, r: Outcome) -> Result<bool, EvalError<'a>> {
    match (text_of(l), text_of(r)) {
        (Some(a), Some(b)) => Ok(a == b),
        _ => Err(EvalError::UnsupportedValueType),
    }
}

/// `null`
pub open spec fn null_text() -> Seq<u8> {
    seq![110u8, 117u8, 108u8, 108u8]
}

/// How an outcome is written out: text verbatim, a number as its decimal
/// text, null as `null`; anything else is unsupported.
pub open spec fn stringify<'a>(o: Outcome) -> Result<Seq<u8>, EvalError<'a>> {
    match o {
        Outcome::Text(t) => Ok(t),
        Outcome::Null => Ok(null_text()),
        Outcome::Json(Value::String(s)) => Ok(s@),
        Outcome::Json(Value::Number(t)) => Ok(t@),
        Outcome::Json(Value::Null) => Ok(null_text()),
        _ => Err(EvalError::UnsupportedValueType),
    }
}

/// A literal's token without its surrounding quotes.
pub open spec fn strip_quotes(t: Seq<u8>) -> Seq<u8> {
    if t.len() >= 2 {
        t.subrange(1, t.len() - 1)
    } else {
        t
    }
}

/// What an expression evaluates to under the given scopes, innermost last.
/// Both operands of a binary operator are evaluated, left first.
pub open spec fn eval<'a>(e: Expression<'a>, scopes: Seq<Scope>) -> Result<Outcome, EvalError<'a>>
    decreases e,
{
    match e {
        Expression::Variable(v) => Ok(lookup(scopes, v.name@)),
        Expression::TemplateLiteral(t) => Ok(Outcome::Text(t.value@)),
        Expression::Literal(l) => Ok(Outcome::Text(strip_quotes(l.token.token_value@))),
        Expression::Call(c) => match eval(*c.callee, scopes) {
            Err(err) => Err(err),
            Ok(Outcome::Json(Value::Object(entries))) => match member(entries@, c.name@) {
                Some(v) => Ok(Outcome::Json(v)),
                None => Ok(Outcome::Null),
            },
            Ok(_) => Err(EvalError::UndefinedProperty { name: c.name }),
        },
        Expression::Unary(u) => match eval(*u.right, scopes) {
            Err(err) => Err(err),
            Ok(o) => Ok(Outcome::Bool(!truthy(o))),
        },
        Expression::Binary(b) => match eval(*b.left, scopes) {
            Err(err) => Err(err),
            Ok(l) => match eval(*b.right, scopes) {
                Err(err) => Err(err),
                Ok(r) => match b.operator {
                    BinaryOperator::Equals => match equals(l, r) {
                        Ok(x) => Ok(Outcome::Bool(x)),
                        Err(err) => Err(err),
                    },
                    BinaryOperator::NotEquals => match equals(l, r) {
                        Ok(x) => Ok(Outcome::Bool(!x)),
                        Err(err) => Err(err),
                    },
                    BinaryOperator::And => Ok(Outcome::Bool(truthy(l) && truthy(r))),
                    BinaryOperator::Or => Ok(Outcome::Bool(truthy(l) || truthy(r))),
                },
            },
        },
    }
}

/// The output of a statement.
pub open spec fn render_statement<'a>(s: StatementModel<'a>, scopes: Seq<Scope>) -> Result<Seq<u8>, EvalError<'a>>
    decreases s, 0nat,
{
    match s {
        StatementModel::Expression(e) => match eval(e, scopes) {
            Err(err) => Err(err),
            Ok(o) => stringify(o),
        },
        StatementModel::For { instance_identifier, array_variable, statements } => match eval(array_variable, scopes) {
            Err(err) => Err(err),
            Ok(Outcome::Json(Value::Array(items))) =>
                render_loop(statements, instance_identifier@, items@, scopes),
            Ok(_) => Err(EvalError::NotAnArray),
        },
        StatementModel::If { condition, if_statements, else_statements } => match eval(condition, scopes) {
            Err(err) => Err(err),
            Ok(c) => if truthy(c) {
                render_statements(if_statements, scopes)
            } else {
                render_statements(else_statements, scopes)
            },
        },
    }
}

/// The outputs of statements, concatenated in order; the first error stops.
pub open spec fn render_statements<'a>(stmts: Seq<StatementModel<'a>>, scopes: Seq<Scope>) -> Result<Seq<u8>, EvalError<'a>>
    decreases stmts, 0nat,
{
    if stmts.len() == 0 {
        Ok(seq![])
    } else {
        match render_statement(stmts[0], scopes) {
            Err(err) => Err(err),
            Ok(first) => match render_statements(stmts.subrange(1, stmts.len() as int), scopes) {
                Err(err) => Err(err),
                Ok(rest) => Ok(first + rest),
            },
        }
    }
}

/// The body rendered once for each item, with `name` bound to the item in a
/// new innermost scope.
pub open spec fn render_loop<'a>(body: Seq<StatementModel<'a>>, name: Seq<u8>, items: Seq<Value>, scopes: Seq<Scope>) -> Result<Seq<u8>, EvalError<'a>>
    decreases body, items.len(),
{
    if items.len() == 0 {
        Ok(seq![])
    } else {
        match render_statements(body, scopes.push(Scope::Binding(name, items[0]))) {
            Err(err) => Err(err),
            Ok(first) => match render_loop(body, name, items.subrange(1, items.len() as int), scopes) {
                Err(err) => Err(err),
                Ok(rest) => Ok(first + rest),
            },
        }
    }
}

/// The innermost binding of a name wins: inside a loop that binds `name` to
/// a value other than null, the name looks up that value, whatever the
/// outer scopes bind it to.
pub proof fn lemma_innermost_binding_wins(scopes: Seq<Scope>, name: Seq<u8>, v: Value)
    requires
        !(v is Null),
    ensures
        lookup(scopes.push(Scope::Binding(name, v)), name) == Outcome::Json(v),
{
    assert(scopes.push(Scope::Binding(name, v)).last() == Scope::Binding(name, v));
}

/// `prefix` followed by what `r` holds, or the error of `r`.
pub open spec fn after<'a>(prefix: Seq<u8>, r: Result<Seq<u8>, EvalError<'a>>) -> Result<Seq<u8>, EvalError<'a>> {
    match r {
        Ok(t) => Ok(prefix + t),
        Err(e) => Err(e),
    }
}

/// Appends `bytes` to `out`.
fn push_bytes(out: &mut Vec<u8>, bytes: &[u8])
    ensures
        final(out)@ == old(out)@ + bytes@,
{
    let mut k: usize = 0;
    while k < bytes.len()
        invariant
            0 <= k <= bytes@.len(),
            out@ == old(out)@ + bytes@.subrange(0, k as int),
        decreases bytes.len() - k,
    {
        out.push(bytes[k]);
        k += 1;
        assert(out@ =~= old(out)@ + bytes@.subrange(0, k as int));
    }
    assert(bytes@.subrange(0, bytes@.len() as int) =~= bytes@);
}

/// Renders templates against a context.
pub struct Interperter<'a> {
    /// The scopes, innermost last.
    context_stack: Vec<Frame<'a>>,
}

impl<'a> Interperter<'a> {
    /// The scopes, innermost last.
    pub closed spec fn scopes(&self) -> Seq<Scope> {
        self.context_stack@.map_values(|f: Frame<'a>| f@)
    }

    /// Returns an interpreter whose only scope is `context`.
    pub fn new(context: &'a Value) -> (r: Self)
        ensures
            r.scopes() == seq![Scope::Root(*context)],
    {
        let r = Interperter { context_stack: vec![Frame::Root(context)] };
        assert(r.scopes() =~= seq![Scope::Root(*context)]);
        r
    }

    /// Renders `statements` and returns the output; the scopes are the same
    /// afterwards.
    pub fn interpret<'s>(&mut self, statements: &'s Vec<Statement<'a>>) -> (r: Result<Vec<u8>, EvalError<'a>>)
        ensures
            final(self).scopes() == old(self).scopes(),
            match render_statements(models_of(statements@), old(self).scopes()) {
                Ok(t) => r matches Ok(out) && out@ == t,
                Err(e) => r == Err::<Vec<u8>, EvalError<'a>>(e),
            },
    {
        let mut out: Vec<u8> = Vec::new();
        match self.render_into(statements, &mut out) {
            Ok(()) => {
                assert(seq![] + render_statements(models_of(statements@), old(self).scopes())->Ok_0 =~= render_statements(models_of(statements@), old(self).scopes())->Ok_0);
                Ok(out)
            },
            Err(e) => Err(e),
        }
    }

    /// Appends the output of `statements` to `out`.
    fn render_into<'s>(&mut self, statements: &'s Vec<Statement<'a>>, out: &mut Vec<u8>) -> (r: Result<(), EvalError<'a>>)
        ensures
            final(self).scopes() == old(self).scopes(),
            match render_statements(models_of(statements@), old(self).scopes()) {
                Ok(t) => r is Ok && final(out)@ == old(out)@ + t,
                Err(e) => r == Err::<(), EvalError<'a>>(e),
            },
        decreases statements@, 0nat,
    {
        let ghost sc = self.scopes();
        let ghost all = models_of(statements@);
        proof { lemma_models_of(statements@); }
        let mut i: usize = 0;
        proof {
            assert(all.subrange(0, all.len() as int) =~= all);
            assert(out@.subrange(old(out)@.len() as int, out@.len() as int) =~= seq![]);
            assert(out@.subrange(0, old(out)@.len() as int) =~= old(out)@);
            if let Ok(t) = render_statements(all, sc) {
                assert(seq![] + t =~= t);
            }
        }
        while i < statements.len()
            invariant
                0 <= i <= all.len(),
                all == models_of(statements@),
                all.len() == statements@.len(),
                forall|j: int| 0 <= j < statements@.len() ==> #[trigger] all[j] == model_of(statements@[j]),
                sc == old(self).scopes(),
                self.scopes() == sc,
                render_statements(all, sc) == after(out@.subrange(old(out)@.len() as int, out@.len() as int), render_statements(all.subrange(i as int, all.len() as int), sc)),
                old(out)@.len() <= out@.len(),
                out@.subrange(0, old(out)@.len() as int) == old(out)@,
            decreases all.len() - i,
        {
            let ghost before = out@;
            let ghost tail = all.subrange(i as int, all.len() as int);
            assert(tail[0] == all[i as int]);
            assert(tail.subrange(1, tail.len() as int) =~= all.subrange(i + 1, all.len() as int));
            match self.execute(&statements[i], out) {
                Ok(()) => {},
                Err(e) => {
                    return Err(e);
                },
            }
            proof {
                let done = before.subrange(old(out)@.len() as int, before.len() as int);
                let step = out@.subrange(before.len() as int, out@.len() as int);
                assert(out@.subrange(old(out)@.len() as int, out@.len() as int) =~= done + step);
                assert(out@.subrange(0, old(out)@.len() as int) =~= old(out)@);
                assert(render_statement(all[i as int], sc) is Ok);
                assert(step =~= render_statement(all[i as int], sc)->Ok_0);
                assert(render_statements(tail, sc) == after(step, render_statements(all.subrange(i + 1, all.len() as int), sc)));
                match render_statements(all.subrange(i + 1, all.len() as int), sc) {
                    Ok(rest) => {
                        assert(done + (step + rest) =~= (done + step) + rest);
                    },
                    Err(_) => {},
                }
            }
            i += 1;
        }
        proof {
            assert(out@ =~= old(out)@ + out@.subrange(old(out)@.len() as int, out@.len() as int));
            assert(out@.subrange(old(out)@.len() as int, out@.len() as int) + seq![] =~= out@.subrange(old(out)@.len() as int, out@.len() as int));
        }
        Ok(())
    }

    /// Appends the output of one statement to `out`.
    fn execute<'s>(&mut self, statement: &'s Statement<'a>, out: &mut Vec<u8>) -> (r: Result<(), EvalError<'a>>)
        ensures
            final(self).scopes() == old(self).scopes(),
            match render_statement(model_of(*statement), old(self).scopes()) {
                Ok(t) => r is Ok && final(out)@ == old(out)@ + t,
                Err(e) => r == Err::<(), EvalError<'a>>(e),
            },
        decreases statement, 0nat,
    {
        match statement {
            Statement::Expression(expression) => {
                let value = self.evaluate(expression)?;
                Self::to_string(value, out)
            },
            Statement::For(for_statement) => {
                let array = self.evaluate(&for_statement.array_variable)?;
                let items = match array {
                    Evaluated::Json(Value::Array(items)) => items,
                    _ => {
                        return Err(EvalError::NotAnArray);
                    },
                };
                let ghost sc = self.scopes();
                let ghost body = models_of(for_statement.statements@);
                let ghost name = for_statement.instance_identifier@;
                let mut k: usize = 0;
                proof {
                    assert(items@.subrange(0, items@.len() as int) =~= items@);
                    assert(out@.subrange(old(out)@.len() as int, out@.len() as int) =~= seq![]);
                    assert(out@.subrange(0, old(out)@.len() as int) =~= old(out)@);
                    if let Ok(t) = render_statement(model_of(*statement), sc) {
                        assert(seq![] + t =~= t);
                    }
                }
                while k < items.len()
                    invariant
                        *statement == Statement::For(*for_statement),
                        0 <= k <= items@.len(),
                        sc == old(self).scopes(),
                        self.scopes() == sc,
                        body == models_of(for_statement.statements@),
                        name == for_statement.instance_identifier@,
                        render_statement(model_of(*statement), sc) == after(
                            out@.subrange(old(out)@.len() as int, out@.len() as int),
                            render_loop(body, name, items@.subrange(k as int, items@.len() as int), sc),
                        ),
                        old(out)@.len() <= out@.len(),
                        out@.subrange(0, old(out)@.len() as int) == old(out)@,
                    decreases items@.len() - k,
                {
                    let ghost before = out@;
                    let ghost tail = items@.subrange(k as int, items@.len() as int);
                    assert(tail[0] == items@[k as int]);
                    assert(tail.subrange(1, tail.len() as int) =~= items@.subrange(k + 1, items@.len() as int));
                    self.context_stack.push(Frame::Binding(for_statement.instance_identifier, &items[k]));
                    assert(self.scopes() =~= sc.push(Scope::Binding(name, items@[k as int])));
                    let result = self.render_into(&for_statement.statements, out);
                    let ghost pushed = self.context_stack@;
                    self.context_stack.pop();
                    assert(self.scopes() =~= pushed.map_values(|f: Frame<'a>| f@).drop_last());
                    assert(self.scopes() =~= sc);
                    match result {
                        Ok(()) => {},
                        Err(e) => {
                            return Err(e);
                        },
                    }
                    proof {
                        let done = before.subrange(old(out)@.len() as int, before.len() as int);
                        let step = out@.subrange(before.len() as int, out@.len() as int);
                        assert(out@.subrange(old(out)@.len() as int, out@.len() as int) =~= done + step);
                        assert(out@.subrange(0, old(out)@.len() as int) =~= old(out)@);
                        assert(render_statements(body, sc.push(Scope::Binding(name, items@[k as int]))) is Ok);
                        assert(step =~= render_statements(body, sc.push(Scope::Binding(name, items@[k as int])))->Ok_0);
                        assert(render_loop(body, name, tail, sc) == after(step, render_loop(body, name, items@.subrange(k + 1, items@.len() as int), sc)));
                        match render_loop(body, name, items@.subrange(k + 1, items@.len() as int), sc) {
                            Ok(rest) => {
                                assert(done + (step + rest) =~= (done + step) + rest);
                            },
                            Err(_) => {},
                        }
                    }
                    k += 1;
                }
                proof {
                    assert(out@ =~= old(out)@ + out@.subrange(old(out)@.len() as int, out@.len() as int));
                    assert(out@.subrange(old(out)@.len() as int, out@.len() as int) + seq![] =~= out@.subrange(old(out)@.len() as int, out@.len() as int));
                }
                Ok(())
            },
            Statement::If(if_statement) => {
                let condition = self.evaluate(&if_statement.condition)?;
                if Self::is_truthy(condition) {
                    self.render_into(&if_statement.if_statements, out)
                } else {
                    self.render_into(&if_statement.else_statements, out)
                }
            },
        }
    }

    /// Looks `key` up in the scopes, innermost first; a null binding does
    /// not hide an outer one.
    fn get(&self, key: &[u8]) -> (r: Evaluated<'a>)
        ensures
            r@ == lookup(self.scopes(), key@),
    {
        let mut k: usize = self.context_stack.len();
        assert(self.scopes().subrange(0, k as int) =~= self.scopes());
        while k > 0
            invariant
                0 <= k <= self.scopes().len(),
                self.scopes().len() == self.context_stack@.len(),
                lookup(self.scopes(), key@) == lookup(self.scopes().subrange(0, k as int), key@),
            decreases k,
        {
            let ghost prefix = self.scopes().subrange(0, k as int);
            assert(prefix.drop_last() =~= self.scopes().subrange(0, k - 1));
            let found: Option<&'a Value> = match self.context_stack[k - 1] {
                Frame::Root(v) => match v {
                    Value::Object(entries) => get_member(entries, key),
                    _ => None,
                },
                Frame::Binding(name, v) => {
                    if crate::tokenizer::bytes_equal(name, key) {
                        Some(v)
                    } else {
                        None
                    }
                },
            };
            match found {
                Some(v) => {
                    match v {
                        Value::Null => {},
                        _ => {
                            return Evaluated::Json(v);
                        },
                    }
                },
                None => {},
            }
            k -= 1;
        }
        Evaluated::Null
    }

    /// Evaluates an expression.
    fn evaluate<'s>(&self, expression: &'s Expression<'a>) -> (r: Result<Evaluated<'a>, EvalError<'a>>)
        ensures
            match eval(*expression, self.scopes()) {
                Ok(o) => r matches Ok(x) && x@ == o,
                Err(e) => r == Err::<Evaluated<'a>, EvalError<'a>>(e),
            },
        decreases expression,
    {
        match expression {
            Expression::Variable(variable) => Ok(self.get(variable.name)),
            Expression::TemplateLiteral(template) => Ok(Evaluated::Text(template.value)),
            Expression::Literal(literal) => {
                let t = literal.token.token_value;
                if t.len() >= 2 {
                    Ok(Evaluated::Text(vstd::slice::slice_subrange(t, 1, t.len() - 1)))
                } else {
                    Ok(Evaluated::Text(t))
                }
            },
            Expression::Call(call) => {
                let callee = self.evaluate(&call.callee)?;
                match callee {
                    Evaluated::Json(Value::Object(entries)) => match get_member(entries, call.name) {
                        Some(v) => Ok(Evaluated::Json(v)),
                        None => Ok(Evaluated::Null),
                    },
                    _ => Err(EvalError::UndefinedProperty { name: call.name }),
                }
            },
            Expression::Unary(unary) => {
                let value = self.evaluate(&unary.right)?;
                Ok(Evaluated::Bool(!Self::is_truthy(value)))
            },
            Expression::Binary(binary) => {
                let left = self.evaluate(&binary.left)?;
                let right = self.evaluate(&binary.right)?;
                match binary.operator {
                    BinaryOperator::Equals => Ok(Evaluated::Bool(Self::is_equals(left, right)?)),
                    BinaryOperator::NotEquals => Ok(Evaluated::Bool(!Self::is_equals(left, right)?)),
                    BinaryOperator::And => {
                        let l = Self::is_truthy(left);
                        let r = Self::is_truthy(right);
                        Ok(Evaluated::Bool(l && r))
                    },
                    BinaryOperator::Or => {
                        let l = Self::is_truthy(left);
                        let r = Self::is_truthy(right);
                        Ok(Evaluated::Bool(l || r))
                    },
                }
            },
        }
    }

    /// Truthiness of an evaluated expression.
    fn is_truthy(value: Evaluated<'a>) -> (r: bool)
        ensures
            r == truthy(value@),
    {
        match value {
            Evaluated::Null => false,
            Evaluated::Bool(b) => b,
            Evaluated::Text(t) => t.len() != 0,
            Evaluated::Json(v) => match v {
                Value::Null => false,
                Value::Bool(b) => *b,
                Value::Number(t) => !number_is_zero(t),
                Value::String(s) => s.len() != 0,
                Value::Array(a) => a.len() != 0,
                Value::Object(_) => true,
            },
        }
    }

    /// The text of a string-like value.
    fn as_text(value: Evaluated<'a>) -> (r: Option<&'a [u8]>)
        ensures
            match text_of(value@) {
                None => r is None,
                Some(t) => r matches Some(x) && x@ == t,
            },
    {
        match value {
            Evaluated::Text(t) => Some(t),
            Evaluated::Json(Value::String(s)) => Some(s.as_slice()),
            _ => None,
        }
    }

    /// Compares two string-like values.
    fn is_equals(left: Evaluated<'a>, right: Evaluated<'a>) -> (r: Result<bool, EvalError<'a>>)
        ensures
            r == equals::<'a>(left@, right@),
    {
        match (Self::as_text(left), Self::as_text(right)) {
            (Some(l), Some(r)) => Ok(crate::tokenizer::bytes_equal(l, r)),
            _ => Err(EvalError::UnsupportedValueType),
        }
    }

    /// Appends how a value is written out to `out`.
    fn to_string(value: Evaluated<'a>, out: &mut Vec<u8>) -> (r: Result<(), EvalError<'a>>)
        ensures
            match stringify::<'a>(value@) {
                Ok(t) => r is Ok && final(out)@ == old(out)@ + t,
                Err(e) => r == Err::<(), EvalError<'a>>(e),
            },
    {
        match value {
            Evaluated::Text(t) => {
                push_bytes(out, t);
                Ok(())
            },
            Evaluated::Null | Evaluated::Json(Value::Null) => {
                let null: [u8; 4] = [110u8, 117u8, 108u8, 108u8];
                push_bytes(out, &null);
                assert(null@ =~= null_text());
                Ok(())
            },
            Evaluated::Json(Value::String(s)) => {
                push_bytes(out, s.as_slice());
                Ok(())
            },
            Evaluated::Json(Value::Number(t)) => {
                push_bytes(out, t.as_slice());
                Ok(())
            },
            _ => Err(EvalError::UnsupportedValueType),
        }
    }
}

} // verus!
