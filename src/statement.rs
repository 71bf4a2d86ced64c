//! Statement nodes of the syntax tree.
use vstd::prelude::*;

use crate::expression::Expression;

verus! {

/// A statement.
#[derive(Debug)]
pub enum Statement<'a> {
    Expression(Expression<'a>),
    For(ForStatement<'a>),
    If(IfStatement<'a>),
}

/// `{{ for name in array }} ... {{ end }}`
#[derive(Debug)]
pub struct ForStatement<'a> {
    pub instance_identifier: &'a [u8],
    pub array_variable: Expression<'a>,
    pub statements: Vec<Statement<'a>>,
}

/// `{{ if condition }} ... [{{ else }} ...] {{ end }}`; an empty
/// `else_statements` stands for a missing else branch.
#[derive(Debug)]
pub struct IfStatement<'a> {
    pub condition: Expression<'a>,
    pub if_statements: Vec<Statement<'a>>,
    pub else_statements: Vec<Statement<'a>>,
}

/// A statement with its bodies as sequences.
pub enum StatementModel<'a> {
    Expression(Expression<'a>),
    For { instance_identifier: &'a [u8], array_variable: Expression<'a>, statements: Seq<StatementModel<'a>> },
    If { condition: Expression<'a>, if_statements: Seq<StatementModel<'a>>, else_statements: Seq<StatementModel<'a>> },
}

pub open spec fn model_of<'a>(s: Statement<'a>) -> StatementModel<'a>
    decreases s, 0nat,
{
    match s {
        Statement::Expression(e) => StatementModel::Expression(e),
        Statement::For(f) => StatementModel::For {
            instance_identifier: f.instance_identifier,
            array_variable: f.array_variable,
            statements: models_of(f.statements@),
        },
        Statement::If(i) => StatementModel::If {
            condition: i.condition,
            if_statements: models_of(i.if_statements@),
            else_statements: models_of(i.else_statements@),
        },
    }
}

pub open spec fn models_of<'a>(s: Seq<Statement<'a>>) -> Seq<StatementModel<'a>>
    decreases s, 0nat,
{
    if s.len() == 0 {
        seq![]
    } else {
        models_of(s.drop_last()).push(model_of(s.last()))
    }
}

/// The models of a sequence of statements, one for each, in order.
pub proof fn lemma_models_of<'a>(s: Seq<Statement<'a>>)
    ensures
        models_of(s).len() == s.len(),
        forall|i: int| 0 <= i < s.len() ==> #[trigger] models_of(s)[i] == model_of(s[i]),
    decreases s.len(),
{
    if s.len() > 0 {
        lemma_models_of(s.drop_last());
    }
}

} // verus!
