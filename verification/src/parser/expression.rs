//! The expressions of a model and their mathematical view.

use super::smt_type::SmtType;
use vstd::prelude::*;

verus! {

/// An expression as the solver prints it.
///
/// `Parentheses` holds exactly one inner expression: the grammar reads a
/// single expression between the brackets, and the tree says the same.
/// The operators over a list always hold at least one operand when the
/// grammar built them.
#[derive(Debug, PartialEq, Eq)]
pub enum Expression {
    Integer(i32),
    Boolean(bool),
    String(String),
    Parentheses(Box<Expression>),
    Eq(Vec<Expression>),
    And(Vec<Expression>),
    Ite(Box<Expression>, Box<Expression>, Box<Expression>),
    FunctionCall(String, Vec<Expression>),
    Cast(SmtType, i32),
    Identifier(String),
    Not(Box<Expression>),
    Or(Vec<Expression>),
    Add(Vec<Expression>),
    Subtract(Vec<Expression>),
    GreaterOrEqual(Vec<Expression>),
    LowerOrEqual(Vec<Expression>),
}

/// The value of an [`Expression`]: the same tree over sequences.
pub ghost enum ExpressionView {
    Integer(i32),
    Boolean(bool),
    String(Seq<char>),
    Parentheses(Box<ExpressionView>),
    Eq(Seq<ExpressionView>),
    And(Seq<ExpressionView>),
    Ite(Box<ExpressionView>, Box<ExpressionView>, Box<ExpressionView>),
    FunctionCall(Seq<char>, Seq<ExpressionView>),
    Cast(SmtType, i32),
    Identifier(Seq<char>),
    Not(Box<ExpressionView>),
    Or(Seq<ExpressionView>),
    Add(Seq<ExpressionView>),
    Subtract(Seq<ExpressionView>),
    GreaterOrEqual(Seq<ExpressionView>),
    LowerOrEqual(Seq<ExpressionView>),
}

/// The values of a list of expressions, in order.
pub open spec fn view_all(items: Seq<Expression>) -> Seq<ExpressionView>
    decreases items,
{
    Seq::new(
        items.len(),
        |i: int|
            if 0 <= i < items.len() {
                view_of(items[i])
            } else {
                ExpressionView::Boolean(false)
            },
    )
}

/// The value of one expression.
pub open spec fn view_of(expression: Expression) -> ExpressionView
    decreases expression,
{
    match expression {
        Expression::Integer(value) => ExpressionView::Integer(value),
        Expression::Boolean(value) => ExpressionView::Boolean(value),
        Expression::String(text) => ExpressionView::String(text@),
        Expression::Parentheses(inner) => ExpressionView::Parentheses(Box::new(view_of(*inner))),
        Expression::Eq(items) => ExpressionView::Eq(view_all(items@)),
        Expression::And(items) => ExpressionView::And(view_all(items@)),
        Expression::Ite(condition, then_branch, else_branch) => ExpressionView::Ite(
            Box::new(view_of(*condition)),
            Box::new(view_of(*then_branch)),
            Box::new(view_of(*else_branch)),
        ),
        Expression::FunctionCall(name, arguments) => ExpressionView::FunctionCall(
            name@,
            view_all(arguments@),
        ),
        Expression::Cast(target, raw) => ExpressionView::Cast(target, raw),
        Expression::Identifier(name) => ExpressionView::Identifier(name@),
        Expression::Not(inner) => ExpressionView::Not(Box::new(view_of(*inner))),
        Expression::Or(items) => ExpressionView::Or(view_all(items@)),
        Expression::Add(items) => ExpressionView::Add(view_all(items@)),
        Expression::Subtract(items) => ExpressionView::Subtract(view_all(items@)),
        Expression::GreaterOrEqual(items) => ExpressionView::GreaterOrEqual(view_all(items@)),
        Expression::LowerOrEqual(items) => ExpressionView::LowerOrEqual(view_all(items@)),
    }
}

impl View for Expression {
    type V = ExpressionView;

    open spec fn view(&self) -> ExpressionView {
        view_of(*self)
    }
}

/// Whether every operator of a tree that takes a list of operands has at
/// least one: what holds of every tree that the grammar builds.
pub open spec fn has_operands(expression: ExpressionView) -> bool
    decreases expression,
{
    match expression {
        ExpressionView::Integer(_) => true,
        ExpressionView::Boolean(_) => true,
        ExpressionView::String(_) => true,
        ExpressionView::Identifier(_) => true,
        ExpressionView::Cast(_, _) => true,
        ExpressionView::Parentheses(inner) => has_operands(*inner),
        ExpressionView::Not(inner) => has_operands(*inner),
        ExpressionView::Ite(condition, then_branch, else_branch) => has_operands(*condition)
            && has_operands(*then_branch) && has_operands(*else_branch),
        ExpressionView::Eq(items) => all_have_operands(items),
        ExpressionView::And(items) => all_have_operands(items),
        ExpressionView::FunctionCall(_, items) => all_have_operands(items),
        ExpressionView::Or(items) => all_have_operands(items),
        ExpressionView::Add(items) => all_have_operands(items),
        ExpressionView::Subtract(items) => all_have_operands(items),
        ExpressionView::GreaterOrEqual(items) => all_have_operands(items),
        ExpressionView::LowerOrEqual(items) => all_have_operands(items),
    }
}

/// Whether a list is not empty and [`has_operands`] holds of each of its
/// trees.
pub open spec fn all_have_operands(items: Seq<ExpressionView>) -> bool
    decreases items,
{
    items.len() > 0 && forall|i: int| 0 <= i < items.len() ==> has_operands(#[trigger] items[i])
}

impl DeepView for Expression {
    type V = ExpressionView;

    open spec fn deep_view(&self) -> ExpressionView {
        view_of(*self)
    }
}

/// The values of a list are the list of the values.
pub proof fn lemma_view_all(items: Vec<Expression>)
    ensures
        view_all(items@) == items.deep_view(),
{
    assert(view_all(items@) =~= items.deep_view());
}

} // verus!
