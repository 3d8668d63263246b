//! The syntax tree of a solver model and the grammar that produces it.

pub mod expression;
pub mod grammar;
pub mod laws;
pub mod lexical;
pub mod smt_parser;
pub mod smt_type;
pub mod spacing;
pub mod token;

use vstd::prelude::*;

pub use expression::{Expression, ExpressionView};
pub use smt_type::SmtType;

verus! {

/// A parameter of a function: its name and its sort.
pub type Parameter = (String, SmtType);

/// A function that the model defines.
///
/// The parameters are carried as written; nothing here reads them.
#[derive(Debug, PartialEq, Eq)]
pub struct Function {
    pub name: String,
    pub params: Vec<Parameter>,
    pub return_type: SmtType,
    pub body: Box<Expression>,
}

/// A model: its functions in the order of the text.
pub type Model = Vec<Function>;

/// The value of a [`Function`].
pub ghost struct FunctionView {
    pub name: Seq<char>,
    pub params: Seq<(Seq<char>, SmtType)>,
    pub return_type: SmtType,
    pub body: ExpressionView,
}

impl View for Function {
    type V = FunctionView;

    open spec fn view(&self) -> FunctionView {
        FunctionView {
            name: self.name@,
            params: self.params.deep_view(),
            return_type: self.return_type,
            body: self.body@,
        }
    }
}

impl DeepView for Function {
    type V = FunctionView;

    open spec fn deep_view(&self) -> FunctionView {
        self@
    }
}

} // verus!
