//! The sorts that can stand in a model.

use vstd::prelude::*;
use crate::text::same_text;

verus! {

/// A sort named in a declaration or a cast.
#[derive(Debug, Clone, Copy, PartialEq, Eq, Structural)]
pub enum SmtType {
    String,
    Int,
    Bool,
    Char,
}

impl View for SmtType {
    type V = SmtType;

    open spec fn view(&self) -> SmtType {
        *self
    }
}

impl DeepView for SmtType {
    type V = SmtType;

    open spec fn deep_view(&self) -> SmtType {
        *self
    }
}

/// The sort that a spelling names, if it names one.
pub open spec fn smt_type_named(spelling: Seq<char>) -> Option<SmtType> {
    if spelling == "String"@ {
        Some(SmtType::String)
    } else if spelling == "Int"@ {
        Some(SmtType::Int)
    } else if spelling == "Bool"@ {
        Some(SmtType::Bool)
    } else if spelling == "Char"@ {
        Some(SmtType::Char)
    } else {
        None
    }
}

/// What converting a spelling gives: the sort it names, or the unit error.
pub open spec fn smt_type_from(spelling: Seq<char>) -> Result<SmtType, ()> {
    match smt_type_named(spelling) {
        Some(t) => Ok(t),
        None => Err(()),
    }
}

impl vstd::std_specs::convert::TryFromSpecImpl<&str> for SmtType {
    open spec fn obeys_try_from_spec() -> bool {
        true
    }

    open spec fn try_from_spec(value: &str) -> Result<Self, ()> {
        smt_type_from(value@)
    }
}

impl TryFrom<&str> for SmtType {
    type Error = ();

    fn try_from(value: &str) -> (r: Result<Self, ()>)
        ensures
            r == smt_type_from(value@),
    {
        if same_text(value, "String") {
            Ok(SmtType::String)
        } else if same_text(value, "Int") {
            Ok(SmtType::Int)
        } else if same_text(value, "Bool") {
            Ok(SmtType::Bool)
        } else if same_text(value, "Char") {
            Ok(SmtType::Char)
        } else {
            Err(())
        }
    }
}

} // verus!
