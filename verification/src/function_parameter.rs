//! A function parameter of the syntax layer: named with a type, named with
//! a dynamic type, or an anonymous typed slot.

use vstd::prelude::*;

use crate::ident::Ident;

verus! {

#[derive(Debug)]
pub enum FunctionParameter {
    NamedAndTyped { name: Ident, ty: Ident },
    NamedDynamic { name: Ident },
    Anonymous { ty: Ident },
}

impl FunctionParameter {
    /// The name this parameter binds, if it binds one.
    pub fn name(&self) -> (r: Option<&Ident>)
        ensures
            match r {
                Some(id) => (self matches FunctionParameter::NamedAndTyped { name, .. } && id
                    == name) || (self matches FunctionParameter::NamedDynamic { name } && id
                    == name),
                None => self is Anonymous,
            },
    {
        match self {
            FunctionParameter::NamedAndTyped { name, .. } => Some(name),
            FunctionParameter::NamedDynamic { name } => Some(name),
            FunctionParameter::Anonymous { .. } => None,
        }
    }
}

} // verus!
