//! Named bindings: mutable variables, call-local immutable parameters, and
//! the function records the context registers.
//!
//! A `Variable` and a `Parameter` are the two shapes of one binding-kind sum
//! type, [`Binding`]. Only the `Variable` shape supports mutation, so an
//! attempt to mutate a parameter is ruled out by shape rather than detected
//! at run time.

use vstd::prelude::*;

use crate::value::Value;
use crate::value::ValueView;

verus! {

/// A named, mutable storage cell holding one value.
#[derive(Debug)]
pub struct Variable {
    pub name: String,
    pub value: Value,
}

/// A call-local binding: name, positional index, and the value bound at call
/// entry. Immutable for the call's lifetime.
#[derive(Debug)]
pub struct Parameter {
    pub name: String,
    pub index: usize,
    pub value: Value,
}

/// The opaque body text of a user-defined function; the external statement
/// interpreter executes it.
#[derive(Debug)]
pub struct FunctionBody {
    pub code: String,
}

/// A registered function: name, ordered parameters, body text, and the
/// declared return placeholder. Invocation belongs to the external
/// interpreter; the core only registers and looks functions up.
#[derive(Debug)]
pub struct Function {
    pub name: String,
    pub params: Vec<Parameter>,
    pub body: FunctionBody,
    pub ret_val: Value,
}

/// One binding of the context's variable store. Only the `Var` shape can be
/// mutated through the context.
#[derive(Debug)]
pub enum Binding {
    Var(Variable),
    Param(Parameter),
}

impl Variable {
    pub fn get_name(&self) -> (r: String)
        ensures
            r@ == self.name@,
    {
        self.name.clone()
    }

    pub fn get_value(&self) -> (r: Value)
        ensures
            r == self.value,
    {
        self.value.clone()
    }

    pub fn set_value(&mut self, val: Value)
        ensures
            final(self).name == old(self).name,
            final(self).value == val,
    {
        self.value = val;
    }
}

impl Parameter {
    pub fn get_name(&self) -> (r: String)
        ensures
            r@ == self.name@,
    {
        self.name.clone()
    }

    pub fn get_value(&self) -> (r: Value)
        ensures
            r == self.value,
    {
        self.value.clone()
    }
}

impl Binding {
    /// The name this binding is stored under.
    pub open spec fn name_view(self) -> Seq<char> {
        match self {
            Binding::Var(v) => v.name@,
            Binding::Param(p) => p.name@,
        }
    }

    /// The model of the value the binding holds.
    pub open spec fn val_view(self) -> ValueView {
        match self {
            Binding::Var(v) => v.value@,
            Binding::Param(p) => p.value@,
        }
    }

    pub fn get_name(&self) -> (r: String)
        ensures
            r@ == self.name_view(),
    {
        match self {
            Binding::Var(v) => v.get_name(),
            Binding::Param(p) => p.get_name(),
        }
    }

    /// A clone of the held value.
    pub fn get_value(&self) -> (r: Value)
        ensures
            r@ == self.val_view(),
    {
        match self {
            Binding::Var(v) => v.get_value(),
            Binding::Param(p) => p.get_value(),
        }
    }

    /// The name, borrowed for comparisons.
    pub fn name_str(&self) -> (r: &String)
        ensures
            r@ == self.name_view(),
    {
        match self {
            Binding::Var(v) => &v.name,
            Binding::Param(p) => &p.name,
        }
    }
}

impl Function {
    pub fn get_name(&self) -> (r: String)
        ensures
            r@ == self.name@,
    {
        self.name.clone()
    }
}

} // verus!
