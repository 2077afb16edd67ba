use crate::value::{Dict, ValueView};
use vstd::prelude::*;

verus! {

/// A scope: a name, the scope around it, and the variables bound in it.
#[derive(Debug)]
pub struct Context {
    name: String,
    parent: Option<Box<Context>>,
    variables: Dict,
}

impl Context {
    /// The name of the scope.
    pub closed spec fn name(&self) -> Seq<char> {
        self.name@
    }

    /// Whether a scope stands around this one.
    pub closed spec fn has_parent(&self) -> bool {
        self.parent is Some
    }

    /// The variables bound in the scope.
    pub closed spec fn variables(&self) -> Map<Seq<char>, ValueView> {
        self.variables@
    }

    /// The outermost scope, named `global`, with no variable bound.
    pub fn new() -> (context: Self)
        ensures
            context.name() == "global"@,
            !context.has_parent(),
            context.variables() == Map::<Seq<char>, ValueView>::empty(),
    {
        Self { parent: None, variables: Dict::new(), name: "global".to_owned() }
    }

    /// A fresh scope named `name`, with no variable bound. It does not
    /// refer back to the scope that made it.
    pub fn new_child(&self, name: &str) -> (context: Self)
        ensures
            context.name() == name@,
            !context.has_parent(),
            context.variables() == Map::<Seq<char>, ValueView>::empty(),
    {
        Self { parent: None, variables: Dict::new(), name: name.to_owned() }
    }
}

} // verus!
