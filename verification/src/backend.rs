//! The interface of a code generator.
use vstd::prelude::*;
use crate::ast::{modules_view, Module, SpecModule};

verus! {

/// A code generator: renders checked modules as text in a target language.
pub trait Backend {
    /// The module lists that `generate` can render.
    spec fn can_generate(&self, modules: Seq<SpecModule>) -> bool;

    /// The text of `modules`, or why they cannot be rendered.
    fn generate(&self, modules: &[Module]) -> (r: Result<String, String>)
        requires
            self.can_generate(modules_view(modules@)),
    ;
}

} // verus!
