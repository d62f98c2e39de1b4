use vstd::prelude::*;
use crate::declarations::{Declaration, Declarations};
use crate::scope::{Binding, Scope};

verus! {

/// The compile-time environment: one scope and one declaration registry.
#[derive(Debug, Clone)]
pub struct Context {
    pub scope: Scope,
    pub declarations: Declarations,
}

/// What a context holds, as mathematical values.
pub struct ContextView {
    pub bindings: Seq<Binding>,
    pub depth: usize,
    pub decls: Seq<Declaration>,
}

impl ContextView {
    /// The context after registering `d` under the next id and binding `name` to it.
    pub open spec fn declare(self, name: String, d: Declaration) -> ContextView {
        ContextView {
            bindings: self.bindings.push(Binding { name, id: self.decls.len() as usize, depth: self.depth }),
            depth: self.depth,
            decls: self.decls.push(d),
        }
    }

    /// `self` holds everything that `base` holds, in the same order.
    pub open spec fn extends(self, base: ContextView) -> bool {
        self.decls.len() >= base.decls.len() && self.decls.subrange(0, base.decls.len() as int)
            == base.decls && self.bindings.len() >= base.bindings.len()
            && self.bindings.subrange(0, base.bindings.len() as int) == base.bindings
    }
}

impl View for Context {
    type V = ContextView;

    open spec fn view(&self) -> ContextView {
        ContextView { bindings: self.scope.bindings@, depth: self.scope.depth, decls: self.declarations@ }
    }
}

impl Context {
    /// A context with an empty scope and no declarations.
    pub fn new() -> (r: Context)
        ensures
            r@.bindings.len() == 0,
            r@.depth == 0,
            r@.decls.len() == 0,
    {
        Context { scope: Scope::new(), declarations: Declarations::new() }
    }

    /// Registers `d` and binds `name` to its id, which it returns.
    pub fn declare(&mut self, name: String, d: Declaration) -> (id: usize)
        requires
            old(self)@.decls.len() < usize::MAX,
        ensures
            id == old(self)@.decls.len(),
            final(self)@ == old(self)@.declare(name, d),
    {
        let id = self.declarations.insert(d);
        self.scope.bind(name, id);
        id
    }
}

impl Default for Context {
    fn default() -> (r: Context)
        ensures
            r@.bindings.len() == 0,
            r@.depth == 0,
            r@.decls.len() == 0,
    {
        Context::new()
    }
}

} // verus!
