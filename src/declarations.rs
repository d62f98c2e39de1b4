use vstd::prelude::*;
use crate::ast::{Expr, TransformKind};
use crate::error::{Error, ErrorKind};

verus! {

/// A named compile-time entity.
#[derive(Debug, Clone)]
pub enum Declaration {
    /// A function with its parameter names and body.
    Function { name: String, params: Vec<String>, body: Expr },
    /// A relational operator of the standard library, with its parameter names.
    Transform { kind: TransformKind, params: Vec<String> },
    /// A table with its ordered column names.
    Table { name: String, columns: Vec<String> },
    /// A variable with the expression bound to it.
    Variable { name: String, value: Expr },
}

/// Append-only registry of declarations; a declaration's id is its position.
#[derive(Debug, Clone)]
pub struct Declarations {
    pub decls: Vec<Declaration>,
}

impl View for Declarations {
    type V = Seq<Declaration>;

    open spec fn view(&self) -> Seq<Declaration> {
        self.decls@
    }
}

impl Declarations {
    /// An empty registry.
    pub fn new() -> (r: Declarations)
        ensures
            r@ == Seq::<Declaration>::empty(),
    {
        Declarations { decls: Vec::new() }
    }

    pub fn len(&self) -> (r: usize)
        ensures
            r == self@.len(),
    {
        self.decls.len()
    }

    /// Stores a declaration under the next id, which it returns.
    pub fn insert(&mut self, decl: Declaration) -> (id: usize)
        requires
            old(self)@.len() < usize::MAX,
        ensures
            id == old(self)@.len(),
            final(self)@ == old(self)@.push(decl),
    {
        let id = self.decls.len();
        self.decls.push(decl);
        id
    }

    /// The declaration with this id; `DeclarationNotFound` for an id never handed out.
    pub fn get(&self, id: usize) -> (r: Result<&Declaration, Error>)
        ensures
            id < self@.len() ==> r == Ok::<&Declaration, Error>(&self@[id as int]),
            id >= self@.len() ==> r == Err::<&Declaration, Error>(Error { kind: ErrorKind::DeclarationNotFound }),
    {
        if id < self.decls.len() {
            Ok(&self.decls[id])
        } else {
            Err(Error::new(ErrorKind::DeclarationNotFound))
        }
    }
}

} // verus!
