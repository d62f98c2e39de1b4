use vstd::prelude::*;

verus! {

/// A name bound to a declaration id at a nesting depth.
#[derive(Debug, Clone)]
pub struct Binding {
    pub name: String,
    pub id: usize,
    pub depth: usize,
}

/// Lexical name bindings. Inner levels are bound after outer ones, so the
/// latest binding of a name is the innermost one.
#[derive(Debug, Clone)]
pub struct Scope {
    pub bindings: Vec<Binding>,
    pub depth: usize,
}

/// The id that the latest binding of `name` among `bs` gives, if any.
pub open spec fn lookup(bs: Seq<Binding>, name: Seq<char>) -> Option<usize>
    decreases bs.len(),
{
    if bs.len() == 0 {
        None
    } else if bs.last().name@ == name {
        Some(bs.last().id)
    } else {
        lookup(bs.drop_last(), name)
    }
}

/// Index of the first '.' in `s`, if any.
pub open spec fn first_dot(s: Seq<char>) -> Option<int> {
    if exists|i: int| 0 <= i < s.len() && s[i] == '.' {
        Some(choose|i: int| 0 <= i < s.len() && s[i] == '.' && forall|j: int| 0 <= j < i ==> s[j] != '.')
    } else {
        None
    }
}

/// Splits a qualified name `table.column` into its table prefix and bare name.
pub fn split_var_name(name: &str) -> (r: (Option<String>, String))
    ensures
        match first_dot(name@) {
            None => r.0 is None && r.1@ == name@,
            Some(i) => 0 <= i < name@.len() && name@[i] == '.' && (forall|j: int|
                0 <= j < i ==> name@[j] != '.') && (r.0 matches Some(t) && t@ == name@.subrange(0, i)) && r.1@ == name@.subrange(
                i + 1,
                name@.len() as int,
            ),
        },
{
    let n = name.unicode_len();
    let mut i: usize = 0;
    while i < n
        invariant
            n == name@.len(),
            i <= n,
            forall|j: int| 0 <= j < i ==> name@[j] != '.',
        decreases n - i,
    {
        if name.get_char(i) == '.' {
            let prefix = name.substring_char(0, i).to_owned();
            let rest = name.substring_char(i + 1, n).to_owned();
            proof {
                let k = first_dot(name@).unwrap();
                assert(0 <= k < name@.len() && name@[k] == '.');
                assert(forall|j: int| 0 <= j < k ==> name@[j] != '.');
                assert(k == i) by {
                    if k < i {
                        assert(name@[k] != '.');
                    } else if k > i {
                        assert(name@[i as int] == '.');
                    }
                }
            }
            return (Some(prefix), rest);
        }
        i = i + 1;
    }
    (None, name.to_owned())
}

impl Scope {
    /// A scope with no bindings.
    pub fn new() -> (r: Scope)
        ensures
            r.bindings@.len() == 0,
            r.depth == 0,
    {
        Scope { bindings: Vec::new(), depth: 0 }
    }

    /// Enters a nested level.
    pub fn push(&mut self)
        requires
            old(self).depth < usize::MAX,
        ensures
            final(self).bindings@ == old(self).bindings@,
            final(self).depth == old(self).depth + 1,
    {
        self.depth = self.depth + 1;
    }

    /// Leaves the innermost level, dropping its bindings.
    pub fn pop(&mut self)
        requires
            old(self).depth > 0,
        ensures
            final(self).depth == old(self).depth - 1,
            final(self).bindings@.len() <= old(self).bindings@.len(),
            final(self).bindings@ == old(self).bindings@.subrange(0, final(self).bindings@.len() as int),
            forall|i: int|
                final(self).bindings@.len() <= i < old(self).bindings@.len() ==> old(self).bindings@[i].depth
                    >= old(self).depth,
            final(self).bindings@.len() > 0 ==> final(self).bindings@.last().depth < old(self).depth,
    {
        while self.bindings.len() > 0 && self.bindings[self.bindings.len() - 1].depth >= self.depth
            invariant
                self.depth == old(self).depth,
                self.bindings@.len() <= old(self).bindings@.len(),
                self.bindings@ == old(self).bindings@.subrange(0, self.bindings@.len() as int),
                forall|i: int|
                    self.bindings@.len() <= i < old(self).bindings@.len() ==> old(self).bindings@[i].depth
                        >= old(self).depth,
            decreases self.bindings@.len(),
        {
            self.bindings.pop();
        }
        self.depth = self.depth - 1;
    }

    /// Binds `name` at the innermost level, shadowing outer bindings of it.
    pub fn bind(&mut self, name: String, id: usize)
        ensures
            final(self).depth == old(self).depth,
            final(self).bindings@ == old(self).bindings@.push(
                Binding { name: name, id: id, depth: old(self).depth },
            ),
            lookup(final(self).bindings@, name@) == Some(id),
    {
        let depth = self.depth;
        self.bindings.push(Binding { name, id, depth });
        proof {
            assert(self.bindings@.drop_last() == old(self).bindings@);
        }
    }

    /// The declaration id bound to `name`, searching innermost to outermost.
    pub fn resolve(&self, name: &String) -> (r: Option<usize>)
        ensures
            r == lookup(self.bindings@, name@),
    {
        let mut i: usize = self.bindings.len();
        proof {
            assert(self.bindings@.subrange(0, i as int) == self.bindings@);
        }
        while i > 0
            invariant
                i <= self.bindings@.len(),
                lookup(self.bindings@, name@) == lookup(self.bindings@.subrange(0, i as int), name@),
            decreases i,
        {
            proof {
                let s = self.bindings@.subrange(0, i as int);
                assert(s.drop_last() == self.bindings@.subrange(0, i - 1));
            }
            if self.bindings[i - 1].name == *name {
                return Some(self.bindings[i - 1].id);
            }
            i = i - 1;
        }
        None
    }
}

} // verus!
