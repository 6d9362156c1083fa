//! The variables of a program: a mapping from names to values.

use vstd::prelude::*;
use crate::value::{Gval, Val, bytes_eq};

verus! {

/// One name with the value bound to it.
pub struct Binding {
    pub name: Vec<u8>,
    pub value: Gval,
}

/// The variables, kept in the order in which their names were first bound.
pub struct Vars {
    entries: Vec<Binding>,
}

/// The mapping that the first `n` bindings make; a later binding of a name
/// overrides an earlier one.
pub open spec fn bindings(e: Seq<Binding>, n: int) -> Map<Seq<u8>, Val>
    decreases n,
{
    if n <= 0 || n > e.len() {
        Map::empty()
    } else {
        bindings(e, n - 1).insert(e[n - 1].name@, e[n - 1].value@)
    }
}

/// Bindings that agree on their first `n` entries make the same mapping of
/// them.
proof fn lemma_bindings_prefix(e1: Seq<Binding>, e2: Seq<Binding>, n: int)
    requires
        0 <= n <= e1.len(),
        n <= e2.len(),
        forall|j: int| 0 <= j < n ==> e1[j] == e2[j],
    ensures
        bindings(e1, n) == bindings(e2, n),
    decreases n,
{
    if n > 0 {
        lemma_bindings_prefix(e1, e2, n - 1);
    }
}

/// Where no binding from `n` up to `m` is of `name`, the first `m` bindings
/// say of `name` what the first `n` say.
proof fn lemma_bindings_skip(e: Seq<Binding>, n: int, m: int, name: Seq<u8>)
    requires
        0 <= n <= m <= e.len(),
        forall|j: int| n <= j < m ==> e[j].name@ != name,
    ensures
        bindings(e, m).contains_key(name) == bindings(e, n).contains_key(name),
        bindings(e, n).contains_key(name) ==> bindings(e, m)[name] == bindings(e, n)[name],
    decreases m - n,
{
    if n < m {
        lemma_bindings_skip(e, n, m - 1, name);
    }
}

/// Replacing the value of the last binding of a name is binding the name
/// anew.
proof fn lemma_bindings_update(e: Seq<Binding>, i: int, b: Binding, m: int)
    requires
        0 <= i < m <= e.len(),
        e[i].name@ == b.name@,
        forall|j: int| i < j < m ==> e[j].name@ != b.name@,
    ensures
        bindings(e.update(i, b), m) == bindings(e, m).insert(b.name@, b.value@),
    decreases m - i,
{
    let e2 = e.update(i, b);
    if m == i + 1 {
        lemma_bindings_prefix(e, e2, i);
        assert(bindings(e2, m) =~= bindings(e, m).insert(b.name@, b.value@));
    } else {
        lemma_bindings_update(e, i, b, m - 1);
        assert(bindings(e2, m) =~= bindings(e, m).insert(b.name@, b.value@));
    }
}

impl View for Vars {
    type V = Map<Seq<u8>, Val>;

    closed spec fn view(&self) -> Map<Seq<u8>, Val> {
        bindings(self.entries@, self.entries@.len() as int)
    }
}

impl Vars {
    /// No variable bound.
    pub fn new() -> (r: Vars)
        ensures
            r@ == Map::<Seq<u8>, Val>::empty(),
    {
        Vars { entries: Vec::new() }
    }

    /// The index of the last binding of `name`, if there is one.
    fn find(&self, name: &Vec<u8>) -> (r: Option<usize>)
        ensures
            r matches Some(i) ==> i < self.entries.len() && self.entries@[i as int].name@ == name@
                && forall|j: int| i < j < self.entries.len() ==> self.entries@[j].name@ != name@,
            r is None ==> forall|j: int|
                0 <= j < self.entries.len() ==> self.entries@[j].name@ != name@,
    {
        let mut i: usize = self.entries.len();
        while i > 0
            invariant
                i <= self.entries.len(),
                forall|j: int| i <= j < self.entries.len() ==> self.entries@[j].name@ != name@,
            decreases i,
        {
            i -= 1;
            if bytes_eq(&self.entries[i].name, name) {
                return Some(i);
            }
        }
        None
    }

    /// The value bound to `name`, if any.
    pub fn get(&self, name: &Vec<u8>) -> (r: Option<&Gval>)
        ensures
            r is Some == self@.contains_key(name@),
            r matches Some(v) ==> v@ == self@[name@],
    {
        match self.find(name) {
            Some(i) => {
                proof {
                    lemma_bindings_skip(
                        self.entries@,
                        i + 1,
                        self.entries@.len() as int,
                        name@,
                    );
                }
                Some(&self.entries[i].value)
            },
            None => {
                proof {
                    lemma_bindings_skip(self.entries@, 0, self.entries@.len() as int, name@);
                }
                None
            },
        }
    }

    /// Binds `name` to `value`, in place of what was bound to it.
    pub fn insert(&mut self, name: Vec<u8>, value: Gval)
        ensures
            final(self)@ == old(self)@.insert(name@, value@),
    {
        let found = self.find(&name);
        let b = Binding { name, value };
        match found {
            Some(i) => {
                proof {
                    lemma_bindings_update(self.entries@, i as int, b, self.entries@.len() as int);
                }
                self.entries.set(i, b);
            },
            None => {
                proof {
                    lemma_bindings_prefix(
                        self.entries@,
                        self.entries@.push(b),
                        self.entries@.len() as int,
                    );
                }
                self.entries.push(b);
            },
        }
    }
}

} // verus!
