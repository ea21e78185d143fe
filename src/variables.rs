//! The variable environment: global, local and scoped bindings, each immutable (`let`) or
//! mutable (`var`).
use vstd::prelude::*;
use crate::attributes::str_eq;
use crate::value::{ExecutionError, Value};

verus! {

/// A table of bindings, keyed by a syntax-node identity and a name.
pub struct Scope {
    entries: Vec<(u32, String, Value, bool)>,
}

impl View for Scope {
    type V = Map<(u32, Seq<char>), (Value, bool)>;

    closed spec fn view(&self) -> Map<(u32, Seq<char>), (Value, bool)> {
        Map::new(
            |k: (u32, Seq<char>)| exists|i: int| 0 <= i < self.entries@.len() && self.key_at(i) == k,
            |k: (u32, Seq<char>)| {
                let i = choose|i: int| 0 <= i < self.entries@.len() && self.key_at(i) == k;
                (self.entries@[i].2, self.entries@[i].3)
            },
        )
    }
}

impl Scope {
    spec fn key_at(&self, i: int) -> (u32, Seq<char>) {
        (self.entries@[i].0, self.entries@[i].1@)
    }

    /// No key occurs twice.
    pub closed spec fn wf(&self) -> bool {
        forall|i: int, j: int| 0 <= i < self.entries@.len() && 0 <= j < self.entries@.len() && i != j
            ==> #[trigger] self.key_at(i) != #[trigger] self.key_at(j)
    }

    /// An empty table.
    pub fn new() -> (r: Scope)
        ensures
            r.wf(),
            r@ == Map::<(u32, Seq<char>), (Value, bool)>::empty(),
    {
        let r = Scope { entries: Vec::new() };
        assert(r@ =~= Map::<(u32, Seq<char>), (Value, bool)>::empty());
        r
    }

    fn position(&self, key: u32, name: &str) -> (r: Option<usize>)
        requires
            self.wf(),
        ensures
            r matches Some(i) ==> i < self.entries@.len() && self.key_at(i as int) == (key, name@)
                && self@.contains_key((key, name@)) && self@[(key, name@)] == (self.entries@[i as int].2, self.entries@[i as int].3),
            r is None ==> !self@.contains_key((key, name@)),
    {
        let mut i: usize = 0;
        while i < self.entries.len()
            invariant
                self.wf(),
                i <= self.entries@.len(),
                forall|j: int| 0 <= j < i ==> self.key_at(j) != (key, name@),
            decreases self.entries@.len() - i,
        {
            let e = &self.entries[i];
            if e.0 == key && str_eq(e.1.as_str(), name) {
                proof {
                    assert(self.key_at(i as int) == (key, name@));
                    let j = choose|j: int| 0 <= j < self.entries@.len() && self.key_at(j) == (key, name@);
                    assert(j == i);
                }
                return Some(i);
            }
            i = i + 1;
        }
        None
    }

    /// The value bound to `name` under `key`, if there is one.
    pub fn get(&self, key: u32, name: &str) -> (r: Option<&Value>)
        requires
            self.wf(),
        ensures
            self@.contains_key((key, name@)) ==> (r matches Some(v) && *v == self@[(key, name@)].0),
            !self@.contains_key((key, name@)) ==> r is None,
    {
        match self.position(key, name) {
            Some(i) => Some(&self.entries[i].2),
            None => None,
        }
    }

    /// Binds `name` under `key`, mutably or not.  A name that is already bound under the key is
    /// an error, which leaves the table as it was.
    pub fn define(&mut self, key: u32, name: String, value: Value, mutable: bool) -> (r: Result<(), ExecutionError>)
        requires
            old(self).wf(),
        ensures
            final(self).wf(),
            old(self)@.contains_key((key, name@)) ==> (r matches Err(ExecutionError::DuplicateVariable(m))
                && m@ == name@) && final(self)@ == old(self)@,
            !old(self)@.contains_key((key, name@)) ==> r is Ok && final(self)@ == old(self)@.insert((key, name@), (value, mutable)),
    {
        match self.position(key, name.as_str()) {
            Some(_) => Err(ExecutionError::DuplicateVariable(name)),
            None => {
                let ghost m0 = self@;
                let ghost s0 = self.entries@;
                let ghost k = (key, name@);
                let ghost v = (value, mutable);
                self.entries.push((key, name, value, mutable));
                proof {
                    let s1 = self.entries@;
                    assert(self.key_at(s0.len() as int) == k);
                    assert forall|i: int| 0 <= i < s0.len() implies self.key_at(i) == old(self).key_at(i) && s1[i] == s0[i] by {}
                    assert forall|i: int| 0 <= i < s0.len() implies old(self).key_at(i) != k by {
                        if old(self).key_at(i) == k {
                            assert(m0.contains_key(k));
                        }
                    }
                    assert forall|i: int, j: int| 0 <= i < s1.len() && 0 <= j < s1.len() && i != j
                        implies #[trigger] self.key_at(i) != #[trigger] self.key_at(j) by {
                        if i < s0.len() && j < s0.len() {
                            assert(old(self).key_at(i) != old(self).key_at(j));
                        }
                    }
                    assert forall|x: (u32, Seq<char>)| #[trigger] self@.contains_key(x) == (m0.contains_key(x) || x == k) by {
                        if m0.contains_key(x) {
                            let i = choose|i: int| 0 <= i < s0.len() && old(self).key_at(i) == x;
                            assert(self.key_at(i) == x);
                        }
                        if x == k {
                            assert(self.key_at(s0.len() as int) == x);
                        }
                        if self@.contains_key(x) && x != k {
                            let i = choose|i: int| 0 <= i < s1.len() && self.key_at(i) == x;
                            assert(old(self).key_at(i) == x);
                        }
                    }
                    assert forall|x: (u32, Seq<char>)| #[trigger] self@.contains_key(x) implies self@[x] == m0.insert(k, v)[x] by {
                        let i1 = choose|i: int| 0 <= i < s1.len() && self.key_at(i) == x;
                        if x == k {
                            assert(i1 == s0.len());
                        } else {
                            let i0 = choose|i: int| 0 <= i < s0.len() && old(self).key_at(i) == x;
                            assert(self.key_at(i0) == x);
                            assert(i1 == i0);
                        }
                    }
                    assert(self@ =~= m0.insert(k, v));
                }
                Ok(())
            },
        }
    }

    /// Gives a new value to the mutable binding of `name` under `key`.  An unbound name, or one
    /// bound immutably, is an error, which leaves the table as it was.
    pub fn assign(&mut self, key: u32, name: String, value: Value) -> (r: Result<(), ExecutionError>)
        requires
            old(self).wf(),
        ensures
            final(self).wf(),
            !old(self)@.contains_key((key, name@)) ==> (r matches Err(ExecutionError::UndefinedVariable(m))
                && m@ == name@) && final(self)@ == old(self)@,
            old(self)@.contains_key((key, name@)) && !old(self)@[(key, name@)].1 ==> (r matches Err(
                ExecutionError::CannotAssignImmutableVariable(m)) && m@ == name@) && final(self)@ == old(self)@,
            old(self)@.contains_key((key, name@)) && old(self)@[(key, name@)].1 ==> r is Ok && final(self)@
                == old(self)@.insert((key, name@), (value, true)),
    {
        match self.position(key, name.as_str()) {
            None => Err(ExecutionError::UndefinedVariable(name)),
            Some(i) => {
                if !self.entries[i].3 {
                    return Err(ExecutionError::CannotAssignImmutableVariable(name));
                }
                let ghost m0 = self@;
                let ghost s0 = self.entries@;
                let ghost k = (key, name@);
                let ghost v = (value, true);
                self.entries.set(i, (key, name, value, true));
                proof {
                    let s1 = self.entries@;
                    assert forall|j: int| 0 <= j < s1.len() implies self.key_at(j) == old(self).key_at(j) by {}
                    assert forall|a: int, b: int| 0 <= a < s1.len() && 0 <= b < s1.len() && a != b
                        implies #[trigger] self.key_at(a) != #[trigger] self.key_at(b) by {
                        assert(old(self).key_at(a) != old(self).key_at(b));
                    }
                    assert forall|x: (u32, Seq<char>)| #[trigger] self@.contains_key(x) == m0.contains_key(x) by {
                        if m0.contains_key(x) {
                            let j = choose|j: int| 0 <= j < s0.len() && old(self).key_at(j) == x;
                            assert(self.key_at(j) == x);
                        }
                        if self@.contains_key(x) {
                            let j = choose|j: int| 0 <= j < s1.len() && self.key_at(j) == x;
                            assert(old(self).key_at(j) == x);
                        }
                    }
                    assert forall|x: (u32, Seq<char>)| #[trigger] self@.contains_key(x) implies self@[x] == m0.insert(k, v)[x] by {
                        let j1 = choose|j: int| 0 <= j < s1.len() && self.key_at(j) == x;
                        let j0 = choose|j: int| 0 <= j < s0.len() && old(self).key_at(j) == x;
                        assert(self.key_at(j0) == x);
                        assert(j1 == j0);
                        if x == k {
                            assert(j1 == i);
                        }
                    }
                    assert(self@ =~= m0.insert(k, v));
                }
                Ok(())
            },
        }
    }
}

/// The key under which the tables of bare names, globals and locals, hold their bindings.
pub const BARE: u32 = 0;

/// The variables of an execution: globals, supplied once and immutable; locals, which live for
/// one execution of a statement block; and scoped variables, keyed by a syntax node and kept for
/// the whole run.
pub struct Variables {
    globals: Scope,
    locals: Scope,
    scoped: Scope,
}

/// The value that a qualified reference to `name` on the syntax node `node` reads.
pub open spec fn qualified(v: Variables, node: u32, name: Seq<char>) -> Option<Value> {
    if v.scoped().contains_key((node, name)) {
        Some(v.scoped()[(node, name)].0)
    } else {
        None
    }
}

/// The value that a bare reference to `name` reads while `current` is the default syntax node:
/// a local first, then a scoped variable of `current`, then a global.
pub open spec fn bare(v: Variables, current: u32, name: Seq<char>) -> Option<Value> {
    if v.locals().contains_key((BARE, name)) {
        Some(v.locals()[(BARE, name)].0)
    } else if v.scoped().contains_key((current, name)) {
        Some(v.scoped()[(current, name)].0)
    } else if v.globals().contains_key((BARE, name)) {
        Some(v.globals()[(BARE, name)].0)
    } else {
        None
    }
}

/// What binding the scoped variable `name` of `node` does: a second binding is an error that
/// changes nothing; otherwise only the scoped table changes, by the new binding.
pub open spec fn scoped_defined(
    v0: Variables,
    v1: Variables,
    node: u32,
    name: Seq<char>,
    value: Value,
    mutable: bool,
    r: Result<(), ExecutionError>,
) -> bool {
    &&& v1.globals() == v0.globals()
    &&& v1.locals() == v0.locals()
    &&& v0.scoped().contains_key((node, name)) ==> (r matches Err(ExecutionError::DuplicateVariable(m))
        && m@ == name) && v1.scoped() == v0.scoped()
    &&& !v0.scoped().contains_key((node, name)) ==> r is Ok && v1.scoped() == v0.scoped().insert(
        (node, name),
        (value, mutable),
    )
}

/// What ending a statement block does: the locals go, the rest stays.
pub open spec fn locals_cleared(v0: Variables, v1: Variables) -> bool {
    &&& v1.globals() == v0.globals()
    &&& v1.scoped() == v0.scoped()
    &&& v1.locals() == Map::<(u32, Seq<char>), (Value, bool)>::empty()
}

/// A scoped variable written for the syntax node `n` is read back by a qualified reference to
/// `n`, also after the block that wrote it has ended; and it changes nothing that a bare
/// reference reads while another syntax node `m` is the default.
pub proof fn lemma_scoped_visibility(
    v0: Variables,
    v1: Variables,
    v2: Variables,
    n: u32,
    m: u32,
    name: Seq<char>,
    value: Value,
    mutable: bool,
    r: Result<(), ExecutionError>,
)
    requires
        scoped_defined(v0, v1, n, name, value, mutable, r),
        r is Ok,
        locals_cleared(v1, v2),
        m != n,
    ensures
        qualified(v1, n, name) == Some(value),
        qualified(v2, n, name) == Some(value),
        bare(v1, m, name) == bare(v0, m, name),
        qualified(v1, m, name) == qualified(v0, m, name),
{
}

impl Variables {
    /// The global bindings, under the key `BARE`.
    pub closed spec fn globals(&self) -> Map<(u32, Seq<char>), (Value, bool)> {
        self.globals@
    }

    /// The local bindings, under the key `BARE`.
    pub closed spec fn locals(&self) -> Map<(u32, Seq<char>), (Value, bool)> {
        self.locals@
    }

    /// The scoped bindings, keyed by syntax node.
    pub closed spec fn scoped(&self) -> Map<(u32, Seq<char>), (Value, bool)> {
        self.scoped@
    }

    /// Each table is well formed.
    pub closed spec fn wf(&self) -> bool {
        self.globals.wf() && self.locals.wf() && self.scoped.wf()
    }

    /// An environment with no variables.
    pub fn new() -> (r: Variables)
        ensures
            r.wf(),
            r.globals() == Map::<(u32, Seq<char>), (Value, bool)>::empty(),
            r.locals() == Map::<(u32, Seq<char>), (Value, bool)>::empty(),
            r.scoped() == Map::<(u32, Seq<char>), (Value, bool)>::empty(),
    {
        Variables { globals: Scope::new(), locals: Scope::new(), scoped: Scope::new() }
    }

    /// Adds a global variable; a name given twice is an error.
    pub fn add_global(&mut self, name: String, value: Value) -> (r: Result<(), ExecutionError>)
        requires
            old(self).wf(),
        ensures
            final(self).wf(),
            final(self).locals() == old(self).locals(),
            final(self).scoped() == old(self).scoped(),
            old(self).globals().contains_key((BARE, name@)) ==> (r matches Err(ExecutionError::DuplicateVariable(m))
                && m@ == name@) && final(self).globals() == old(self).globals(),
            !old(self).globals().contains_key((BARE, name@)) ==> r is Ok && final(self).globals()
                == old(self).globals().insert((BARE, name@), (value, false)),
    {
        self.globals.define(BARE, name, value, false)
    }

    /// Binds a local variable, immutably for `let` and mutably for `var`; a name already bound
    /// in this block is an error.
    pub fn define_local(&mut self, name: String, value: Value, mutable: bool) -> (r: Result<(), ExecutionError>)
        requires
            old(self).wf(),
        ensures
            final(self).wf(),
            final(self).globals() == old(self).globals(),
            final(self).scoped() == old(self).scoped(),
            old(self).locals().contains_key((BARE, name@)) ==> (r matches Err(ExecutionError::DuplicateVariable(m))
                && m@ == name@) && final(self).locals() == old(self).locals(),
            !old(self).locals().contains_key((BARE, name@)) ==> r is Ok && final(self).locals()
                == old(self).locals().insert((BARE, name@), (value, mutable)),
    {
        self.locals.define(BARE, name, value, mutable)
    }

    /// Gives a new value to a local `var`; an unbound name or a `let` binding is an error.
    pub fn set_local(&mut self, name: String, value: Value) -> (r: Result<(), ExecutionError>)
        requires
            old(self).wf(),
        ensures
            final(self).wf(),
            final(self).globals() == old(self).globals(),
            final(self).scoped() == old(self).scoped(),
            !old(self).locals().contains_key((BARE, name@)) ==> (r matches Err(ExecutionError::UndefinedVariable(m))
                && m@ == name@) && final(self).locals() == old(self).locals(),
            old(self).locals().contains_key((BARE, name@)) && !old(self).locals()[(BARE, name@)].1 ==> (r matches Err(
                ExecutionError::CannotAssignImmutableVariable(m)) && m@ == name@) && final(self).locals() == old(self).locals(),
            old(self).locals().contains_key((BARE, name@)) && old(self).locals()[(BARE, name@)].1 ==> r is Ok
                && final(self).locals() == old(self).locals().insert((BARE, name@), (value, true)),
    {
        self.locals.assign(BARE, name, value)
    }

    /// Binds the scoped variable `name` of the syntax node `node`, immutably for `let` and
    /// mutably for `var`; a name already bound for the node is an error.
    pub fn define_scoped(&mut self, node: u32, name: String, value: Value, mutable: bool) -> (r: Result<(), ExecutionError>)
        requires
            old(self).wf(),
        ensures
            final(self).wf(),
            scoped_defined(*old(self), *final(self), node, name@, value, mutable, r),
    {
        self.scoped.define(node, name, value, mutable)
    }

    /// Gives a new value to the scoped `var` named `name` of the syntax node `node`; an unbound
    /// name or a `let` binding is an error.
    pub fn set_scoped(&mut self, node: u32, name: String, value: Value) -> (r: Result<(), ExecutionError>)
        requires
            old(self).wf(),
        ensures
            final(self).wf(),
            final(self).globals() == old(self).globals(),
            final(self).locals() == old(self).locals(),
            !old(self).scoped().contains_key((node, name@)) ==> (r matches Err(ExecutionError::UndefinedVariable(m))
                && m@ == name@) && final(self).scoped() == old(self).scoped(),
            old(self).scoped().contains_key((node, name@)) && !old(self).scoped()[(node, name@)].1 ==> (r matches Err(
                ExecutionError::CannotAssignImmutableVariable(m)) && m@ == name@) && final(self).scoped() == old(self).scoped(),
            old(self).scoped().contains_key((node, name@)) && old(self).scoped()[(node, name@)].1 ==> r is Ok
                && final(self).scoped() == old(self).scoped().insert((node, name@), (value, true)),
    {
        self.scoped.assign(node, name, value)
    }

    /// Ends a statement block: its locals go.
    pub fn clear_locals(&mut self)
        requires
            old(self).wf(),
        ensures
            final(self).wf(),
            locals_cleared(*old(self), *final(self)),
    {
        self.locals = Scope::new();
    }

    /// Reads the scoped variable `name` of the syntax node `node`.
    pub fn get_scoped(&self, node: u32, name: &str) -> (r: Result<&Value, ExecutionError>)
        requires
            self.wf(),
        ensures
            qualified(*self, node, name@) matches Some(v) ==> (r matches Ok(x) && *x == v),
            qualified(*self, node, name@) is None ==> (r matches Err(ExecutionError::UndefinedVariable(m)) && m@ == name@),
    {
        match self.scoped.get(node, name) {
            Some(v) => Ok(v),
            None => Err(ExecutionError::UndefinedVariable(name.to_owned())),
        }
    }

    /// Reads the bare name `name` while `current` is the default syntax node: a local first,
    /// then a scoped variable of `current`, then a global.
    pub fn lookup(&self, current: u32, name: &str) -> (r: Result<&Value, ExecutionError>)
        requires
            self.wf(),
        ensures
            bare(*self, current, name@) matches Some(v) ==> (r matches Ok(x) && *x == v),
            bare(*self, current, name@) is None ==> (r matches Err(ExecutionError::UndefinedVariable(m)) && m@ == name@),
    {
        if let Some(v) = self.locals.get(BARE, name) {
            return Ok(v);
        }
        if let Some(v) = self.scoped.get(current, name) {
            return Ok(v);
        }
        match self.globals.get(BARE, name) {
            Some(v) => Ok(v),
            None => Err(ExecutionError::UndefinedVariable(name.to_owned())),
        }
    }
}

} // verus!
