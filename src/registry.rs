//! The function registry: internal functions (instruction sequences) and
//! native callbacks supplied by the host, each reachable by index or by name.
use vstd::prelude::*;

use crate::op::{copy_code, Instruction};
use crate::semantics::{define, name_index, find_from, names_of};
use crate::text::{codes, codes_of, copy_codes};

verus! {

/// Whether two names hold the same codes.
pub fn same_name(a: &Vec<i32>, b: &Vec<i32>) -> (r: bool)
    ensures
        r == (a@ == b@),
{
    if a.len() != b.len() {
        return false;
    }
    let mut k: usize = 0;
    while k < a.len()
        invariant
            a.len() == b.len(),
            0 <= k <= a.len(),
            forall|j: int| 0 <= j < k ==> a@[j] == b@[j],
        decreases a.len() - k,
    {
        if a[k] != b[k] {
            return false;
        }
        k = k + 1;
    }
    assert(a@ =~= b@);
    true
}

/// The body of an internal function.
pub struct Function {
    pub code: Vec<Instruction>,
}

impl Function {
    pub fn new(code: Vec<Instruction>) -> (r: Function)
        ensures
            r.code@ == code@,
    {
        Function { code }
    }
}

/// The name and body of a function table entry.
pub open spec fn entry_view(e: (Vec<i32>, Function)) -> (Seq<i32>, Seq<Instruction>) {
    (e.0@, e.1.code@)
}

/// The names and bodies of a sequence of function table entries.
pub open spec fn entries_view(es: Seq<(Vec<i32>, Function)>) -> Seq<(Seq<i32>, Seq<Instruction>)> {
    es.map_values(|e: (Vec<i32>, Function)| entry_view(e))
}

/// Internal functions, by index and by name. A function registered by index
/// alone has the empty name.
pub struct FunctionTable {
    entries: Vec<(Vec<i32>, Function)>,
}

impl View for FunctionTable {
    type V = Seq<(Seq<i32>, Seq<Instruction>)>;

    closed spec fn view(&self) -> Self::V {
        entries_view(self.entries@)
    }
}

impl FunctionTable {
    pub fn new() -> (r: FunctionTable)
        ensures
            r@ == Seq::<(Seq<i32>, Seq<Instruction>)>::empty(),
    {
        let r = FunctionTable { entries: Vec::new() };
        assert(r@ =~= Seq::<(Seq<i32>, Seq<Instruction>)>::empty());
        r
    }

    pub fn len(&self) -> (r: usize)
        ensures
            r == self@.len(),
    {
        self.entries.len()
    }

    /// Registers `f` at the next index, without a name.
    pub fn push(&mut self, f: Function)
        ensures
            final(self)@ == old(self)@.push((Seq::<i32>::empty(), f.code@)),
    {
        let ghost before = self@;
        let ghost cv = f.code@;
        let empty: Vec<i32> = Vec::new();
        assert(empty@ =~= Seq::<i32>::empty());
        self.entries.push((empty, f));
        assert(self@ =~= before.push((Seq::<i32>::empty(), cv)));
    }

    /// The index of the first function named `name`.
    pub fn find(&self, name: &Vec<i32>) -> (r: Option<usize>)
        ensures
            match r {
                Some(k) => name_index(names_of(self@), name@) == Some(k as int) && k < self@.len(),
                None => name_index(names_of(self@), name@) is None,
            },
    {
        let ghost names = names_of(self@);
        let mut k: usize = 0;
        while k < self.entries.len()
            invariant
                names == names_of(self@),
                names.len() == self.entries.len(),
                0 <= k <= self.entries.len(),
                name_index(names, name@) == find_from(names, name@, k as int),
            decreases self.entries.len() - k,
        {
            if same_name(&self.entries[k].0, name) {
                return Some(k);
            }
            k = k + 1;
        }
        None
    }

    /// Registers `code` under `name`, replacing the body of the first
    /// function of that name if there is one.
    pub fn define(&mut self, name: Vec<i32>, code: Vec<Instruction>)
        ensures
            final(self)@ == define(old(self)@, name@, code@),
    {
        let ghost before = self@;
        match self.find(&name) {
            Some(k) => {
                let ghost nv = name@;
                let ghost cv = code@;
                self.entries.set(k, (name, Function::new(code)));
                assert(self@ =~= before.update(k as int, (nv, cv)));
            },
            None => {
                let ghost nv = name@;
                let ghost cv = code@;
                self.entries.push((name, Function::new(code)));
                assert(self@ =~= before.push((nv, cv)));
            },
        }
    }

    /// Registers `code` under the name `name`.
    pub fn insert(&mut self, name: String, code: Vec<Instruction>)
        ensures
            final(self)@ == define(old(self)@, codes(name@), code@),
    {
        let n = codes_of(name.as_str());
        self.define(n, code);
    }

    /// Whether some function is named `name`.
    pub fn contains_key(&self, name: &str) -> (r: bool)
        ensures
            r == name_index(names_of(self@), codes(name@)) is Some,
    {
        let n = codes_of(name);
        self.find(&n).is_some()
    }

    /// A copy of the body of the function at index `k`.
    pub fn body(&self, k: usize) -> (r: Vec<Instruction>)
        requires
            k < self@.len(),
        ensures
            r@ == self@[k as int].1,
    {
        let c = &self.entries[k].1.code;
        copy_code(c, 0, c.len())
    }

    /// A copy of the whole table.
    pub fn duplicate(&self) -> (r: FunctionTable)
        ensures
            r@ == self@,
    {
        let mut entries: Vec<(Vec<i32>, Function)> = Vec::new();
        let mut k: usize = 0;
        while k < self.entries.len()
            invariant
                0 <= k <= self.entries.len(),
                entries_view(entries@) =~= self@.subrange(0, k as int),
            decreases self.entries.len() - k,
        {
            let name = &self.entries[k].0;
            let code = &self.entries[k].1.code;
            let n = copy_codes(name);
            let c = copy_code(code, 0, code.len());
            let ghost before = entries@;
            let f = Function::new(c);
            assert(entry_view((n, f)) == self@[k as int]);
            entries.push((n, f));
            assert(entries@ == before.push((n, f)));
            assert(entries_view(entries@) =~= entries_view(before).push(self@[k as int]));
            k = k + 1;
        }
        FunctionTable { entries }
    }
}

/// What `find_from` gives: the first index at or after `k` that holds `name`.
pub proof fn lemma_find_from(names: Seq<Seq<i32>>, name: Seq<i32>, k: int)
    requires
        0 <= k,
    ensures
        find_from(names, name, k) matches Some(j) ==> k <= j < names.len() && names[j] == name
            && forall|m: int| k <= m < j ==> names[m] != name,
        find_from(names, name, k) is None ==> forall|m: int| k <= m < names.len() ==> names[m] != name,
    decreases names.len() - k,
{
    if k < names.len() && names[k] != name {
        lemma_find_from(names, name, k + 1);
    }
}

/// A callback of the host, handed the operand stack. It may push and pop as
/// it likes; the machine assumes nothing of what it does.
pub trait NativeFunction {
    fn call(&self, stack: &mut Vec<i32>);
}

/// A native callback, as the table holds it.
pub struct Native {
    func: Box<dyn NativeFunction>,
}

impl Native {
    pub fn new(func: Box<dyn NativeFunction>) -> Native {
        Native { func }
    }
}

/// Native callbacks, by index and by name. One registered by index alone
/// has the empty name.
pub struct NativeTable {
    entries: Vec<(Vec<i32>, Native)>,
}

impl View for NativeTable {
    type V = Seq<Seq<i32>>;

    closed spec fn view(&self) -> Self::V {
        self.entries@.map_values(|e: (Vec<i32>, Native)| e.0@)
    }
}

impl NativeTable {
    pub fn new() -> (r: NativeTable)
        ensures
            r@ == Seq::<Seq<i32>>::empty(),
    {
        let r = NativeTable { entries: Vec::new() };
        assert(r@ =~= Seq::<Seq<i32>>::empty());
        r
    }

    pub fn len(&self) -> (r: usize)
        ensures
            r == self@.len(),
    {
        self.entries.len()
    }

    /// Registers `f` at the next index, without a name.
    pub fn push(&mut self, f: Native)
        ensures
            final(self)@ == old(self)@.push(Seq::<i32>::empty()),
    {
        let ghost before = self@;
        let empty: Vec<i32> = Vec::new();
        assert(empty@ =~= Seq::<i32>::empty());
        self.entries.push((empty, f));
        assert(self@ =~= before.push(Seq::<i32>::empty()));
    }

    /// The index of the first callback named `name`.
    pub fn find(&self, name: &Vec<i32>) -> (r: Option<usize>)
        ensures
            match r {
                Some(k) => name_index(self@, name@) == Some(k as int) && k < self@.len(),
                None => name_index(self@, name@) is None,
            },
    {
        let mut k: usize = 0;
        while k < self.entries.len()
            invariant
                self@.len() == self.entries.len(),
                0 <= k <= self.entries.len(),
                name_index(self@, name@) == find_from(self@, name@, k as int),
            decreases self.entries.len() - k,
        {
            if same_name(&self.entries[k].0, name) {
                return Some(k);
            }
            k = k + 1;
        }
        None
    }

    /// Registers `f` under the name `name`, replacing the first callback of
    /// that name if there is one.
    pub fn insert(&mut self, name: String, f: Native)
        ensures
            name_index(old(self)@, codes(name@)) is Some ==> final(self)@ == old(self)@,
            name_index(old(self)@, codes(name@)) is None ==> final(self)@ == old(self)@.push(
                codes(name@),
            ),
    {
        let ghost before = self@;
        let n = codes_of(name.as_str());
        match self.find(&n) {
            Some(k) => {
                proof {
                    lemma_find_from(before, n@, 0);
                }
                self.entries.set(k, (n, f));
                assert(self@ =~= before);
            },
            None => {
                let ghost nv = n@;
                self.entries.push((n, f));
                assert(self@ =~= before.push(nv));
            },
        }
    }

    /// Hands `stack` to the callback at index `k`.
    pub fn call(&self, k: usize, stack: &mut Vec<i32>)
        requires
            k < self@.len(),
    {
        self.entries[k].1.func.call(stack);
    }
}

} // verus!
