//! Modules: named collections of global definitions, some of them exported.

use vstd::prelude::*;
use crate::memory::{Memory, Module, Definition, GcRef, ModulError};

verus! {

impl Module {
    /// `name` is bound in this module and can be seen from the module `from`.
    pub open spec fn visible(&self, name: Seq<char>, from: Seq<char>) -> bool {
        &&& self.exports_name(name) || self.name@ == from
        &&& self.lookup(name) is Some
    }
}

/// The modules in which `name` is bound and visible from the module `from`, in order.
pub open spec fn visible_modules(mods: Seq<Module>, name: Seq<char>, from: Seq<char>) -> Seq<Module> {
    mods.filter(|m: Module| m.visible(name, from))
}

/// The names of some modules.
pub open spec fn module_names(mods: Seq<Module>) -> Seq<Seq<char>> {
    mods.map_values(|m: Module| m.name@)
}

/// The texts of some strings.
pub open spec fn texts(v: Seq<String>) -> Seq<Seq<char>> {
    v.map_values(|s: String| s@)
}

impl Memory {
    /// The position of the module called `name`, if there is one.
    pub open spec fn module_index(&self, name: Seq<char>) -> Option<int> {
        if exists|k: int| 0 <= k < self.modules@.len() && #[trigger] self.modules@[k].name@ == name {
            Some(choose|k: int| 0 <= k < self.modules@.len() && #[trigger] self.modules@[k].name@ == name)
        } else {
            None
        }
    }

    /// The current module.
    pub open spec fn current(&self) -> Module {
        self.modules@[self.current_module as int]
    }

    /// `new` differs from `self` in its modules only.
    pub open spec fn same_heap(&self, new: &Memory) -> bool {
        &&& new.cells == self.cells
        &&& new.symbols == self.symbols
        &&& new.free == self.free
        &&& new.retired == self.retired
        &&& new.next_rank == self.next_rank
    }

    /// A change of the modules alone is an evolution of the heap.
    pub proof fn lemma_same_heap_evolves(&self, new: &Memory)
        requires
            self.wf(),
            new.wf(),
            self.same_heap(new),
        ensures
            self.evolves(new),
    {
        assert forall|i: int| #[trigger] new.used(i) implies
            (self.used(i) && new.content(i) == self.content(i)) || new.rank(i) >= self.next_rank@ by {
            assert(self.used(i));
        }
    }

    proof fn lemma_modules_change(&self, new: &Memory)
        requires
            self.wf(),
            self.same_heap(new),
            new.modules_wf(),
        ensures
            new.wf(),
    {
        self.lemma_same_heap(new);
    }

    pub proof fn lemma_module_index(&self, k: int)
        requires
            self.modules_wf(),
            0 <= k < self.modules@.len(),
        ensures
            self.module_index(self.modules@[k].name@) == Some(k),
    {
        let c = choose|q: int| 0 <= q < self.modules@.len() && #[trigger] self.modules@[q].name@ == self.modules@[k].name@;
        if c != k {
            if c < k {
                assert(self.modules@[c].name@ != self.modules@[k].name@);
            } else {
                assert(self.modules@[k].name@ != self.modules@[c].name@);
            }
        }
    }

    fn find_module(&self, name: &String) -> (r: Option<usize>)
        requires
            self.modules_wf(),
        ensures
            r matches Some(k) ==> self.module_index(name@) == Some(k as int),
            r is None ==> self.module_index(name@) is None,
    {
        let mut k: usize = 0;
        while k < self.modules.len()
            invariant
                self.modules_wf(),
                k <= self.modules@.len(),
                forall|q: int| 0 <= q < k ==> #[trigger] self.modules@[q].name@ != name@,
            decreases self.modules@.len() - k,
        {
            if self.modules[k].name == *name {
                proof {
                    self.lemma_module_index(k as int);
                }
                return Some(k);
            }
            k = k + 1;
        }
        None
    }

    /// The name of the current module.
    pub fn get_current_module(&self) -> (r: String)
        requires
            self.wf(),
        ensures
            r@ == self.current().name@,
    {
        self.modules[self.current_module].name.clone()
    }

    /// Makes the module called `name` the current one.
    pub fn set_current_module(&mut self, name: &str) -> (r: Result<(), ModulError>)
        requires
            old(self).wf(),
        ensures
            final(self).wf(),
            old(self).module_index(name@) is None ==> r == Err::<(), ModulError>(ModulError::NoSuchModule) && *final(self) == *old(self),
            old(self).module_index(name@) matches Some(k) ==> r is Ok && final(self).current_module == k
                && final(self).modules == old(self).modules && old(self).same_heap(&*final(self)),
    {
        let n = String::from_str(name);
        match self.find_module(&n) {
            Some(k) => {
                let ghost ps = *self;
                self.current_module = k;
                proof {
                    ps.lemma_modules_change(&*self);
                }
                Ok(())
            },
            None => Err(ModulError::NoSuchModule),
        }
    }

    /// Creates an empty module called `name`, replacing a module of that name, and makes it current.
    pub fn define_module(&mut self, name: &str)
        requires
            old(self).wf(),
        ensures
            final(self).wf(),
            old(self).same_heap(&*final(self)),
            final(self).current().name@ == name@,
            final(self).current().definitions@.len() == 0,
            final(self).current().exports is None,
            forall|k: int| 0 <= k < old(self).modules@.len() && old(self).modules@[k].name@ != name@ ==>
                final(self).modules@.contains(#[trigger] old(self).modules@[k]),
            forall|k: int| 0 <= k < final(self).modules@.len() && final(self).modules@[k].name@ != name@ ==>
                old(self).modules@.contains(#[trigger] final(self).modules@[k]),
    {
        let n = String::from_str(name);
        let fresh = Module { name: String::from_str(name), definitions: Vec::new(), exports: None };
        let ghost ps = *self;
        match self.find_module(&n) {
            Some(k) => {
                self.modules.set(k, fresh);
                self.current_module = k;
                proof {
                    assert forall|a: int, b: int| 0 <= a < b < self.modules@.len() implies
                        #[trigger] self.modules@[a].name@ != #[trigger] self.modules@[b].name@ by {
                        assert(ps.modules@[a].name@ != ps.modules@[b].name@);
                        assert(self.modules@[k as int].name@ == ps.modules@[k as int].name@);
                    }
                    assert forall|m: int| 0 <= m < self.modules@.len() implies #[trigger] self.modules@[m].defs_wf() by {
                        if m != k as int {
                            assert(ps.modules@[m].defs_wf());
                        }
                    }
                    assert forall|q: int| 0 <= q < ps.modules@.len() && ps.modules@[q].name@ != name@ implies
                        self.modules@.contains(#[trigger] ps.modules@[q]) by {
                        assert(self.modules@[q] == ps.modules@[q]);
                    }
                    assert forall|q: int| 0 <= q < self.modules@.len() && self.modules@[q].name@ != name@ implies
                        ps.modules@.contains(#[trigger] self.modules@[q]) by {
                        assert(self.modules@[q] == ps.modules@[q]);
                    }
                    ps.lemma_modules_change(&*self);
                }
            },
            None => {
                self.modules.push(fresh);
                self.current_module = self.modules.len() - 1;
                proof {
                    assert forall|a: int, b: int| 0 <= a < b < self.modules@.len() implies
                        #[trigger] self.modules@[a].name@ != #[trigger] self.modules@[b].name@ by {
                        if b < ps.modules@.len() {
                            assert(ps.modules@[a].name@ != ps.modules@[b].name@);
                        } else {
                            assert(ps.modules@[a].name@ != n@);
                        }
                    }
                    assert forall|m: int| 0 <= m < self.modules@.len() implies #[trigger] self.modules@[m].defs_wf() by {
                        if m < ps.modules@.len() {
                            assert(ps.modules@[m].defs_wf());
                        }
                    }
                    assert forall|q: int| 0 <= q < ps.modules@.len() && ps.modules@[q].name@ != name@ implies
                        self.modules@.contains(#[trigger] ps.modules@[q]) by {
                        assert(self.modules@[q] == ps.modules@[q]);
                    }
                    assert forall|q: int| 0 <= q < self.modules@.len() && self.modules@[q].name@ != name@ implies
                        ps.modules@.contains(#[trigger] self.modules@[q]) by {
                        assert(self.modules@[q] == ps.modules@[q]);
                    }
                    ps.lemma_modules_change(&*self);
                }
            },
        }
    }
}


impl Module {
    proof fn lemma_def_index(&self, k: int)
        requires
            self.defs_wf(),
            0 <= k < self.definitions@.len(),
        ensures
            self.def_index(self.definitions@[k].name@) == Some(k),
    {
        let c = choose|q: int| 0 <= q < self.definitions@.len() && #[trigger] self.definitions@[q].name@ == self.definitions@[k].name@;
        if c != k {
            if c < k {
                assert(self.definitions@[c].name@ != self.definitions@[k].name@);
            } else {
                assert(self.definitions@[k].name@ != self.definitions@[c].name@);
            }
        }
    }

    /// The position of the definition of `name`.
    fn def_position(&self, name: &String) -> (r: Option<usize>)
        requires
            self.defs_wf(),
        ensures
            r matches Some(k) ==> self.def_index(name@) == Some(k as int),
            r is None ==> self.def_index(name@) is None,
    {
        let mut k: usize = 0;
        while k < self.definitions.len()
            invariant
                self.defs_wf(),
                k <= self.definitions@.len(),
                forall|q: int| 0 <= q < k ==> #[trigger] self.definitions@[q].name@ != name@,
            decreases self.definitions@.len() - k,
        {
            if self.definitions[k].name == *name {
                proof {
                    self.lemma_def_index(k as int);
                }
                return Some(k);
            }
            k = k + 1;
        }
        None
    }

    /// `name` is visible from outside this module.
    fn exports_contains(&self, name: &String) -> (r: bool)
        ensures
            r == self.exports_name(name@),
    {
        match &self.exports {
            None => true,
            Some(v) => {
                let mut k: usize = 0;
                while k < v.len()
                    invariant
                        self.exports == Some(*v),
                        k <= v@.len(),
                        forall|q: int| 0 <= q < k ==> #[trigger] v@[q]@ != name@,
                    decreases v@.len() - k,
                {
                    if v[k] == *name {
                        assert(v@[k as int]@ == name@);
                        let ghost w = self.exports->0;
                        assert(w@[k as int]@ == name@);
                        assert(self.exports_name(name@));
                        return true;
                    }
                    k = k + 1;
                }
                false
            },
        }
    }
}

impl Memory {
    /// Takes the current module out of the module list, to change it.
    fn take_current(&mut self) -> (m: Module)
        requires
            old(self).wf(),
        ensures
            m == old(self).current(),
            final(self).modules@ == old(self).modules@.remove(old(self).current_module as int),
            final(self).current_module == old(self).current_module,
            old(self).same_heap(&*final(self)),
    {
        self.modules.remove(self.current_module)
    }

    /// Puts back the current module, changed into `m`, which keeps its name.
    fn put_current(&mut self, m: Module)
        requires
            old(self).current_module <= old(self).modules@.len(),
            m.defs_wf(),
        ensures
            final(self).modules@ == old(self).modules@.insert(old(self).current_module as int, m),
            final(self).current_module == old(self).current_module,
            old(self).same_heap(&*final(self)),
    {
        self.modules.insert(self.current_module, m);
    }

    proof fn lemma_replace_current(&self, mid: &Memory, new: &Memory, m: Module)
        requires
            self.wf(),
            mid.modules@ == self.modules@.remove(self.current_module as int),
            new.modules@ == mid.modules@.insert(self.current_module as int, m),
            new.current_module == self.current_module,
            self.same_heap(new),
            m.defs_wf(),
            m.name@ == self.current().name@,
        ensures
            new.wf(),
            new.modules@ == self.modules@.update(self.current_module as int, m),
    {
        assert(new.modules@ =~= self.modules@.update(self.current_module as int, m));
        assert forall|a: int, b: int| 0 <= a < b < new.modules@.len() implies
            #[trigger] new.modules@[a].name@ != #[trigger] new.modules@[b].name@ by {
            assert(self.modules@[a].name@ != self.modules@[b].name@);
        }
        assert forall|q: int| 0 <= q < new.modules@.len() implies #[trigger] new.modules@[q].defs_wf() by {
            if q != self.current_module as int {
                assert(self.modules@[q].defs_wf());
            }
        }
        self.lemma_modules_change(new);
    }

    /// Exports `name` from the current module.
    pub fn add_export(&mut self, name: &str)
        requires
            old(self).wf(),
        ensures
            final(self).wf(),
            old(self).same_heap(&*final(self)),
            final(self).current_module == old(self).current_module,
            final(self).modules@ == old(self).modules@.update(old(self).current_module as int, final(self).current()),
            final(self).current().name == old(self).current().name,
            final(self).current().definitions == old(self).current().definitions,
            final(self).current().exports_name(name@),
            final(self).current().exports is Some,
            forall|n: Seq<char>| n != name@ && old(self).current().exports is Some ==>
                (#[trigger] final(self).current().exports_name(n) <==> old(self).current().exports_name(n)),
    {
        let ghost s0 = *self;
        let n = String::from_str(name);
        proof { assert(s0.modules@[s0.current_module as int].defs_wf()); }
        let mut m = self.take_current();
        let ghost mid = *self;
        let already = m.exports_contains(&n);
        let exports = match m.exports {
            Some(mut v) => {
                if !already {
                    v.push(n);
                }
                Some(v)
            },
            None => {
                let mut v: Vec<String> = Vec::new();
                v.push(n);
                Some(v)
            },
        };
        let m2 = Module { name: m.name, definitions: m.definitions, exports };
        proof {
            let e = m2.exports->0;
            if s0.current().exports is Some {
                let old_e = s0.current().exports->0;
                if !already {
                    assert(e@[e@.len() - 1]@ == name@);
                    assert forall|x: Seq<char>| x != name@ implies
                        (#[trigger] m2.exports_name(x) <==> s0.current().exports_name(x)) by {
                        if s0.current().exports_name(x) {
                            let k = choose|k: int| 0 <= k < old_e@.len() && #[trigger] old_e@[k]@ == x;
                            assert(e@[k]@ == x);
                        }
                        if m2.exports_name(x) {
                            let k = choose|k: int| 0 <= k < e@.len() && #[trigger] e@[k]@ == x;
                            assert(k < old_e@.len());
                            assert(old_e@[k]@ == x);
                        }
                    }
                }
            } else {
                assert(e@[0]@ == name@);
            }
        }
        self.put_current(m2);
        proof {
            s0.lemma_replace_current(&mid, &*self, m2);
        }
    }

    /// The modules in which `name` is bound, in order.
    pub fn get_module_of_global(&self, name: &str) -> (r: Vec<String>)
        requires
            self.wf(),
        ensures
            texts(r@) == module_names(self.modules@.filter(|m: Module| m.lookup(name@) is Some)),
    {
        let n = String::from_str(name);
        let mut r: Vec<String> = Vec::new();
        let mut k: usize = 0;
        let ghost pred = |m: Module| m.lookup(name@) is Some;
        while k < self.modules.len()
            invariant
                self.wf(),
                n@ == name@,
                k <= self.modules@.len(),
                pred == (|m: Module| m.lookup(name@) is Some),
                texts(r@) == module_names(self.modules@.take(k as int).filter(pred)),
            decreases self.modules@.len() - k,
        {
            proof {
                reveal_with_fuel(Seq::<_>::filter, 1);
                assert(self.modules@.take(k + 1).drop_last() =~= self.modules@.take(k as int));
                assert(self.modules@.take(k + 1).last() == self.modules@[k as int]);
                assert(self.modules@[k as int].defs_wf());
            }
            let found = self.modules[k].def_position(&n).is_some();
            let ghost r_old = r@;
            if found {
                let nm = self.modules[k].name.clone();
                r.push(nm);
                assert(r@ == r_old.push(nm));
                assert(texts(r@) =~= texts(r_old).push(self.modules@[k as int].name@));
            }
            proof {
                let prev = self.modules@.take(k as int).filter(pred);
                if found {
                    assert(self.modules@.take(k + 1).filter(pred) == prev.push(self.modules@[k as int]));
                    assert(module_names(prev.push(self.modules@[k as int])) =~= module_names(prev).push(self.modules@[k as int].name@));
                } else {
                    assert(self.modules@.take(k + 1).filter(pred) == prev);
                    assert(texts(r@) =~= module_names(prev));
                }
            }
            k = k + 1;
        }
        assert(self.modules@.take(k as int) =~= self.modules@);
        r
    }

    /// Binds `name` to `value` in the current module, replacing an earlier binding.
    pub fn define_global(&mut self, name: &str, value: GcRef)
        requires
            old(self).wf(),
        ensures
            final(self).wf(),
            old(self).same_heap(&*final(self)),
            final(self).current_module == old(self).current_module,
            final(self).modules@ == old(self).modules@.update(old(self).current_module as int, final(self).current()),
            final(self).current().name == old(self).current().name,
            final(self).current().exports == old(self).current().exports,
            final(self).current().lookup(name@) == Some(value.ptr()),
            forall|n: Seq<char>| n != name@ ==> #[trigger] final(self).current().lookup(n) == old(self).current().lookup(n),
    {
        let ghost s0 = *self;
        let n = String::from_str(name);
        proof { assert(s0.modules@[s0.current_module as int].defs_wf()); }
        let mut m = self.take_current();
        let ghost mid = *self;
        let ghost old_defs = m.definitions@;
        let pos = m.def_position(&n);
        match pos {
            Some(k) => {
                let _old = m.definitions.remove(k);
                m.definitions.insert(k, Definition { name: n, value });
                proof {
                    assert(m.definitions@ =~= old_defs.update(k as int, m.definitions@[k as int]));
                }
            },
            None => {
                m.definitions.push(Definition { name: n, value });
            },
        }
        proof {
            let d = m.definitions@;
            assert forall|a: int, b: int| 0 <= a < b < d.len() implies
                #[trigger] d[a].name@ != #[trigger] d[b].name@ by {
                if pos is Some {
                    let k = pos->0 as int;
                    if a != k && b != k {
                        assert(d[a] == old_defs[a] && d[b] == old_defs[b]);
                    } else if a == k {
                        assert(old_defs[k].name@ == name@);
                        assert(old_defs[k].name@ != old_defs[b].name@);
                    } else {
                        assert(old_defs[k].name@ == name@);
                        assert(old_defs[a].name@ != old_defs[k].name@);
                    }
                } else {
                    if b == d.len() - 1 {
                        assert(old_defs[a].name@ != name@);
                    } else {
                        assert(d[a] == old_defs[a] && d[b] == old_defs[b]);
                    }
                }
            }
            assert(m.defs_wf());
            let k = if pos is Some { pos->0 as int } else { d.len() - 1 };
            assert(d[k].name@ == name@);
            m.lemma_def_index(k);
            assert forall|x: Seq<char>| x != name@ implies #[trigger] m.lookup(x) == s0.current().lookup(x) by {
                let om = s0.current();
                if om.def_index(x) is Some {
                    let j = om.def_index(x)->0;
                    assert(d[j] == old_defs[j]);
                    m.lemma_def_index(j);
                } else {
                    if m.def_index(x) is Some {
                        let j = m.def_index(x)->0;
                        assert(j != k);
                        assert(d[j] == old_defs[j]);
                    }
                }
            }
        }
        self.put_current(m);
        proof {
            s0.lemma_replace_current(&mid, &*self, m);
        }
    }

    /// Removes the binding of `name` from the current module, if there is one.
    pub fn undefine_global(&mut self, name: &str)
        requires
            old(self).wf(),
        ensures
            final(self).wf(),
            old(self).same_heap(&*final(self)),
            final(self).current_module == old(self).current_module,
            final(self).modules@ == old(self).modules@.update(old(self).current_module as int, final(self).current()),
            final(self).current().name == old(self).current().name,
            final(self).current().exports == old(self).current().exports,
            final(self).current().lookup(name@) is None,
            forall|n: Seq<char>| n != name@ ==> #[trigger] final(self).current().lookup(n) == old(self).current().lookup(n),
    {
        let ghost s0 = *self;
        let n = String::from_str(name);
        proof { assert(s0.modules@[s0.current_module as int].defs_wf()); }
        let mut m = self.take_current();
        let ghost mid = *self;
        let ghost old_defs = m.definitions@;
        let pos = m.def_position(&n);
        match pos {
            Some(k) => {
                let _old = m.definitions.remove(k);
            },
            None => {},
        }
        proof {
            let d = m.definitions@;
            if pos is Some {
                let k = pos->0 as int;
                assert(d =~= old_defs.remove(k));
                assert forall|a: int, b: int| 0 <= a < b < d.len() implies
                    #[trigger] d[a].name@ != #[trigger] d[b].name@ by {
                    let oa = if a < k { a } else { a + 1 };
                    let ob = if b < k { b } else { b + 1 };
                    assert(d[a] == old_defs[oa] && d[b] == old_defs[ob]);
                    assert(old_defs[oa].name@ != old_defs[ob].name@);
                }
                assert(old_defs[k].name@ == name@);
                if m.def_index(name@) is Some {
                    let j = m.def_index(name@)->0;
                    let oj = if j < k { j } else { j + 1 };
                    assert(d[j] == old_defs[oj]);
                    if oj < k {
                        assert(old_defs[oj].name@ != old_defs[k].name@);
                    } else {
                        assert(old_defs[k].name@ != old_defs[oj].name@);
                    }
                }
                assert forall|x: Seq<char>| x != name@ implies #[trigger] m.lookup(x) == s0.current().lookup(x) by {
                    let om = s0.current();
                    if om.def_index(x) is Some {
                        let j = om.def_index(x)->0;
                        assert(j != k);
                        let nj = if j < k { j } else { j - 1 };
                        assert(d[nj] == old_defs[j]);
                        m.lemma_def_index(nj);
                    } else {
                        if m.def_index(x) is Some {
                            let j = m.def_index(x)->0;
                            let oj = if j < k { j } else { j + 1 };
                            assert(d[j] == old_defs[oj]);
                        }
                    }
                }
            }
        }
        self.put_current(m);
        proof {
            s0.lemma_replace_current(&mid, &*self, m);
        }
    }

    /// `name` is bound in the current module.
    pub fn is_global_defined(&self, name: &str) -> (r: bool)
        requires
            self.wf(),
        ensures
            r == self.current().lookup(name@) is Some,
    {
        let n = String::from_str(name);
        proof { assert(self.modules@[self.current_module as int].defs_wf()); }
        self.modules[self.current_module].def_position(&n).is_some()
    }

    /// `name` is exported from the current module (everything is, without an export list).
    pub fn is_global_exported(&self, name: &str) -> (r: bool)
        requires
            self.wf(),
        ensures
            r == self.current().exports_name(name@),
    {
        let n = String::from_str(name);
        self.modules[self.current_module].exports_contains(&n)
    }

    /// The value of `name` as seen from the module `module_name`: it must be bound and visible
    /// in exactly one module.
    pub fn get_global(&self, name: &str, module_name: &str) -> (r: Result<GcRef, ModulError>)
        requires
            self.wf(),
        ensures
            ({
                let vis = visible_modules(self.modules@, name@, module_name@);
                match r {
                    Ok(v) => vis.len() == 1 && Some(v.ptr()) == vis[0].lookup(name@),
                    Err(ModulError::AmbiguousName(names)) => vis.len() > 1 && texts(names@) == module_names(vis),
                    Err(ModulError::GlobalNonExistentOrPrivate) => vis.len() == 0,
                    Err(_) => false,
                }
            }),
    {
        let n = String::from_str(name);
        let from = String::from_str(module_name);
        let mut names: Vec<String> = Vec::new();
        let mut result = GcRef::nil();
        let ghost pred = |m: Module| m.visible(name@, module_name@);
        let mut k: usize = 0;
        while k < self.modules.len()
            invariant
                self.wf(),
                n@ == name@,
                from@ == module_name@,
                k <= self.modules@.len(),
                pred == (|m: Module| m.visible(name@, module_name@)),
                texts(names@) == module_names(self.modules@.take(k as int).filter(pred)),
                names@.len() > 0 ==> Some(result.ptr()) == self.modules@.take(k as int).filter(pred).last().lookup(name@),
            decreases self.modules@.len() - k,
        {
            proof {
                reveal_with_fuel(Seq::<_>::filter, 1);
                assert(self.modules@.take(k + 1).drop_last() =~= self.modules@.take(k as int));
                assert(self.modules@.take(k + 1).last() == self.modules@[k as int]);
                assert(self.modules@[k as int].defs_wf());
            }
            let m = &self.modules[k];
            let pos = m.def_position(&n);
            let visible = match pos {
                Some(p) => m.exports_contains(&n) || m.name == from,
                None => false,
            };
            let ghost r_old = names@;
            if visible {
                let p = pos.unwrap();
                let nm = m.name.clone();
                names.push(nm);
                assert(names@ == r_old.push(nm));
                assert(texts(names@) =~= texts(r_old).push(self.modules@[k as int].name@));
                result = m.definitions[p].value.clone();
            }
            proof {
                let prev = self.modules@.take(k as int).filter(pred);
                if visible {
                    assert(self.modules@.take(k + 1).filter(pred) == prev.push(self.modules@[k as int]));
                    assert(module_names(prev.push(self.modules@[k as int])) =~= module_names(prev).push(self.modules@[k as int].name@));
                    assert(texts(names@) =~= module_names(prev.push(self.modules@[k as int])));
                } else {
                    assert(self.modules@.take(k + 1).filter(pred) == prev);
                    assert(texts(names@) =~= module_names(prev));
                }
            }
            k = k + 1;
        }
        assert(self.modules@.take(k as int) =~= self.modules@);
        if names.len() == 0 {
            Err(ModulError::GlobalNonExistentOrPrivate)
        } else if names.len() == 1 {
            Ok(result)
        } else {
            Err(ModulError::AmbiguousName(names))
        }
    }

    /// The value of `name` in the module `module_name`, if it is bound there and exported.
    pub fn get_global_from_module(&self, name: &str, module_name: &str) -> (r: Result<GcRef, ModulError>)
        requires
            self.wf(),
        ensures
            match self.module_index(module_name@) {
                None => r == Err::<GcRef, ModulError>(ModulError::ModuleNonExistent),
                Some(k) => {
                    let m = self.modules@[k];
                    if m.exports_name(name@) && m.lookup(name@) is Some {
                        r matches Ok(v) && Some(v.ptr()) == m.lookup(name@)
                    } else {
                        r == Err::<GcRef, ModulError>(ModulError::GlobalNonExistentOrPrivate)
                    }
                },
            },
    {
        let n = String::from_str(name);
        let mn = String::from_str(module_name);
        match self.find_module(&mn) {
            None => Err(ModulError::ModuleNonExistent),
            Some(k) => {
                proof { assert(self.modules@[k as int].defs_wf()); }
                let m = &self.modules[k];
                if m.exports_contains(&n) {
                    match m.def_position(&n) {
                        Some(p) => Ok(m.definitions[p].value.clone()),
                        None => Err(ModulError::GlobalNonExistentOrPrivate),
                    }
                } else {
                    Err(ModulError::GlobalNonExistentOrPrivate)
                }
            },
        }
    }
}

} // verus!

