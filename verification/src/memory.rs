//! The garbage-collected heap of Lisp values.
//!
//! Cells live in a vector and are addressed by their index. A `GcRef` is an external handle to
//! a cell: while a handle exists, its cell is a root of the garbage collector. Values inside the
//! heap point to each other by index only; those pointers do not keep a cell alive by
//! themselves, only through reachability from a root.

use vstd::prelude::*;
use std::rc::Rc;
use crate::metadata::Metadata;
use crate::config;

verus! {

/// The two components of a cons cell.
pub struct ConsCell {
    pub car: Option<usize>,
    pub cdr: Option<usize>,
}

/// A symbol. Symbols are compared by the cell they live in.
pub struct Symbol {
    pub name: Option<String>,
    pub own_address: usize,
}

#[derive(Debug, PartialEq, Eq, Clone, Copy, Structural)]
pub enum FunctionKind {
    Macro,
    Lambda,
}

/// The native functions that the interpreter provides.
#[derive(Debug, PartialEq, Eq, Clone, Copy, Structural)]
pub enum NativeId {
    Cons,
    Car,
    Cdr,
    List,
    GetProperty,
    Signal,
    Read,
    MakeTrap,
    MakeFunction,
    CallNativeFunction,
    Macroexpand,
    Eval,
    LoadAll,
    Print,
    Add,
    Substract,
    Multiply,
    Divide,
    Less,
    Greater,
    Define,
    Undefine,
    Whereis,
    Export,
    GetCurrentModule,
    FromModule,
    WithCurrentModule,
    TypeOf,
    GetBody,
    GetMetadata,
    Gensym,
    Equal,
    Trap,
    Macro,
    Unrest,
}

/// A function defined in Lisp.
pub struct NormalFunction {
    pub kind: FunctionKind,
    pub has_rest_params: bool,
    pub parameters: Vec<Option<usize>>,
    pub body: Option<usize>,
    pub environment: Option<usize>,
    pub environment_module: String,
}

/// A function implemented by the interpreter.
pub struct NativeFunction {
    pub kind: FunctionKind,
    pub function: NativeId,
    pub parameters: Vec<String>,
}

pub enum Function {
    NormalFunction(NormalFunction),
    NativeFunction(NativeFunction),
}

/// A trap: a normal body, and a body that runs when the normal body emits a signal.
pub struct Trap {
    pub normal_body: Option<usize>,
    pub trap_body: Option<usize>,
}

#[derive(Debug, PartialEq, Eq, Clone, Copy, Structural)]
pub enum TypeLabel {
    Any,
    Nil,
    Number,
    Character,
    Cons,
    List,
    String,
    Symbol,
    Function,
    Trap,
}

pub enum PrimitiveValue {
    Number(i64),
    Character(char),
    Cons(ConsCell),
    Symbol(Symbol),
    Function(Function),
    Trap(Trap),
}

/// The content of a cell: either a value, or metadata about the value in another cell.
pub enum MetaValue {
    Value(PrimitiveValue),
    Meta { value: Option<usize>, meta: Metadata },
}

/// A used cell: its content, the token that external handles share, and its age.
pub struct CellContent {
    pub metavalue: MetaValue,
    pub token: Rc<()>,
    pub rank: Ghost<nat>,
}

/// A slot of the heap: used (`Some`) or free (`None`).
pub struct Cell {
    pub content: Option<CellContent>,
}

/// An external handle to a cell, or `nil`.
pub struct GcRef {
    pub pointer: Option<usize>,
    pub token: Option<Rc<()>>,
}

/// One name of a module and the value bound to it.
pub struct Definition {
    pub name: String,
    pub value: GcRef,
}

/// A module: its definitions, and the names it exports (`None`: all of them).
pub struct Module {
    pub name: String,
    pub definitions: Vec<Definition>,
    pub exports: Option<Vec<String>>,
}

/// A named symbol and the cell it lives in.
pub struct SymbolEntry {
    pub name: String,
    pub cell: usize,
}

#[derive(Debug, PartialEq, Eq)]
pub enum ModulError {
    AmbiguousName(Vec<String>),
    GlobalNonExistentOrPrivate,
    ModuleNonExistent,
    NoSuchModule,
}

/// The heap, the symbol table and the modules.
pub struct Memory {
    pub modules: Vec<Module>,
    pub current_module: usize,
    pub symbols: Vec<SymbolEntry>,
    pub cells: Vec<Cell>,
    pub free: Vec<usize>,
    pub retired: Vec<usize>,
    pub next_rank: Ghost<nat>,
}

// ---------------------------------------------------------------------------------------------
// The model
// ---------------------------------------------------------------------------------------------

/// The pointers stored in a cell's content.
pub open spec fn children(mv: MetaValue) -> Seq<Option<usize>> {
    match mv {
        MetaValue::Meta { value, .. } => seq![value],
        MetaValue::Value(PrimitiveValue::Cons(c)) => seq![c.car, c.cdr],
        MetaValue::Value(PrimitiveValue::Trap(t)) => seq![t.normal_body, t.trap_body],
        MetaValue::Value(PrimitiveValue::Function(Function::NormalFunction(f))) =>
            seq![f.body, f.environment] + f.parameters@,
        _ => Seq::empty(),
    }
}

/// The name of a named symbol value.
pub open spec fn symbol_name_of(v: PrimitiveValue) -> Option<Seq<char>> {
    match v {
        PrimitiveValue::Symbol(s) => match s.name {
            Some(n) => Some(n@),
            None => None,
        },
        _ => None,
    }
}

impl GcRef {
    /// The cell this handle points to (`None`: nil).
    pub open spec fn ptr(&self) -> Option<usize> {
        self.pointer
    }
}

impl Memory {
    pub open spec fn used(&self, i: int) -> bool {
        0 <= i < self.cells@.len() && self.cells@[i].content is Some
    }

    pub open spec fn content(&self, i: int) -> CellContent {
        self.cells@[i].content->0
    }

    pub open spec fn mv(&self, i: int) -> MetaValue {
        self.content(i).metavalue
    }

    pub open spec fn rank(&self, i: int) -> nat {
        self.content(i).rank@
    }

    /// A pointer is live if it is nil or points to a used cell.
    pub open spec fn live(&self, p: Option<usize>) -> bool {
        match p {
            None => true,
            Some(i) => self.used(i as int),
        }
    }

    /// One more than the age of the cell a pointer refers to (0 for nil and for free cells).
    pub open spec fn prank(&self, p: Option<usize>) -> nat {
        match p {
            Some(i) => if self.used(i as int) { self.rank(i as int) + 1 } else { 0 },
            None => 0,
        }
    }

    /// `p` points to a used cell that is younger than cell `i`.
    pub open spec fn older_than(&self, p: Option<usize>, i: int) -> bool {
        match p {
            None => true,
            Some(j) => self.used(j as int) && self.rank(j as int) < self.rank(i),
        }
    }

    /// The cell whose value `p` denotes: metadata cells are looked through.
    pub open spec fn value_cell(&self, p: Option<usize>) -> Option<int> {
        match p {
            None => None,
            Some(i) => if !self.used(i as int) {
                None
            } else {
                match self.mv(i as int) {
                    MetaValue::Value(_) => Some(i as int),
                    MetaValue::Meta { value, .. } => match value {
                        None => None,
                        Some(j) => if self.used(j as int) && self.mv(j as int) is Value {
                            Some(j as int)
                        } else {
                            None
                        },
                    },
                }
            },
        }
    }

    /// The value that `p` denotes (`None`: nil).
    pub open spec fn value_of(&self, p: Option<usize>) -> Option<PrimitiveValue> {
        match self.value_cell(p) {
            Some(c) => Some(self.mv(c)->Value_0),
            None => None,
        }
    }

    pub open spec fn is_nil_ptr(&self, p: Option<usize>) -> bool {
        self.value_of(p) is None
    }

    /// The metadata attached to `p`, if it points to a metadata cell.
    pub open spec fn meta_of(&self, p: Option<usize>) -> Option<Metadata> {
        match p {
            Some(i) => if self.used(i as int) {
                match self.mv(i as int) {
                    MetaValue::Meta { meta, .. } => Some(meta),
                    _ => None,
                }
            } else {
                None
            },
            None => None,
        }
    }

    /// The number of cells that hold a value.
    pub open spec fn used_spec(&self) -> int {
        self.cells@.len() - self.free@.len() - self.retired@.len()
    }

    pub open spec fn cell_wf(&self, i: int) -> bool {
        &&& forall|k: int| 0 <= k < children(self.mv(i)).len() ==> #[trigger] self.older_than(children(self.mv(i))[k], i)
        &&& self.rank(i) < self.next_rank@
        &&& (self.mv(i) matches MetaValue::Meta { value: Some(j), .. } ==> self.mv(j as int) is Value)
        &&& (self.mv(i) matches MetaValue::Value(PrimitiveValue::Symbol(s)) ==> s.own_address == i)
        &&& (self.mv(i) matches MetaValue::Value(PrimitiveValue::Symbol(s)) && s.name is Some ==>
                exists|k: int| 0 <= k < self.symbols@.len() && #[trigger] self.symbols@[k].cell == i)
    }

    pub open spec fn symbols_wf(&self) -> bool {
        &&& forall|k: int| 0 <= k < self.symbols@.len() ==> {
            let e = #[trigger] self.symbols@[k];
            &&& self.used(e.cell as int)
            &&& self.mv(e.cell as int) is Value
            &&& symbol_name_of(self.mv(e.cell as int)->Value_0) == Some(e.name@)
        }
        &&& forall|k: int, l: int| 0 <= k < l < self.symbols@.len() ==>
                #[trigger] self.symbols@[k].name@ != #[trigger] self.symbols@[l].name@
    }

    pub open spec fn free_wf(&self) -> bool {
        &&& forall|k: int| 0 <= k < self.free@.len() ==>
                #[trigger] self.free@[k] < self.cells@.len() && !self.used(self.free@[k] as int)
        &&& forall|k: int| 0 <= k < self.retired@.len() ==>
                #[trigger] self.retired@[k] < self.cells@.len() && !self.used(self.retired@[k] as int)
        &&& forall|k: int, l: int| 0 <= k < l < self.free@.len() ==> #[trigger] self.free@[k] != #[trigger] self.free@[l]
        &&& forall|k: int, l: int| 0 <= k < l < self.retired@.len() ==> #[trigger] self.retired@[k] != #[trigger] self.retired@[l]
        &&& forall|k: int, l: int| 0 <= k < self.free@.len() && 0 <= l < self.retired@.len() ==>
                #[trigger] self.free@[k] != #[trigger] self.retired@[l]
        &&& forall|i: int| 0 <= i < self.cells@.len() && !self.used(i) ==>
                #[trigger] self.free@.contains(i as usize) || self.retired@.contains(i as usize)
    }

    pub open spec fn modules_wf(&self) -> bool {
        &&& self.current_module < self.modules@.len()
        &&& forall|k: int, l: int| 0 <= k < l < self.modules@.len() ==>
                #[trigger] self.modules@[k].name@ != #[trigger] self.modules@[l].name@
        &&& forall|m: int| 0 <= m < self.modules@.len() ==> #[trigger] self.modules@[m].defs_wf()
    }

    /// The invariant of the heap.
    pub open spec fn wf(&self) -> bool {
        &&& self.cells@.len() <= usize::MAX / 8
        &&& forall|i: int| #[trigger] self.used(i) ==> self.cell_wf(i)
        &&& self.symbols_wf()
        &&& self.free_wf()
        &&& self.modules_wf()
    }
}

impl Module {
    /// The names of the definitions are distinct.
    pub open spec fn defs_wf(&self) -> bool {
        forall|k: int, l: int| 0 <= k < l < self.definitions@.len() ==>
            #[trigger] self.definitions@[k].name@ != #[trigger] self.definitions@[l].name@
    }

    /// The position of the definition of `name`, if any.
    pub open spec fn def_index(&self, name: Seq<char>) -> Option<int> {
        if exists|k: int| 0 <= k < self.definitions@.len() && #[trigger] self.definitions@[k].name@ == name {
            Some(choose|k: int| 0 <= k < self.definitions@.len() && #[trigger] self.definitions@[k].name@ == name)
        } else {
            None
        }
    }

    /// The value bound to `name`, if any.
    pub open spec fn lookup(&self, name: Seq<char>) -> Option<Option<usize>> {
        match self.def_index(name) {
            Some(k) => Some(self.definitions@[k].value.ptr()),
            None => None,
        }
    }

    /// `name` is visible from outside the module.
    pub open spec fn exports_name(&self, name: Seq<char>) -> bool {
        match self.exports {
            None => true,
            Some(v) => exists|k: int| 0 <= k < v@.len() && #[trigger] v@[k]@ == name,
        }
    }
}


// ---------------------------------------------------------------------------------------------
// Handles
// ---------------------------------------------------------------------------------------------

/// Another handle on the same token (std's `Rc::clone`); the token carries no data.
#[verifier::external_body]
fn share_token(token: &Rc<()>) -> (r: Rc<()>)
    ensures
        r == *token,
{
    Rc::clone(token)
}

/// The number of handles on `token` (std's `Rc::strong_count`). It depends on how many handles
/// exist at the moment of the call, so nothing is stated about it but that `token` is one.
#[verifier::external_body]
fn handle_count(token: &Rc<()>) -> (n: usize)
    ensures
        n >= 1,
{
    Rc::strong_count(token)
}

impl Clone for GcRef {
    fn clone(&self) -> (r: Self)
        ensures
            r.ptr() == self.ptr(),
    {
        let token = match &self.token {
            Some(t) => Some(share_token(t)),
            None => None,
        };
        GcRef { pointer: self.pointer, token }
    }
}

impl GcRef {
    /// The nil handle.
    pub fn nil() -> (r: Self)
        ensures
            r.ptr() is None,
    {
        GcRef { pointer: None, token: None }
    }

    /// The value this handle denotes, looking through metadata (`None`: nil).
    pub fn get<'a>(&self, mem: &'a Memory) -> (r: Option<&'a PrimitiveValue>)
        ensures
            r is Some <==> mem.value_of(self.ptr()) is Some,
            r matches Some(v) ==> mem.value_of(self.ptr()) == Some(*v),
    {
        match self.pointer {
            None => None,
            Some(i) => mem.value_at(i),
        }
    }

    /// The handle denotes nil.
    pub fn is_nil(&self, mem: &Memory) -> (r: bool)
        ensures
            r == mem.is_nil_ptr(self.ptr()),
    {
        self.get(mem).is_none()
    }

    /// The metadata attached to the cell, if it is a metadata cell.
    pub fn get_meta<'a>(&self, mem: &'a Memory) -> (r: Option<&'a Metadata>)
        ensures
            r is Some <==> mem.meta_of(self.ptr()) is Some,
            r matches Some(m) ==> mem.meta_of(self.ptr()) == Some(*m),
    {
        match self.pointer {
            None => None,
            Some(i) => {
                if i < mem.cells.len() {
                    match &mem.cells[i].content {
                        Some(c) => match &c.metavalue {
                            MetaValue::Meta { meta, .. } => Some(meta),
                            _ => None,
                        },
                        None => None,
                    }
                } else {
                    None
                }
            },
        }
    }

    /// The type of the value this handle denotes.
    pub fn get_type(&self, mem: &Memory) -> (t: TypeLabel)
        ensures
            t == type_label_of(mem.value_of(self.ptr())),
    {
        match self.get(mem) {
            None => TypeLabel::Nil,
            Some(PrimitiveValue::Number(_)) => TypeLabel::Number,
            Some(PrimitiveValue::Character(_)) => TypeLabel::Character,
            Some(PrimitiveValue::Cons(_)) => TypeLabel::Cons,
            Some(PrimitiveValue::Symbol(_)) => TypeLabel::Symbol,
            Some(PrimitiveValue::Function(_)) => TypeLabel::Function,
            Some(PrimitiveValue::Trap(_)) => TypeLabel::Trap,
        }
    }

    /// A handle on the value itself, without the metadata cell in front of it.
    pub fn clone_without_meta(&self, mem: &Memory) -> (r: GcRef)
        ensures
            r.ptr() == match self.ptr() {
                Some(i) => if mem.used(i as int) {
                    match mem.mv(i as int) {
                        MetaValue::Meta { value, .. } => value,
                        _ => self.ptr(),
                    }
                } else {
                    self.ptr()
                },
                None => None,
            },
    {
        match self.pointer {
            None => self.clone(),
            Some(i) => {
                if i < mem.cells.len() {
                    match &mem.cells[i].content {
                        Some(c) => match &c.metavalue {
                            MetaValue::Meta { value, .. } => mem.make_ref(*value),
                            _ => self.clone(),
                        },
                        None => self.clone(),
                    }
                } else {
                    self.clone()
                }
            },
        }
    }
}

/// The type of a value (`Nil` for nil).
pub open spec fn type_label_of(v: Option<PrimitiveValue>) -> TypeLabel {
    match v {
        None => TypeLabel::Nil,
        Some(PrimitiveValue::Number(_)) => TypeLabel::Number,
        Some(PrimitiveValue::Character(_)) => TypeLabel::Character,
        Some(PrimitiveValue::Cons(_)) => TypeLabel::Cons,
        Some(PrimitiveValue::Symbol(_)) => TypeLabel::Symbol,
        Some(PrimitiveValue::Function(_)) => TypeLabel::Function,
        Some(PrimitiveValue::Trap(_)) => TypeLabel::Trap,
    }
}

impl Memory {
    /// A new handle on the cell `p` points to.
    pub fn make_ref(&self, p: Option<usize>) -> (r: GcRef)
        ensures
            r.ptr() == p,
    {
        let token = match p {
            None => None,
            Some(i) => {
                if i < self.cells.len() {
                    match &self.cells[i].content {
                        Some(c) => Some(share_token(&c.token)),
                        None => None,
                    }
                } else {
                    None
                }
            },
        };
        GcRef { pointer: p, token }
    }

    /// The value that cell `i` denotes, looking through metadata.
    pub fn value_at(&self, i: usize) -> (r: Option<&PrimitiveValue>)
        ensures
            r is Some <==> self.value_of(Some(i)) is Some,
            r matches Some(v) ==> self.value_of(Some(i)) == Some(*v),
    {
        if i >= self.cells.len() {
            return None;
        }
        match &self.cells[i].content {
            None => None,
            Some(c) => match &c.metavalue {
                MetaValue::Value(v) => Some(v),
                MetaValue::Meta { value, .. } => match value {
                    None => None,
                    Some(j) => {
                        let j = *j;
                        if j < self.cells.len() {
                            match &self.cells[j].content {
                                Some(d) => match &d.metavalue {
                                    MetaValue::Value(v) => Some(v),
                                    _ => None,
                                },
                                None => None,
                            }
                        } else {
                            None
                        }
                    },
                },
            },
        }
    }
}


// ---------------------------------------------------------------------------------------------
// Reachability and garbage collection
// ---------------------------------------------------------------------------------------------

/// `three_quarters(n) == floor(3n/4)`, computed without overflow.
pub open spec fn three_quarters(n: int) -> int {
    3 * (n / 4) + (3 * (n % 4)) / 4
}

impl Memory {
    /// Cell `j` is pointed to by used cell `i`.
    pub open spec fn is_child(&self, i: int, j: int) -> bool {
        self.used(i) && 0 <= j < self.cells@.len() && children(self.mv(i)).contains(Some(j as usize))
    }

    /// Each cell of `path` points to the next one.
    pub open spec fn is_path(&self, path: Seq<usize>) -> bool {
        &&& path.len() > 0
        &&& forall|k: int| 0 <= k < path.len() - 1 ==> #[trigger] self.is_child(path[k] as int, path[k + 1] as int)
    }

    /// Cell `j` can be reached from one of the `roots` by following pointers.
    pub open spec fn reachable(&self, roots: Seq<usize>, j: int) -> bool {
        exists|path: Seq<usize>| #[trigger] self.is_path(path) && roots.contains(path[0]) && path.last() == j
    }

    /// `new` uses exactly the cells of `self` that can be reached from `roots`.
    pub open spec fn collected(&self, new: &Memory, roots: Seq<usize>) -> bool {
        forall|i: int| 0 <= i < self.cells@.len() ==>
            (#[trigger] new.used(i) <==> self.used(i) && self.reachable(roots, i))
    }

    /// `new` keeps every used cell of `self` that it still uses unchanged, and adds none.
    pub open spec fn frame(&self, new: &Memory) -> bool {
        &&& new.cells@.len() >= self.cells@.len()
        &&& forall|i: int| #[trigger] new.used(i) ==> self.used(i) && new.content(i) == self.content(i)
        &&& new.next_rank@ == self.next_rank@
        &&& new.modules == self.modules
        &&& new.current_module == self.current_module
    }

    /// The pointers stored in cell `i`.
    fn children_of(&self, i: usize) -> (v: Vec<Option<usize>>)
        requires
            self.used(i as int),
        ensures
            v@ == children(self.mv(i as int)),
    {
        let mut v: Vec<Option<usize>> = Vec::new();
        match &self.cells[i].content {
            Some(c) => match &c.metavalue {
                MetaValue::Meta { value, .. } => {
                    v.push(*value);
                },
                MetaValue::Value(PrimitiveValue::Cons(cons)) => {
                    v.push(cons.car);
                    v.push(cons.cdr);
                },
                MetaValue::Value(PrimitiveValue::Trap(t)) => {
                    v.push(t.normal_body);
                    v.push(t.trap_body);
                },
                MetaValue::Value(PrimitiveValue::Function(Function::NormalFunction(f))) => {
                    v.push(f.body);
                    v.push(f.environment);
                    let mut k: usize = 0;
                    while k < f.parameters.len()
                        invariant
                            k <= f.parameters@.len(),
                            v@ == seq![f.body, f.environment] + f.parameters@.subrange(0, k as int),
                        decreases f.parameters@.len() - k,
                    {
                        v.push(f.parameters[k]);
                        k = k + 1;
                        assert(v@ =~= seq![f.body, f.environment] + f.parameters@.subrange(0, k as int));
                    }
                    assert(f.parameters@.subrange(0, k as int) =~= f.parameters@);
                },
                _ => {},
            },
            None => {},
        }
        assert(v@ =~= children(self.mv(i as int)));
        v
    }

    proof fn lemma_closed_contains_reachable(&self, roots: Seq<usize>, marked: Seq<bool>, path: Seq<usize>)
        requires
            marked.len() == self.cells@.len(),
            self.is_path(path),
            roots.contains(path[0]),
            forall|k: int| 0 <= k < roots.len() && self.used(roots[k] as int) ==> #[trigger] marked[roots[k] as int],
            forall|i: int, j: int| 0 <= i < marked.len() && #[trigger] marked[i] && #[trigger] self.is_child(i, j) ==>
                0 <= j < marked.len() && marked[j],
            self.used(path.last() as int),
        ensures
            marked[path.last() as int],
        decreases path.len(),
    {
        if path.len() == 1 {
            let k = choose|k: int| 0 <= k < roots.len() && roots[k] == path[0];
            assert(marked[roots[k] as int]);
        } else {
            let prefix = path.drop_last();
            let k = path.len() - 2;
            assert(self.is_child(path[k] as int, path[k + 1] as int));
            assert forall|q: int| 0 <= q < prefix.len() - 1 implies #[trigger] self.is_child(prefix[q] as int, prefix[q + 1] as int) by {
                assert(self.is_child(path[q] as int, path[q + 1] as int));
            }
            assert(prefix.last() == path[k]);
            self.lemma_closed_contains_reachable(roots, marked, prefix);
        }
    }

    proof fn lemma_extend_path(&self, roots: Seq<usize>, c: usize, j: usize)
        requires
            self.reachable(roots, c as int),
            self.is_child(c as int, j as int),
        ensures
            self.reachable(roots, j as int),
    {
        let path_c = choose|path: Seq<usize>| #[trigger] self.is_path(path) && roots.contains(path[0]) && path.last() == c as int;
        let path_j = path_c.push(j);
        assert forall|q: int| 0 <= q < path_j.len() - 1 implies #[trigger] self.is_child(path_j[q] as int, path_j[q + 1] as int) by {
            if q < path_c.len() - 1 {
                assert(self.is_child(path_c[q] as int, path_c[q + 1] as int));
            }
        }
        assert(self.is_path(path_j));
        assert(path_j[0] == path_c[0]);
    }

    /// Marks every used cell reachable from `roots`.
    fn mark(&self, roots: &Vec<usize>) -> (marked: Vec<bool>)
        requires
            self.wf(),
        ensures
            marked@.len() == self.cells@.len(),
            forall|i: int| 0 <= i < marked@.len() ==>
                (#[trigger] marked@[i] <==> self.used(i) && self.reachable(roots@, i)),
    {
        let n = self.cells.len();
        let mut marked: Vec<bool> = Vec::new();
        let mut z: usize = 0;
        while z < n
            invariant
                n == self.cells@.len(),
                z <= n,
                marked@.len() == z,
                forall|i: int| 0 <= i < z ==> !#[trigger] marked@[i],
            decreases n - z,
        {
            marked.push(false);
            z = z + 1;
        }
        let mut stack: Vec<usize> = Vec::new();
        let mut r: usize = 0;
        while r < roots.len()
            invariant
                n == self.cells@.len(),
                marked@.len() == n,
                r <= roots@.len(),
                forall|i: int| 0 <= i < n && #[trigger] marked@[i] ==> self.used(i) && self.reachable(roots@, i),
                forall|k: int| 0 <= k < stack@.len() ==> #[trigger] stack@[k] < n && marked@[stack@[k] as int],
                forall|k: int| 0 <= k < r && self.used(roots@[k] as int) ==> #[trigger] marked@[roots@[k] as int],
                forall|i: int| 0 <= i < n && #[trigger] marked@[i] ==> stack@.contains(i as usize),
            decreases roots@.len() - r,
        {
            let x = roots[r];
            if x < n && self.cells[x].content.is_some() && !marked[x] {
                proof {
                    let p = seq![x];
                    assert(self.is_path(p));
                    assert(roots@.contains(p[0])) by {
                        assert(roots@[r as int] == x);
                    }
                    assert(self.reachable(roots@, x as int));
                }
                let ghost prev = stack@;
                marked.set(x, true);
                stack.push(x);
                proof {
                    assert(stack@.last() == x);
                    assert forall|i: int| 0 <= i < n && #[trigger] marked@[i] implies stack@.contains(i as usize) by {
                        if i != x as int {
                            let q = choose|q: int| 0 <= q < prev.len() && prev[q] == i as usize;
                            assert(stack@[q] == i as usize);
                        } else {
                            assert(stack@[stack@.len() - 1] == x);
                        }
                    }
                }
            }
            r = r + 1;
        }
        proof {
            lemma_count_true_bound(marked@);
        }
        while stack.len() > 0
            invariant
                n == self.cells@.len(),
                self.wf(),
                marked@.len() == n,
                count_true(marked@) <= n,
                forall|i: int| 0 <= i < n && #[trigger] marked@[i] ==> self.used(i) && self.reachable(roots@, i),
                forall|k: int| 0 <= k < stack@.len() ==> #[trigger] stack@[k] < n && marked@[stack@[k] as int],
                forall|k: int| 0 <= k < roots@.len() && self.used(roots@[k] as int) ==> #[trigger] marked@[roots@[k] as int],
                forall|i: int, j: int| 0 <= i < n && #[trigger] marked@[i] && !stack@.contains(i as usize)
                    && #[trigger] self.is_child(i, j) ==> 0 <= j < n && marked@[j],
            decreases n - count_true(marked@), stack@.len(),
        {
            let ghost old_stack = stack@;
            let c = stack.pop().unwrap();
            let ghost s0 = stack@;
            assert(old_stack[old_stack.len() - 1] == c);
            let ghost before = marked@;
            proof {
                assert(old_stack =~= s0.push(c));
                assert forall|i: usize| s0.contains(i) implies old_stack.contains(i) by {
                    let q = choose|q: int| 0 <= q < s0.len() && s0[q] == i;
                    assert(old_stack[q] == i);
                }
            }
            let kids = self.children_of(c);
            let mut k: usize = 0;
            while k < kids.len()
                invariant
                    n == self.cells@.len(),
                    self.wf(),
                    c < n,
                    self.used(c as int),
                    self.reachable(roots@, c as int),
                    before[c as int],
                    before.len() == n,
                    forall|i: usize| s0.contains(i) ==> old_stack.contains(i),
                    forall|i: int, j: int| 0 <= i < n && before[i] && !old_stack.contains(i as usize)
                        && #[trigger] self.is_child(i, j) ==> 0 <= j < n && before[j],
                    kids@ == children(self.mv(c as int)),
                    k <= kids@.len(),
                    marked@.len() == n,
                    count_true(marked@) <= n,
                    stack@.len() >= s0.len(),
                    forall|q: int| 0 <= q < s0.len() ==> #[trigger] stack@[q] == s0[q],
                    count_true(marked@) >= count_true(before),
                    count_true(marked@) == count_true(before) ==> marked@ == before && stack@.len() == s0.len(),
                    forall|i: int| 0 <= i < n && before[i] ==> #[trigger] marked@[i],
                    forall|i: int| 0 <= i < n && #[trigger] marked@[i] && !before[i] ==> stack@.contains(i as usize),
                    forall|i: int| 0 <= i < n && #[trigger] marked@[i] ==> self.used(i) && self.reachable(roots@, i),
                    forall|q: int| 0 <= q < stack@.len() ==> #[trigger] stack@[q] < n && marked@[stack@[q] as int],
                    forall|q: int| 0 <= q < roots@.len() && self.used(roots@[q] as int) ==> #[trigger] marked@[roots@[q] as int],
                    forall|q: int| 0 <= q < k ==> (#[trigger] kids@[q] matches Some(j) ==> j < n && marked@[j as int]),
                decreases kids@.len() - k,
            {
                if let Some(j) = kids[k] {
                    assert(self.older_than(children(self.mv(c as int))[k as int], c as int));
                    if !marked[j] {
                        proof {
                            assert(children(self.mv(c as int))[k as int] == Some(j));
                            assert(children(self.mv(c as int)).contains(Some(j)));
                            assert(self.is_child(c as int, j as int));
                            self.lemma_extend_path(roots@, c, j);
                            lemma_count_true_set(marked@, j as int);
                        }
                        let ghost pm = marked@;
                        let ghost ps = stack@;
                        marked.set(j, true);
                        stack.push(j);
                        proof {
                            assert(stack@.last() == j);
                            assert forall|i: int| 0 <= i < n && #[trigger] marked@[i] && !before[i] implies stack@.contains(i as usize) by {
                                if i != j as int {
                                    assert(pm[i]);
                                    assert(ps.contains(i as usize));
                                    let prev = ps;
                                    let q = choose|q: int| 0 <= q < prev.len() && prev[q] == i as usize;
                                    assert(stack@[q] == i as usize);
                                } else {
                                    assert(stack@[stack@.len() - 1] == j);
                                }
                            }
                        }
                    }
                }
                k = k + 1;
            }
            proof {
                assert forall|i: int, j: int| 0 <= i < n && #[trigger] marked@[i] && !stack@.contains(i as usize)
                    && #[trigger] self.is_child(i, j) implies 0 <= j < n && marked@[j] by {
                    assert(before[i]);
                    if i == c as int {
                        assert(children(self.mv(c as int)).contains(Some(j as usize)));
                        let q = choose|q: int| 0 <= q < kids@.len() && kids@[q] == Some(j as usize);
                        assert(kids@[q] matches Some(x) ==> x < n && marked@[x as int]);
                    } else {
                        if s0.contains(i as usize) {
                            let q = choose|q: int| 0 <= q < s0.len() && s0[q] == i as usize;
                            assert(stack@[q] == i as usize);
                        }
                        assert(!old_stack.contains(i as usize)) by {
                            if old_stack.contains(i as usize) {
                                let q = choose|q: int| 0 <= q < old_stack.len() && old_stack[q] == i as usize;
                                if q < s0.len() {
                                    assert(s0[q] == i as usize);
                                }
                            }
                        }
                        assert(before[j]);
                    }
                }
            }
        }
        proof {
            assert forall|i: int| 0 <= i < marked@.len() implies
                (#[trigger] marked@[i] <==> self.used(i) && self.reachable(roots@, i)) by {
                if self.used(i) && self.reachable(roots@, i) {
                    let path = choose|path: Seq<usize>| #[trigger] self.is_path(path) && roots@.contains(path[0]) && path.last() == i;
                    self.lemma_closed_contains_reachable(roots@, marked@, path);
                }
            }
        }
        marked
    }
}

impl Memory {
    /// Frees every used cell that is not marked; keeps the symbols of the marked cells.
    fn sweep(&mut self, marked: &Vec<bool>)
        requires
            old(self).wf(),
            marked@.len() == old(self).cells@.len(),
            forall|i: int| 0 <= i < marked@.len() && #[trigger] marked@[i] ==> old(self).used(i),
            forall|i: int, j: int| 0 <= i < marked@.len() && #[trigger] marked@[i] && #[trigger] old(self).is_child(i, j)
                ==> marked@[j],
        ensures
            final(self).wf(),
            old(self).frame(&*final(self)),
            final(self).cells@.len() == old(self).cells@.len(),
            final(self).retired@ == old(self).retired@,
            forall|i: int| 0 <= i < marked@.len() ==> (#[trigger] final(self).used(i) <==> marked@[i]),
            forall|k: int| 0 <= k < final(self).symbols@.len() ==>
                old(self).symbols@.contains(#[trigger] final(self).symbols@[k]),
            forall|k: int| 0 <= k < old(self).symbols@.len() && marked@[#[trigger] old(self).symbols@[k].cell as int] ==>
                final(self).symbols@.contains(old(self).symbols@[k]),
    {
        let n = self.cells.len();
        let ghost old_self = *self;
        let mut i: usize = 0;
        while i < n
            invariant
                n == self.cells@.len(),
                n == old_self.cells@.len(),
                marked@.len() == n,
                i <= n,
                self.symbols == old_self.symbols,
                self.retired == old_self.retired,
                self.modules == old_self.modules,
                self.current_module == old_self.current_module,
                self.next_rank == old_self.next_rank,
                old_self.wf(),
                forall|q: int| 0 <= q < n && #[trigger] marked@[q] ==> old_self.used(q),
                forall|q: int| 0 <= q < i ==> (#[trigger] self.used(q) <==> marked@[q]),
                forall|q: int| i <= q < n ==> #[trigger] self.cells@[q] == old_self.cells@[q],
                forall|q: int| #[trigger] self.used(q) ==> self.content(q) == old_self.content(q),
                self.free@.len() >= old_self.free@.len(),
                forall|k: int| 0 <= k < old_self.free@.len() ==> #[trigger] self.free@[k] == old_self.free@[k],
                forall|k: int| old_self.free@.len() <= k < self.free@.len() ==>
                    #[trigger] self.free@[k] < i && old_self.used(self.free@[k] as int) && !marked@[self.free@[k] as int],
                forall|k: int, l: int| 0 <= k < l < self.free@.len() ==> #[trigger] self.free@[k] != #[trigger] self.free@[l],
                forall|q: int| 0 <= q < i && old_self.used(q) && !marked@[q] ==> #[trigger] self.free@.contains(q as usize),
            decreases n - i,
        {
            let ghost ps = *self;
            let ghost pc = self.cells@;
            if self.cells[i].content.is_some() && !marked[i] {
                let ghost pf = self.free@;
                assert(forall|q: int| 0 <= q < i && old_self.used(q) && !marked@[q] ==> #[trigger] pf.contains(q as usize));
                self.cells.set(i, Cell { content: None });
                self.free.push(i);
                proof {
                    assert forall|k: int, l: int| 0 <= k < l < self.free@.len() implies #[trigger] self.free@[k] != #[trigger] self.free@[l] by {
                        if l == self.free@.len() - 1 {
                            if k < old_self.free@.len() {
                                assert(!old_self.used(pf[k] as int));
                            } else {
                                assert(pf[k] < i);
                            }
                        }
                    }
                    assert forall|q: int| 0 <= q < i + 1 && old_self.used(q) && !marked@[q] implies #[trigger] self.free@.contains(q as usize) by {
                        if q == i as int {
                            assert(self.free@[self.free@.len() - 1] == i);
                        } else {
                            assert(pf.contains(q as usize));
                            let k = choose|k: int| 0 <= k < pf.len() && pf[k] == q as usize;
                            assert(self.free@[k] == q as usize);
                        }
                    }
                }
            }
            proof {
                assert forall|q: int| 0 <= q < i + 1 implies (#[trigger] self.used(q) <==> marked@[q]) by {
                    if q < i {
                        assert(self.cells@[q] == pc[q]);
                        assert(ps.used(q) <==> marked@[q]);
                    } else {
                        assert(pc[q] == old_self.cells@[q]);
                        if pc[q].content is Some && !marked@[q] {
                            assert(self.cells@[q].content is None);
                        } else {
                            assert(self.cells@[q] == pc[q]);
                            if marked@[q] {
                                assert(old_self.used(q));
                            }
                        }
                    }
                }
                assert forall|q: int| #[trigger] self.used(q) implies self.content(q) == old_self.content(q) by {
                    assert(self.cells@[q] == pc[q]);
                    assert(ps.used(q));
                }
            }
            i = i + 1;
        }
        let ghost mid = *self;
        assert(forall|q: int| 0 <= q < n ==> (#[trigger] mid.used(q) <==> marked@[q]));
        // keep the symbol entries of the cells that survive
        let mut symbols: Vec<SymbolEntry> = Vec::new();
        let mut old_symbols: Vec<SymbolEntry> = Vec::new();
        std::mem::swap(&mut old_symbols, &mut self.symbols);
        let mut k: usize = 0;
        while k < old_symbols.len()
            invariant
                old_symbols@ == old_self.symbols@,
                marked@.len() == n,
                n == old_self.cells@.len(),
                old_self.symbols_wf(),
                k <= old_symbols@.len(),
                forall|q: int| 0 <= q < symbols@.len() ==> old_self.symbols@.contains(#[trigger] symbols@[q]),
                forall|q: int| 0 <= q < symbols@.len() ==> marked@[#[trigger] symbols@[q].cell as int],
                forall|q: int| 0 <= q < k && marked@[old_symbols@[q].cell as int] ==>
                    symbols@.contains(#[trigger] old_symbols@[q]),
                forall|a: int, b: int| 0 <= a < b < symbols@.len() ==>
                    #[trigger] symbols@[a].name@ != #[trigger] symbols@[b].name@,
                forall|q: int| 0 <= q < symbols@.len() ==> exists|r: int| 0 <= r < k && #[trigger] old_symbols@[r] == #[trigger] symbols@[q],
            decreases old_symbols@.len() - k,
        {
            let entry_cell = old_symbols[k].cell;
            if entry_cell < marked.len() && marked[entry_cell] {
                let entry = SymbolEntry { name: old_symbols[k].name.clone(), cell: entry_cell };
                let ghost ps = symbols@;
                assert(entry == old_symbols@[k as int]);
                symbols.push(entry);
                proof {
                    assert(old_self.symbols@.contains(old_symbols@[k as int]));
                    assert forall|a: int, b: int| 0 <= a < b < symbols@.len() implies
                        #[trigger] symbols@[a].name@ != #[trigger] symbols@[b].name@ by {
                        if b == symbols@.len() - 1 {
                            let r = choose|r: int| 0 <= r < k && #[trigger] old_symbols@[r] == ps[a];
                            assert(old_self.symbols@[r].name@ != old_self.symbols@[k as int].name@);
                        }
                    }
                    assert forall|q: int| 0 <= q < k + 1 && marked@[old_symbols@[q].cell as int] implies
                        symbols@.contains(#[trigger] old_symbols@[q]) by {
                        if q == k as int {
                            assert(symbols@[symbols@.len() - 1] == old_symbols@[q]);
                        } else {
                            let r = choose|r: int| 0 <= r < ps.len() && ps[r] == old_symbols@[q];
                            assert(symbols@[r] == old_symbols@[q]);
                        }
                    }
                    assert forall|q: int| 0 <= q < symbols@.len() implies exists|r: int| 0 <= r < k + 1 && #[trigger] old_symbols@[r] == #[trigger] symbols@[q] by {
                        if q == symbols@.len() - 1 {
                            assert(old_symbols@[k as int] == symbols@[q]);
                        } else {
                            let r = choose|r: int| 0 <= r < k && #[trigger] old_symbols@[r] == ps[q];
                            assert(old_symbols@[r] == symbols@[q]);
                        }
                    }
                }
            }
            k = k + 1;
        }
        self.symbols = symbols;
        proof {
            assert(self.cells == mid.cells);
            assert(self.free == mid.free);
            assert forall|q: int| #[trigger] self.used(q) implies self.cell_wf(q) by {
                assert(mid.used(q));
                assert(marked@[q]);
                assert(old_self.cell_wf(q));
                let kids = children(self.mv(q));
                assert forall|k: int| 0 <= k < kids.len() implies #[trigger] self.older_than(kids[k], q) by {
                    assert(old_self.older_than(children(old_self.mv(q))[k], q));
                    if let Some(j) = kids[k] {
                        assert(children(old_self.mv(q)).contains(Some(j)));
                        assert(old_self.is_child(q, j as int));
                        assert(marked@[j as int]);
                        assert(mid.used(j as int));
                        assert(self.used(j as int));
                    }
                }
                if let MetaValue::Meta { value: Some(j), .. } = self.mv(q) {
                    assert(children(old_self.mv(q))[0] == Some(j));
                    assert(old_self.older_than(children(old_self.mv(q))[0], q));
                    assert(old_self.is_child(q, j as int));
                    assert(marked@[j as int]);
                    assert(mid.used(j as int));
                    assert(self.used(j as int));
                }
                if let MetaValue::Value(PrimitiveValue::Symbol(sym)) = self.mv(q) {
                    if sym.name is Some {
                        let k = choose|k: int| 0 <= k < old_self.symbols@.len() && #[trigger] old_self.symbols@[k].cell == q;
                        assert(marked@[old_symbols@[k].cell as int]);
                        assert(self.symbols@.contains(old_symbols@[k]));
                        let r = choose|r: int| 0 <= r < self.symbols@.len() && self.symbols@[r] == old_symbols@[k];
                        assert(self.symbols@[r].cell == q);
                    }
                }
            }
            assert forall|k: int| 0 <= k < self.symbols@.len() implies {
                let e = #[trigger] self.symbols@[k];
                &&& self.used(e.cell as int)
                &&& self.mv(e.cell as int) is Value
                &&& symbol_name_of(self.mv(e.cell as int)->Value_0) == Some(e.name@)
            } by {
                assert(old_self.symbols@.contains(self.symbols@[k]));
                let r = choose|r: int| 0 <= r < old_self.symbols@.len() && old_self.symbols@[r] == self.symbols@[k];
                assert(old_self.symbols@[r] == self.symbols@[k]);
                assert(marked@[self.symbols@[k].cell as int]);
                assert(mid.used(self.symbols@[k].cell as int));
            }
            assert forall|q: int| 0 <= q < self.cells@.len() && !self.used(q) implies
                #[trigger] self.free@.contains(q as usize) || self.retired@.contains(q as usize) by {
                if old_self.used(q) {
                    assert(!mid.used(q));
                    assert(!marked@[q]);
                } else {
                    assert(self.cells@[q] == old_self.cells@[q] || !marked@[q]);
                    if old_self.free@.contains(q as usize) {
                        let k = choose|k: int| 0 <= k < old_self.free@.len() && old_self.free@[k] == q as usize;
                        assert(self.free@[k] == q as usize);
                    }
                }
            }
            assert forall|k: int| 0 <= k < self.free@.len() implies
                #[trigger] self.free@[k] < self.cells@.len() && !self.used(self.free@[k] as int) by {
                let x = self.free@[k] as int;
                if k < old_self.free@.len() {
                    assert(self.free@[k] == old_self.free@[k]);
                    assert(!old_self.used(old_self.free@[k] as int));
                    assert(marked@[x] ==> old_self.used(x));
                } else {
                    assert(!marked@[x]);
                }
                assert(!mid.used(x));
            }
            assert forall|k: int, l: int| 0 <= k < self.free@.len() && 0 <= l < self.retired@.len() implies
                #[trigger] self.free@[k] != #[trigger] self.retired@[l] by {
                if k < old_self.free@.len() {
                    assert(self.free@[k] == old_self.free@[k]);
                } else {
                    assert(!old_self.used(self.retired@[l] as int));
                }
            }
            assert forall|k: int| 0 <= k < self.retired@.len() implies
                #[trigger] self.retired@[k] < self.cells@.len() && !self.used(self.retired@[k] as int) by {
                let x = self.retired@[k] as int;
                assert(!old_self.used(old_self.retired@[k] as int));
                assert(marked@[x] ==> old_self.used(x));
                assert(!mid.used(x));
            }
            assert forall|q: int| 0 <= q < marked@.len() implies (#[trigger] self.used(q) <==> marked@[q]) by {
                assert(mid.used(q) <==> marked@[q]);
            }
            assert forall|q: int| #[trigger] self.used(q) implies old_self.used(q) && self.content(q) == old_self.content(q) by {
                assert(mid.used(q));
            }
        }
    }
}

impl Memory {
    /// The free and retired lists together hold at most as many cells as the heap.
    pub proof fn lemma_counts(&self)
        requires
            self.wf(),
        ensures
            self.free@.len() + self.retired@.len() <= self.cells@.len(),
    {
        let both = self.free@ + self.retired@;
        assert forall|k: int| 0 <= k < both.len() implies #[trigger] both[k] < self.cells@.len() by {
            if k >= self.free@.len() {
                assert(both[k] == self.retired@[k - self.free@.len()]);
            }
        }
        assert forall|k: int, l: int| 0 <= k < l < both.len() implies #[trigger] both[k] != #[trigger] both[l] by {
            if l < self.free@.len() {
            } else if k >= self.free@.len() {
                assert(both[k] == self.retired@[k - self.free@.len()]);
                assert(both[l] == self.retired@[l - self.free@.len()]);
            } else {
                assert(both[l] == self.retired@[l - self.free@.len()]);
            }
        }
        lemma_distinct_below(both, self.cells@.len() as int);
    }

    /// Two memories with the same cells, symbols and age counter agree on the invariant of every cell.
    pub proof fn lemma_same_heap(&self, other: &Memory)
        requires
            forall|i: int| #[trigger] self.used(i) ==> self.cell_wf(i),
            other.cells == self.cells,
            other.symbols == self.symbols,
            other.next_rank == self.next_rank,
        ensures
            forall|i: int| #[trigger] other.used(i) ==> other.cell_wf(i),
    {
        assert forall|i: int| #[trigger] other.used(i) implies other.cell_wf(i) by {
            assert(self.used(i));
            assert(self.cell_wf(i));
            let kids = children(other.mv(i));
            assert forall|k: int| 0 <= k < kids.len() implies #[trigger] other.older_than(kids[k], i) by {
                assert(self.older_than(children(self.mv(i))[k], i));
                if let Some(j) = kids[k] {
                    assert(self.used(j as int));
                }
            }
            if let MetaValue::Meta { value: Some(j), .. } = other.mv(i) {
                assert(self.mv(j as int) is Value);
            }
            if let MetaValue::Value(PrimitiveValue::Symbol(sym)) = other.mv(i) {
                if sym.name is Some {
                    let k = choose|k: int| 0 <= k < self.symbols@.len() && #[trigger] self.symbols@[k].cell == i;
                    assert(other.symbols@[k].cell == i);
                }
            }
        }
    }

    /// The number of cells that hold a value.
    pub fn used_count(&self) -> (n: usize)
        requires
            self.wf(),
        ensures
            n == self.used_spec(),
    {
        proof { self.lemma_counts(); }
        self.cells.len() - self.free.len() - self.retired.len()
    }

    /// The number of cells ready to receive a value.
    pub fn free_count(&self) -> (n: usize)
        ensures
            n == self.free@.len(),
    {
        self.free.len()
    }

    /// Keeps at most `keep` free cells; the others leave the free list.
    fn trim_free(&mut self, keep: usize)
        requires
            old(self).wf(),
        ensures
            final(self).wf(),
            old(self).frame(&*final(self)),
            final(self).cells == old(self).cells,
            final(self).symbols == old(self).symbols,
            final(self).free@.len() == if old(self).free@.len() > keep { keep as nat } else { old(self).free@.len() },
            final(self).used_spec() == old(self).used_spec(),
    {
        while self.free.len() > keep
            invariant
                self.wf(),
                old(self).frame(&*self),
                self.cells == old(self).cells,
                self.symbols == old(self).symbols,
                self.free@.len() + self.retired@.len() == old(self).free@.len() + old(self).retired@.len(),
                old(self).free@.len() > keep ==> self.free@.len() >= keep,
                old(self).free@.len() <= keep ==> self.free@ == old(self).free@,
            decreases self.free@.len(),
        {
            let ghost pf = self.free@;
            let ghost pr = self.retired@;
            let ghost ps = *self;
            let x = self.free.pop().unwrap();
            self.retired.push(x);
            proof {
                assert(pf[pf.len() - 1] == x);
                assert forall|k: int, l: int| 0 <= k < l < self.retired@.len() implies
                    #[trigger] self.retired@[k] != #[trigger] self.retired@[l] by {
                    if l == self.retired@.len() - 1 {
                        assert(pr[k] != pf[pf.len() - 1]);
                    }
                }
                assert forall|k: int, l: int| 0 <= k < self.free@.len() && 0 <= l < self.retired@.len() implies
                    #[trigger] self.free@[k] != #[trigger] self.retired@[l] by {
                    assert(self.free@[k] == pf[k]);
                    if l == self.retired@.len() - 1 {
                        assert(pf[k] != pf[pf.len() - 1]);
                    }
                }
                assert forall|i: int| 0 <= i < self.cells@.len() && !self.used(i) implies
                    #[trigger] self.free@.contains(i as usize) || self.retired@.contains(i as usize) by {
                    if pf.contains(i as usize) {
                        let k = choose|k: int| 0 <= k < pf.len() && pf[k] == i as usize;
                        if k == pf.len() - 1 {
                            assert(self.retired@[self.retired@.len() - 1] == i as usize);
                        } else {
                            assert(self.free@[k] == i as usize);
                        }
                    } else {
                        assert(pr.contains(i as usize));
                        let k = choose|k: int| 0 <= k < pr.len() && pr[k] == i as usize;
                        assert(self.retired@[k] == i as usize);
                    }
                }
                assert forall|k: int| 0 <= k < self.free@.len() implies
                    #[trigger] self.free@[k] < self.cells@.len() && !self.used(self.free@[k] as int) by {
                    assert(self.free@[k] == pf[k]);
                }
                assert forall|k: int| 0 <= k < self.retired@.len() implies
                    #[trigger] self.retired@[k] < self.cells@.len() && !self.used(self.retired@[k] as int) by {
                    if k < pr.len() {
                        assert(self.retired@[k] == pr[k]);
                    }
                }
                ps.lemma_same_heap(&*self);
                assert(self.symbols_wf());
                assert(self.modules_wf());
            }
        }
    }

    /// Frees every used cell that cannot be reached from `roots`, then trims the free cells.
    ///
    /// A cell survives exactly when it can be reached from a root, and it keeps its value.
    pub fn collect_from_roots(&mut self, roots: &Vec<usize>)
        requires
            old(self).wf(),
        ensures
            final(self).wf(),
            old(self).frame(&*final(self)),
            final(self).cells@.len() == old(self).cells@.len(),
            forall|i: int| 0 <= i < old(self).cells@.len() ==>
                (#[trigger] final(self).used(i) <==> old(self).used(i) && old(self).reachable(roots@, i)),
            forall|k: int| 0 <= k < final(self).symbols@.len() ==>
                old(self).symbols@.contains(#[trigger] final(self).symbols@[k]),
            forall|k: int| 0 <= k < old(self).symbols@.len() && final(self).used(#[trigger] old(self).symbols@[k].cell as int) ==>
                final(self).symbols@.contains(old(self).symbols@[k]),
            final(self).free@.len() <= three_quarters(final(self).used_spec())
                || final(self).free@.len() == final(self).used_spec() / 10 + 1,
    {
        let marked = self.mark(roots);
        proof {
            assert forall|i: int, j: int| 0 <= i < marked@.len() && #[trigger] marked@[i] && #[trigger] self.is_child(i, j)
                implies marked@[j] by {
                assert(self.used(i));
                assert(self.cell_wf(i));
                self.lemma_extend_path(roots@, i as usize, j as usize);
                assert(self.used(j)) by {
                    let kids = children(self.mv(i));
                    let k = choose|k: int| 0 <= k < kids.len() && kids[k] == Some(j as usize);
                    assert(self.older_than(kids[k], i));
                }
            }
        }
        let ghost mid0 = *self;
        self.sweep(&marked);
        proof {
            self.lemma_counts();
            assert forall|i: int| 0 <= i < mid0.cells@.len() implies
                (#[trigger] self.used(i) <==> mid0.used(i) && mid0.reachable(roots@, i)) by {
                assert(marked@[i] <==> mid0.used(i) && mid0.reachable(roots@, i));
            }
        }
        let ghost mid1 = *self;
        let used = self.cells.len() - self.free.len() - self.retired.len();
        let max_free = (used / config::MAXIMUM_FREE_DENOMINATOR) * config::MAXIMUM_FREE_NUMERATOR
            + ((used % config::MAXIMUM_FREE_DENOMINATOR) * config::MAXIMUM_FREE_NUMERATOR) / config::MAXIMUM_FREE_DENOMINATOR;
        if self.free.len() > max_free {
            let min_free = used / config::MINIMUM_FREE_DENOMINATOR * config::MINIMUM_FREE_NUMERATOR;
            self.trim_free(min_free + 1);
        }
        proof {
            assert forall|i: int| 0 <= i < mid0.cells@.len() implies
                (#[trigger] self.used(i) <==> mid0.used(i) && mid0.reachable(roots@, i)) by {
                assert(mid1.used(i) <==> mid0.used(i) && mid0.reachable(roots@, i));
            }
            assert forall|k: int| 0 <= k < mid0.symbols@.len() && self.used(#[trigger] mid0.symbols@[k].cell as int) implies
                self.symbols@.contains(mid0.symbols@[k]) by {
                let c = mid0.symbols@[k].cell as int;
                assert(mid1.used(c));
                assert(marked@[c]);
            }
        }
    }

    /// The used cells that some handle outside the heap refers to.
    fn handle_roots(&self) -> (roots: Vec<usize>)
        ensures
            forall|k: int| 0 <= k < roots@.len() ==> self.used(#[trigger] roots@[k] as int),
            forall|k: int, j: int| 0 <= k < j < roots@.len() ==> roots@[k] < roots@[j],
    {
        let mut roots: Vec<usize> = Vec::new();
        let mut i: usize = 0;
        while i < self.cells.len()
            invariant
                i <= self.cells@.len(),
                forall|k: int| 0 <= k < roots@.len() ==> self.used(#[trigger] roots@[k] as int),
                forall|k: int| 0 <= k < roots@.len() ==> #[trigger] roots@[k] < i,
                forall|k: int, j: int| 0 <= k < j < roots@.len() ==> roots@[k] < roots@[j],
            decreases self.cells@.len() - i,
        {
            match &self.cells[i].content {
                Some(c) => {
                    if handle_count(&c.token) > 1 {
                        roots.push(i);
                    }
                },
                None => {},
            }
            i = i + 1;
        }
        roots
    }

    /// Collects garbage: the roots are the cells that some handle refers to.
    pub fn collect(&mut self)
        requires
            old(self).wf(),
        ensures
            final(self).wf(),
            old(self).frame(&*final(self)),
            final(self).cells@.len() == old(self).cells@.len(),
            exists|roots: Seq<usize>| #[trigger] old(self).collected(&*final(self), roots),
    {
        let roots = self.handle_roots();
        self.collect_from_roots(&roots);
        assert(old(self).collected(&*self, roots@));
    }
}

/// The number of cells of the heap (std's `Vec::len`). std never lets a vector hold more than
/// `isize::MAX` bytes and a cell takes more than 8 bytes, so the length stays below
/// `usize::MAX / 8`; that bound is the one fact stated beyond the length itself.
#[verifier::external_body]
fn heap_len(cells: &Vec<Cell>) -> (n: usize)
    ensures
        n == cells@.len(),
        n <= usize::MAX / 8,
{
    cells.len()
}

/// The content a new cell `i` receives: a symbol learns its own address.
pub open spec fn placed(mv: MetaValue, i: usize) -> MetaValue {
    match mv {
        MetaValue::Value(PrimitiveValue::Symbol(s)) =>
            MetaValue::Value(PrimitiveValue::Symbol(Symbol { name: s.name, own_address: i })),
        _ => mv,
    }
}

impl Memory {
    /// The content may be placed in a new cell: its pointers are live, metadata points to a value,
    /// and a named symbol does not exist yet.
    pub open spec fn content_ok(&self, mv: MetaValue) -> bool {
        &&& forall|k: int| 0 <= k < children(mv).len() ==> #[trigger] self.live(children(mv)[k])
        &&& (mv matches MetaValue::Meta { value: Some(j), .. } ==> self.mv(j as int) is Value)
        &&& (symbol_name_of_mv(mv) is Some ==>
                forall|k: int| 0 <= k < self.symbols@.len() ==>
                    Some(#[trigger] self.symbols@[k].name@) != symbol_name_of_mv(mv))
    }

    /// `new` is `self` after allocating cell `r`, a collection possibly running first.
    pub open spec fn allocated(&self, new: &Memory, r: usize) -> bool {
        &&& new.wf()
        &&& new.used(r as int)
        &&& new.rank(r as int) == self.next_rank@
        &&& new.next_rank@ == self.next_rank@ + 1
        &&& forall|i: int| #[trigger] new.used(i) && i != r ==> self.used(i) && new.content(i) == self.content(i)
        &&& new.modules == self.modules
        &&& new.current_module == self.current_module
        &&& forall|k: int| 0 <= k < self.symbols@.len() && new.used(#[trigger] self.symbols@[k].cell as int)
                && self.symbols@[k].cell != r ==> new.symbols@.contains(self.symbols@[k])
    }

    /// The live cells that `keep` refers to survive in `new`, and none of them is `r`.
    pub open spec fn kept(&self, new: &Memory, r: usize, keep: Seq<GcRef>) -> bool {
        forall|k: int| 0 <= k < keep.len() && (#[trigger] keep[k].ptr() matches Some(x) && self.used(x as int)) ==>
            new.used(keep[k].ptr()->0 as int) && keep[k].ptr()->0 != r
    }

    /// Adds `n` cells to the free list.
    fn grow_free(&mut self, n: usize)
        requires
            old(self).wf(),
            n > 0,
        ensures
            final(self).wf(),
            old(self).frame(&*final(self)),
            final(self).symbols == old(self).symbols,
            final(self).free@.len() >= old(self).free@.len() + 1,
            final(self).used_spec() == old(self).used_spec(),
            forall|i: int| #[trigger] final(self).used(i) <==> old(self).used(i),
    {
        let ghost s0 = *self;
        let mut k: usize = 0;
        while k < n
            invariant
                s0.wf(),
                self.wf(),
                s0.frame(&*self),
                self.symbols == s0.symbols,
                self.free@.len() >= s0.free@.len() + k,
                self.used_spec() == s0.used_spec(),
                forall|i: int| #[trigger] self.used(i) <==> s0.used(i),
                k <= n,
            decreases n - k,
        {
            let ghost s1 = *self;
            self.add_free_slot();
            proof {
                assert forall|i: int| #[trigger] self.used(i) implies s0.used(i) && self.content(i) == s0.content(i) by {
                    assert(s1.used(i));
                }
            }
            k = k + 1;
        }
    }

    /// Adds one cell to the free list, reusing a retired cell where there is one.
    fn add_free_slot(&mut self)
        requires
            old(self).wf(),
        ensures
            final(self).wf(),
            old(self).frame(&*final(self)),
            final(self).symbols == old(self).symbols,
            final(self).free@.len() == old(self).free@.len() + 1,
            final(self).used_spec() == old(self).used_spec(),
            forall|i: int| #[trigger] final(self).used(i) <==> old(self).used(i),
    {
        let ghost ps = *self;
        if self.retired.len() > 0 {
            let x = self.retired.pop().unwrap();
            self.free.push(x);
            proof {
                let pr = ps.retired@;
                assert(pr[pr.len() - 1] == x);
                assert forall|k: int, l: int| 0 <= k < l < self.free@.len() implies
                    #[trigger] self.free@[k] != #[trigger] self.free@[l] by {
                    if l == self.free@.len() - 1 {
                        assert(ps.free@[k] != pr[pr.len() - 1]);
                    }
                }
                assert forall|k: int, l: int| 0 <= k < self.free@.len() && 0 <= l < self.retired@.len() implies
                    #[trigger] self.free@[k] != #[trigger] self.retired@[l] by {
                    assert(self.retired@[l] == pr[l]);
                    if k == self.free@.len() - 1 {
                        assert(pr[l] != pr[pr.len() - 1]);
                    } else {
                        assert(self.free@[k] == ps.free@[k]);
                    }
                }
                assert forall|i: int| 0 <= i < self.cells@.len() && !self.used(i) implies
                    #[trigger] self.free@.contains(i as usize) || self.retired@.contains(i as usize) by {
                    if ps.free@.contains(i as usize) {
                        let k = choose|k: int| 0 <= k < ps.free@.len() && ps.free@[k] == i as usize;
                        assert(self.free@[k] == i as usize);
                    } else {
                        assert(pr.contains(i as usize));
                        let k = choose|k: int| 0 <= k < pr.len() && pr[k] == i as usize;
                        if k == pr.len() - 1 {
                            assert(self.free@[self.free@.len() - 1] == i as usize);
                        } else {
                            assert(self.retired@[k] == i as usize);
                        }
                    }
                }
                assert forall|k: int| 0 <= k < self.free@.len() implies
                    #[trigger] self.free@[k] < self.cells@.len() && !self.used(self.free@[k] as int) by {
                    if k < ps.free@.len() {
                        assert(self.free@[k] == ps.free@[k]);
                    }
                }
                assert forall|k: int| 0 <= k < self.retired@.len() implies
                    #[trigger] self.retired@[k] < self.cells@.len() && !self.used(self.retired@[k] as int) by {
                    assert(self.retired@[k] == pr[k]);
                }
                ps.lemma_same_heap(&*self);
            }
        } else {
            let n = heap_len(&self.cells);
            self.cells.push(Cell { content: None });
            let _ = heap_len(&self.cells);
            self.free.push(n);
            proof {
                assert forall|i: int| #[trigger] self.used(i) implies ps.used(i) && self.content(i) == ps.content(i) by {
                    assert(self.cells@[i] == ps.cells@[i]);
                }
                assert forall|i: int| #[trigger] ps.used(i) implies self.used(i) by {
                    assert(self.cells@[i] == ps.cells@[i]);
                }
                assert forall|i: int| #[trigger] self.used(i) implies self.cell_wf(i) by {
                    assert(ps.used(i));
                    assert(ps.cell_wf(i));
                    let kids = children(self.mv(i));
                    assert forall|k: int| 0 <= k < kids.len() implies #[trigger] self.older_than(kids[k], i) by {
                        assert(ps.older_than(children(ps.mv(i))[k], i));
                        if let Some(j) = kids[k] {
                            assert(ps.used(j as int));
                            assert(self.cells@[j as int] == ps.cells@[j as int]);
                        }
                    }
                    if let MetaValue::Meta { value: Some(j), .. } = self.mv(i) {
                        assert(ps.older_than(children(ps.mv(i))[0], i));
                        assert(ps.used(j as int));
                        assert(self.cells@[j as int] == ps.cells@[j as int]);
                    }
                    if let MetaValue::Value(PrimitiveValue::Symbol(sym)) = self.mv(i) {
                        if sym.name is Some {
                            let k = choose|k: int| 0 <= k < ps.symbols@.len() && #[trigger] ps.symbols@[k].cell == i;
                            assert(self.symbols@[k].cell == i);
                        }
                    }
                }
                assert forall|k: int| 0 <= k < self.symbols@.len() implies {
                    let e = #[trigger] self.symbols@[k];
                    &&& self.used(e.cell as int)
                    &&& self.mv(e.cell as int) is Value
                    &&& symbol_name_of(self.mv(e.cell as int)->Value_0) == Some(e.name@)
                } by {
                    let c = self.symbols@[k].cell as int;
                    assert(ps.used(c));
                    assert(self.cells@[c] == ps.cells@[c]);
                }
                assert forall|k: int, l: int| 0 <= k < l < self.free@.len() implies
                    #[trigger] self.free@[k] != #[trigger] self.free@[l] by {
                    if l == self.free@.len() - 1 {
                        assert(ps.free@[k] < n);
                    }
                }
                assert forall|k: int, l: int| 0 <= k < self.free@.len() && 0 <= l < self.retired@.len() implies
                    #[trigger] self.free@[k] != #[trigger] self.retired@[l] by {
                }
                assert forall|i: int| 0 <= i < self.cells@.len() && !self.used(i) implies
                    #[trigger] self.free@.contains(i as usize) || self.retired@.contains(i as usize) by {
                    if i == n as int {
                        assert(self.free@[self.free@.len() - 1] == n);
                    } else {
                        assert(self.cells@[i] == ps.cells@[i]);
                        assert(ps.free@.contains(i as usize) || ps.retired@.contains(i as usize));
                        if ps.free@.contains(i as usize) {
                            let k = choose|k: int| 0 <= k < ps.free@.len() && ps.free@[k] == i as usize;
                            assert(self.free@[k] == i as usize);
                        }
                    }
                }
                assert forall|k: int| 0 <= k < self.free@.len() implies
                    #[trigger] self.free@[k] < self.cells@.len() && !self.used(self.free@[k] as int) by {
                    if k < ps.free@.len() {
                        let x = ps.free@[k] as int;
                        assert(self.free@[k] == ps.free@[k]);
                        assert(self.cells@[x] == ps.cells@[x]);
                    }
                }
                assert forall|k: int| 0 <= k < self.retired@.len() implies
                    #[trigger] self.retired@[k] < self.cells@.len() && !self.used(self.retired@[k] as int) by {
                    let x = ps.retired@[k] as int;
                    assert(self.cells@[x] == ps.cells@[x]);
                }
            }
        }
    }

    /// Places `content` in a new cell, collecting garbage first when no cell is free and
    /// growing the heap when collecting does not free one. The cells of `keep` and the cells
    /// that `content` points to are treated as roots of that collection.
    fn allocate_internal(&mut self, content: MetaValue, keep: &[GcRef]) -> (r: usize)
        requires
            old(self).wf(),
            old(self).content_ok(content),
        ensures
            old(self).allocated(&*final(self), r),
            final(self).mv(r as int) == placed(content, r),
            old(self).kept(&*final(self), r, keep@),
            forall|k: int| 0 <= k < children(content).len() ==> (#[trigger] children(content)[k] matches Some(j) ==>
                final(self).used(j as int) && j != r),
            symbol_name_of_mv(content) is Some ==>
                final(self).symbols@.contains(SymbolEntry { name: symbol_string(content), cell: r }),
            forall|k: int| 0 <= k < final(self).symbols@.len() ==>
                old(self).symbols@.contains(#[trigger] final(self).symbols@[k])
                || final(self).symbols@[k] == (SymbolEntry { name: symbol_string(content), cell: r }),
    {
        let ghost s0 = *self;
        if self.free.len() == 0 {
            let mut roots = self.handle_roots();
            let mut k: usize = 0;
            while k < keep.len()
                invariant
                    k <= keep@.len(),
                    forall|q: int| 0 <= q < k ==> (#[trigger] keep@[q].ptr() matches Some(x) ==> roots@.contains(x)),
                decreases keep@.len() - k,
            {
                if let Some(x) = keep[k].pointer {
                    let ghost pr = roots@;
                    roots.push(x);
                    proof {
                        assert forall|q: int| 0 <= q < k + 1 implies (#[trigger] keep@[q].ptr() matches Some(y) ==> roots@.contains(y)) by {
                            if q == k as int {
                                assert(roots@[roots@.len() - 1] == x);
                            } else if let Some(y) = keep@[q].ptr() {
                                assert(pr.contains(y));
                                let z = choose|z: int| 0 <= z < pr.len() && pr[z] == y;
                                assert(roots@[z] == y);
                            }
                        }
                    }
                }
                k = k + 1;
            }
            let kids = content_children(&content);
            let mut k: usize = 0;
            let ghost r0 = roots@;
            while k < kids.len()
                invariant
                    k <= kids@.len(),
                    kids@ == children(content),
                    forall|q: int| 0 <= q < r0.len() ==> roots@.contains(#[trigger] r0[q]),
                    forall|q: int| 0 <= q < k ==> (#[trigger] kids@[q] matches Some(j) ==> roots@.contains(j)),
                decreases kids@.len() - k,
            {
                if let Some(j) = kids[k] {
                    let ghost pr = roots@;
                    roots.push(j);
                    proof {
                        assert forall|q: int| 0 <= q < r0.len() implies roots@.contains(#[trigger] r0[q]) by {
                            let z = choose|z: int| 0 <= z < pr.len() && pr[z] == r0[q];
                            assert(roots@[z] == r0[q]);
                        }
                        assert forall|q: int| 0 <= q < k + 1 implies (#[trigger] kids@[q] matches Some(x) ==> roots@.contains(x)) by {
                            if q == k as int {
                                assert(roots@[roots@.len() - 1] == j);
                            } else if let Some(x) = kids@[q] {
                                let z = choose|z: int| 0 <= z < pr.len() && pr[z] == x;
                                assert(roots@[z] == x);
                            }
                        }
                    }
                }
                k = k + 1;
            }
            let ghost before = *self;
            self.collect_from_roots(&roots);
            proof {
                assert forall|q: int| 0 <= q < keep@.len() && (#[trigger] keep@[q].ptr() matches Some(x) && before.used(x as int)) implies
                    self.used(keep@[q].ptr()->0 as int) by {
                    let x = keep@[q].ptr()->0;
                    let p = seq![x];
                    assert(before.is_path(p));
                    assert(before.reachable(roots@, x as int));
                }
                assert forall|q: int| 0 <= q < children(content).len() implies
                    (#[trigger] children(content)[q] matches Some(j) ==> self.used(j as int)) by {
                    if let Some(x) = children(content)[q] {
                        assert(before.live(children(content)[q]));
                        let p = seq![x];
                        assert(before.is_path(p));
                        assert(before.reachable(roots@, x as int));
                    }
                }
            }
        }
        let ghost s1 = *self;
        if self.free.len() == 0 {
            let used = self.used_count();
            let n = (used + 1) * config::ALLOCATION_NUMERATOR / config::ALLOCATION_DENOMINATOR;
            self.grow_free(if n == 0 { 1 } else { n });
        }
        let ghost s2 = *self;
        let r = self.free.pop().unwrap();
        proof {
            assert(s2.free@[s2.free@.len() - 1] == r);
            assert(!s2.used(r as int));
        }
        // place the content
        let mut content = content;
        match &mut content {
            MetaValue::Value(PrimitiveValue::Symbol(sym)) => {
                sym.own_address = r;
            },
            _ => {},
        }
        let named = content_symbol_name(&content);
        let ghost rank = self.next_rank@;
        let cell = Cell { content: Some(CellContent { metavalue: content, token: Rc::new(()), rank: Ghost(rank) }) };
        self.cells.set(r, cell);
        self.next_rank = Ghost(rank + 1);
        let ghost s3 = *self;
        match named {
            Some(name) => {
                self.symbols.push(SymbolEntry { name, cell: r });
            },
            None => {},
        }
        proof {
            let entry = SymbolEntry { name: symbol_string(content), cell: r };
            // what holds of s2, the state just before the new cell is placed
            assert(s0.frame(&s2));
            assert forall|i: int| #[trigger] s2.used(i) implies s0.used(i) && s2.content(i) == s0.content(i) by {
                assert(s1.used(i));
            }
            assert forall|q: int| 0 <= q < children(content).len() implies
                (#[trigger] children(content)[q] matches Some(j) ==> s2.used(j as int)) by {
                if let Some(j) = children(content)[q] {
                    if s0.free@.len() > 0 {
                        assert(s0.live(children(content)[q]));
                    } else {
                        assert(s1.used(j as int));
                    }
                }
            }
            assert forall|q: int| 0 <= q < keep@.len() && (#[trigger] keep@[q].ptr() matches Some(x) && s0.used(x as int)) implies
                s2.used(keep@[q].ptr()->0 as int) by {
                if s0.free@.len() == 0 {
                    assert(s1.used(keep@[q].ptr()->0 as int));
                }
            }
            assert forall|k: int| 0 <= k < s2.symbols@.len() implies s0.symbols@.contains(#[trigger] s2.symbols@[k]) by {
                if s0.free@.len() == 0 {
                    assert(s1.symbols@.contains(s2.symbols@[k]));
                } else {
                    assert(s2.symbols@[k] == s0.symbols@[k]);
                }
            }
            assert forall|k: int| 0 <= k < s0.symbols@.len() && s2.used(#[trigger] s0.symbols@[k].cell as int) implies
                s2.symbols@.contains(s0.symbols@[k]) by {
                if s0.free@.len() == 0 {
                    assert(s1.used(s0.symbols@[k].cell as int));
                } else {
                    assert(s2.symbols@[k] == s0.symbols@[k]);
                }
            }
            // the new state
            assert(self.cells@ == s2.cells@.update(r as int, cell));
            assert forall|i: int| #[trigger] self.used(i) && i != r implies s2.used(i) && self.content(i) == s2.content(i) by {
                assert(self.cells@[i] == s2.cells@[i]);
            }
            assert forall|i: int| #[trigger] s2.used(i) implies self.used(i) && i != r && self.content(i) == s2.content(i) by {
                assert(self.cells@[i] == s2.cells@[i]);
            }
            assert forall|k: int| 0 <= k < self.symbols@.len() implies
                s2.symbols@.contains(#[trigger] self.symbols@[k]) || self.symbols@[k] == entry by {
                if k < s2.symbols@.len() {
                    assert(self.symbols@[k] == s2.symbols@[k]);
                }
            }
            assert forall|i: int| #[trigger] self.used(i) implies self.cell_wf(i) by {
                if i == r as int {
                    let kids = children(self.mv(i));
                    assert(kids == children(content));
                    assert forall|k: int| 0 <= k < kids.len() implies #[trigger] self.older_than(kids[k], i) by {
                        if let Some(j) = kids[k] {
                            assert(s2.used(j as int));
                            assert(s2.cell_wf(j as int));
                        }
                    }
                    if let MetaValue::Meta { value: Some(j), .. } = self.mv(i) {
                        assert(children(content)[0] == Some(j));
                        assert(s2.used(j as int));
                        assert(s0.used(j as int));
                        assert(self.content(j as int) == s2.content(j as int));
                        assert(self.mv(j as int) == s0.mv(j as int));
                    }
                    assert(self.rank(i) < self.next_rank@);
                    if let MetaValue::Value(PrimitiveValue::Symbol(sym)) = self.mv(i) {
                        if sym.name is Some {
                            assert(symbol_name_of_mv(content) is Some);
                            assert(self.symbols@ == s3.symbols@.push(entry));
                            assert(self.symbols@[self.symbols@.len() - 1] == entry);
                            assert(self.symbols@[self.symbols@.len() - 1].cell == i);
                        }
                    }
                    assert(forall|k: int| 0 <= k < children(self.mv(i)).len() ==> #[trigger] self.older_than(children(self.mv(i))[k], i));
                    assert(self.mv(i) matches MetaValue::Meta { value: Some(j), .. } ==> self.mv(j as int) is Value);
                    assert(self.mv(i) matches MetaValue::Value(PrimitiveValue::Symbol(s)) ==> s.own_address == i);
                    assert(self.mv(i) matches MetaValue::Value(PrimitiveValue::Symbol(s)) && s.name is Some ==>
                        exists|k: int| 0 <= k < self.symbols@.len() && #[trigger] self.symbols@[k].cell == i);
                } else {
                    assert(s2.used(i));
                    assert(s2.cell_wf(i));
                    let kids = children(self.mv(i));
                    assert forall|k: int| 0 <= k < kids.len() implies #[trigger] self.older_than(kids[k], i) by {
                        assert(s2.older_than(children(s2.mv(i))[k], i));
                    }
                    if let MetaValue::Meta { value: Some(j), .. } = self.mv(i) {
                        assert(s2.older_than(children(s2.mv(i))[0], i));
                        assert(s2.used(j as int));
                        assert(self.content(j as int) == s2.content(j as int));
                    }
                    assert(self.rank(i) < self.next_rank@);
                    if let MetaValue::Value(PrimitiveValue::Symbol(sym)) = self.mv(i) {
                        if sym.name is Some {
                            let k = choose|k: int| 0 <= k < s2.symbols@.len() && #[trigger] s2.symbols@[k].cell == i;
                            assert(self.symbols@[k] == s2.symbols@[k]);
                        }
                    }
                }
            }
            assert forall|k: int| 0 <= k < self.symbols@.len() implies {
                let e = #[trigger] self.symbols@[k];
                &&& self.used(e.cell as int)
                &&& self.mv(e.cell as int) is Value
                &&& symbol_name_of(self.mv(e.cell as int)->Value_0) == Some(e.name@)
            } by {
                if k < s2.symbols@.len() {
                    assert(self.symbols@[k] == s2.symbols@[k]);
                    assert(s2.used(s2.symbols@[k].cell as int));
                }
            }
            assert forall|k: int, l: int| 0 <= k < l < self.symbols@.len() implies
                #[trigger] self.symbols@[k].name@ != #[trigger] self.symbols@[l].name@ by {
                if l == s2.symbols@.len() {
                    assert(self.symbols@[k] == s2.symbols@[k]);
                    assert(s0.symbols@.contains(s2.symbols@[k]));
                    let z = choose|z: int| 0 <= z < s0.symbols@.len() && s0.symbols@[z] == s2.symbols@[k];
                    assert(Some(s0.symbols@[z].name@) != symbol_name_of_mv(content));
                } else {
                    assert(self.symbols@[k] == s2.symbols@[k]);
                    assert(self.symbols@[l] == s2.symbols@[l]);
                }
            }
            assert forall|k: int| 0 <= k < self.free@.len() implies
                #[trigger] self.free@[k] < self.cells@.len() && !self.used(self.free@[k] as int) by {
                assert(self.free@[k] == s2.free@[k]);
                assert(s2.free@[k] != s2.free@[s2.free@.len() - 1]);
            }
            assert forall|k: int| 0 <= k < self.retired@.len() implies
                #[trigger] self.retired@[k] < self.cells@.len() && !self.used(self.retired@[k] as int) by {
                assert(s2.free@[s2.free@.len() - 1] != s2.retired@[k]);
            }
            assert forall|i: int| 0 <= i < self.cells@.len() && !self.used(i) implies
                #[trigger] self.free@.contains(i as usize) || self.retired@.contains(i as usize) by {
                assert(i != r as int);
                assert(!s2.used(i));
                if s2.free@.contains(i as usize) {
                    let k = choose|k: int| 0 <= k < s2.free@.len() && s2.free@[k] == i as usize;
                    assert(k != s2.free@.len() - 1);
                    assert(self.free@[k] == i as usize);
                }
            }
            assert forall|k: int, l: int| 0 <= k < l < self.free@.len() implies
                #[trigger] self.free@[k] != #[trigger] self.free@[l] by {
                assert(self.free@[k] == s2.free@[k] && self.free@[l] == s2.free@[l]);
            }
            assert forall|k: int, l: int| 0 <= k < self.free@.len() && 0 <= l < self.retired@.len() implies
                #[trigger] self.free@[k] != #[trigger] self.retired@[l] by {
                assert(self.free@[k] == s2.free@[k]);
            }
            assert(self.modules_wf());
            assert forall|k: int| 0 <= k < s0.symbols@.len() && self.used(#[trigger] s0.symbols@[k].cell as int)
                && s0.symbols@[k].cell != r implies self.symbols@.contains(s0.symbols@[k]) by {
                let c = s0.symbols@[k].cell as int;
                assert(s2.used(c));
                let z = choose|z: int| 0 <= z < s2.symbols@.len() && s2.symbols@[z] == s0.symbols@[k];
                assert(self.symbols@[z] == s0.symbols@[k]);
            }
            if symbol_name_of_mv(content) is Some {
                assert(self.symbols@[self.symbols@.len() - 1] == entry);
            }
        }
        r
    }
}

/// The handles of `keep` and `x`.
fn with_handle(keep: &[GcRef], x: &GcRef) -> (v: Vec<GcRef>)
    ensures
        v@.len() == keep@.len() + 1,
        forall|q: int| 0 <= q < keep@.len() ==> #[trigger] v@[q].ptr() == keep@[q].ptr(),
        v@[keep@.len() as int].ptr() == x.ptr(),
{
    let mut v: Vec<GcRef> = Vec::new();
    let mut z: usize = 0;
    while z < keep.len()
        invariant
            z <= keep@.len(),
            v@.len() == z,
            forall|q: int| 0 <= q < z ==> #[trigger] v@[q].ptr() == keep@[q].ptr(),
        decreases keep@.len() - z,
    {
        v.push(keep[z].clone());
        z = z + 1;
    }
    v.push(x.clone());
    v
}

impl Memory {
    /// `p` if it is nil or points to a used cell, nil otherwise.
    pub fn live_ptr(&self, p: Option<usize>) -> (q: Option<usize>)
        ensures
            q == if self.live(p) { p } else { None },
            self.live(q),
    {
        match p {
            Some(i) => if i < self.cells.len() && self.cells[i].content.is_some() { p } else { None },
            None => None,
        }
    }

    /// An empty memory with `INITIAL_FREE_CELLS` free cells and the module `default`.
    pub fn new() -> (m: Memory)
        ensures
            m.wf(),
            m.used_spec() == 0,
            m.free@.len() == config::INITIAL_FREE_CELLS,
            m.modules@.len() == 1,
            m.modules@[0].name@ == "default"@,
            m.modules@[0].definitions@.len() == 0,
            m.modules@[0].exports is None,
            m.current_module == 0,
            m.symbols@.len() == 0,
    {
        let default_module = Module { name: String::from_str("default"), definitions: Vec::new(), exports: None };
        let mut modules: Vec<Module> = Vec::new();
        modules.push(default_module);
        let mut m = Memory {
            modules,
            current_module: 0,
            symbols: Vec::new(),
            cells: Vec::new(),
            free: Vec::new(),
            retired: Vec::new(),
            next_rank: Ghost(0),
        };
        let mut k: usize = 0;
        while k < config::INITIAL_FREE_CELLS
            invariant
                m.wf(),
                k <= config::INITIAL_FREE_CELLS,
                m.free@.len() == k,
                m.used_spec() == 0,
                m.modules@.len() == 1,
                m.modules@[0].name@ == "default"@,
                m.modules@[0].definitions@.len() == 0,
                m.modules@[0].exports is None,
                m.current_module == 0,
                m.symbols@.len() == 0,
            decreases config::INITIAL_FREE_CELLS - k,
        {
            m.add_free_slot();
            k = k + 1;
        }
        m
    }

    /// Allocates a number, keeping the cells of `keep` alive.
    pub fn allocate_number_keeping(&mut self, number: i64, keep: &[GcRef]) -> (r: GcRef)
        requires
            old(self).wf(),
        ensures
            r.ptr() is Some,
            old(self).allocated(&*final(self), r.ptr()->0),
            old(self).kept(&*final(self), r.ptr()->0, keep@),
            final(self).value_of(r.ptr()) == Some(PrimitiveValue::Number(number)),
    {
        let i = self.allocate_internal(MetaValue::Value(PrimitiveValue::Number(number)), keep);
        self.make_ref(Some(i))
    }

    /// Allocates a number.
    pub fn allocate_number(&mut self, number: i64) -> (r: GcRef)
        requires
            old(self).wf(),
        ensures
            r.ptr() is Some,
            old(self).allocated(&*final(self), r.ptr()->0),
            final(self).value_of(r.ptr()) == Some(PrimitiveValue::Number(number)),
    {
        self.allocate_number_keeping(number, &[])
    }

    /// Allocates a character, keeping the cells of `keep` alive.
    pub fn allocate_character_keeping(&mut self, character: char, keep: &[GcRef]) -> (r: GcRef)
        requires
            old(self).wf(),
        ensures
            r.ptr() is Some,
            old(self).allocated(&*final(self), r.ptr()->0),
            old(self).kept(&*final(self), r.ptr()->0, keep@),
            final(self).value_of(r.ptr()) == Some(PrimitiveValue::Character(character)),
    {
        let i = self.allocate_internal(MetaValue::Value(PrimitiveValue::Character(character)), keep);
        self.make_ref(Some(i))
    }

    /// Allocates a character.
    pub fn allocate_character(&mut self, character: char) -> (r: GcRef)
        requires
            old(self).wf(),
        ensures
            r.ptr() is Some,
            old(self).allocated(&*final(self), r.ptr()->0),
            final(self).value_of(r.ptr()) == Some(PrimitiveValue::Character(character)),
    {
        self.allocate_character_keeping(character, &[])
    }

    /// Allocates a cons cell, keeping the cells of `keep` alive. A component that is not a live
    /// cell becomes nil.
    pub fn allocate_cons_keeping(&mut self, car: GcRef, cdr: GcRef, keep: &[GcRef]) -> (r: GcRef)
        requires
            old(self).wf(),
        ensures
            r.ptr() is Some,
            old(self).allocated(&*final(self), r.ptr()->0),
            old(self).kept(&*final(self), r.ptr()->0, keep@),
            final(self).mv(r.ptr()->0 as int) == MetaValue::Value(PrimitiveValue::Cons(ConsCell {
                car: if old(self).live(car.ptr()) { car.ptr() } else { None },
                cdr: if old(self).live(cdr.ptr()) { cdr.ptr() } else { None },
            })),
            old(self).live(car.ptr()) ==> final(self).live(car.ptr()) && car.ptr() != r.ptr(),
            old(self).live(cdr.ptr()) ==> final(self).live(cdr.ptr()) && cdr.ptr() != r.ptr(),
    {
        let a = self.live_ptr(car.pointer);
        let d = self.live_ptr(cdr.pointer);
        let content = MetaValue::Value(PrimitiveValue::Cons(ConsCell { car: a, cdr: d }));
        proof {
            assert(children(content) =~= seq![a, d]);
        }
        let i = self.allocate_internal(content, keep);
        proof {
            assert(children(content)[0] == a);
            assert(children(content)[1] == d);
        }
        self.make_ref(Some(i))
    }

    /// Allocates a cons cell.
    pub fn allocate_cons(&mut self, car: GcRef, cdr: GcRef) -> (r: GcRef)
        requires
            old(self).wf(),
        ensures
            r.ptr() is Some,
            old(self).allocated(&*final(self), r.ptr()->0),
            final(self).mv(r.ptr()->0 as int) == MetaValue::Value(PrimitiveValue::Cons(ConsCell {
                car: if old(self).live(car.ptr()) { car.ptr() } else { None },
                cdr: if old(self).live(cdr.ptr()) { cdr.ptr() } else { None },
            })),
    {
        self.allocate_cons_keeping(car, cdr, &[])
    }

    /// Allocates a trap, keeping the cells of `keep` alive.
    pub fn allocate_trap_keeping(&mut self, normal_body: GcRef, trap_body: GcRef, keep: &[GcRef]) -> (r: GcRef)
        requires
            old(self).wf(),
        ensures
            r.ptr() is Some,
            old(self).allocated(&*final(self), r.ptr()->0),
            old(self).kept(&*final(self), r.ptr()->0, keep@),
            final(self).mv(r.ptr()->0 as int) == MetaValue::Value(PrimitiveValue::Trap(Trap {
                normal_body: if old(self).live(normal_body.ptr()) { normal_body.ptr() } else { None },
                trap_body: if old(self).live(trap_body.ptr()) { trap_body.ptr() } else { None },
            })),
    {
        let a = self.live_ptr(normal_body.pointer);
        let b = self.live_ptr(trap_body.pointer);
        let content = MetaValue::Value(PrimitiveValue::Trap(Trap { normal_body: a, trap_body: b }));
        proof {
            assert(children(content) =~= seq![a, b]);
        }
        let i = self.allocate_internal(content, keep);
        self.make_ref(Some(i))
    }

    /// Allocates a trap.
    pub fn allocate_trap(&mut self, normal_body: GcRef, trap_body: GcRef) -> (r: GcRef)
        requires
            old(self).wf(),
        ensures
            r.ptr() is Some,
            old(self).allocated(&*final(self), r.ptr()->0),
            final(self).mv(r.ptr()->0 as int) == MetaValue::Value(PrimitiveValue::Trap(Trap {
                normal_body: if old(self).live(normal_body.ptr()) { normal_body.ptr() } else { None },
                trap_body: if old(self).live(trap_body.ptr()) { trap_body.ptr() } else { None },
            })),
    {
        self.allocate_trap_keeping(normal_body, trap_body, &[])
    }

    /// Allocates a metadata cell in front of the value that `x` denotes (looking through a
    /// metadata cell `x` may be), keeping the cells of `keep` alive.
    pub fn allocate_metadata_keeping(&mut self, x: GcRef, md: Metadata, keep: &[GcRef]) -> (r: GcRef)
        requires
            old(self).wf(),
        ensures
            r.ptr() is Some,
            old(self).allocated(&*final(self), r.ptr()->0),
            old(self).kept(&*final(self), r.ptr()->0, keep@),
            final(self).value_of(r.ptr()) == old(self).value_of(x.ptr()),
            final(self).meta_of(r.ptr()) == Some(md),
            old(self).live(x.ptr()) ==> final(self).live(x.ptr()) && x.ptr() != r.ptr(),
    {
        let v = x.clone_without_meta(self);
        let a = self.live_ptr(v.pointer);
        let ghost old_self = *self;
        proof {
            if let Some(i) = x.ptr() {
                if self.used(i as int) {
                    assert(self.cell_wf(i as int));
                    if let MetaValue::Meta { value: Some(j), .. } = self.mv(i as int) {
                        assert(children(self.mv(i as int))[0] == Some(j));
                        assert(self.older_than(children(self.mv(i as int))[0], i as int));
                    }
                }
            }
        }
        let content = MetaValue::Meta { value: a, meta: md };
        proof {
            assert(children(content) =~= seq![a]);
        }
        let ext = with_handle(keep, &x);
        let i = self.allocate_internal(content, &ext);
        proof {
            assert forall|k: int| 0 <= k < keep@.len() && (#[trigger] keep@[k].ptr() matches Some(y) && old_self.used(y as int))
                implies self.used(keep@[k].ptr()->0 as int) && keep@[k].ptr()->0 != i by {
                assert(ext@[k].ptr() == keep@[k].ptr());
            }
            let n = keep@.len() as int;
            assert(ext@[n].ptr() == x.ptr());
            assert(children(content)[0] == a);
            if let Some(j) = a {
                assert(self.used(j as int));
                assert(self.content(j as int) == old_self.content(j as int));
            }
        }
        self.make_ref(Some(i))
    }

    /// Allocates a metadata cell in front of the value that `x` denotes.
    pub fn allocate_metadata(&mut self, x: GcRef, md: Metadata) -> (r: GcRef)
        requires
            old(self).wf(),
        ensures
            r.ptr() is Some,
            old(self).allocated(&*final(self), r.ptr()->0),
            final(self).value_of(r.ptr()) == old(self).value_of(x.ptr()),
            final(self).meta_of(r.ptr()) == Some(md),
    {
        self.allocate_metadata_keeping(x, md, &[])
    }

    /// Allocates a native function.
    pub fn allocate_native_function(&mut self, kind: FunctionKind, parameters: Vec<String>, function: NativeId) -> (r: GcRef)
        requires
            old(self).wf(),
        ensures
            r.ptr() is Some,
            old(self).allocated(&*final(self), r.ptr()->0),
            final(self).mv(r.ptr()->0 as int) == MetaValue::Value(PrimitiveValue::Function(Function::NativeFunction(
                NativeFunction { kind, function, parameters }))),
    {
        let content = MetaValue::Value(PrimitiveValue::Function(Function::NativeFunction(
            NativeFunction { kind, function, parameters })));
        let i = self.allocate_internal(content, &[]);
        self.make_ref(Some(i))
    }
}

impl Memory {
    /// The cell of the named symbol `name`, if one exists.
    pub open spec fn symbol_cell(&self, name: Seq<char>) -> Option<usize> {
        if exists|k: int| 0 <= k < self.symbols@.len() && #[trigger] self.symbols@[k].name@ == name {
            Some(self.symbols@[choose|k: int| 0 <= k < self.symbols@.len() && #[trigger] self.symbols@[k].name@ == name].cell)
        } else {
            None
        }
    }

    fn find_symbol(&self, name: &String) -> (r: Option<usize>)
        requires
            self.wf(),
        ensures
            r == self.symbol_cell(name@),
    {
        let mut k: usize = 0;
        while k < self.symbols.len()
            invariant
                self.wf(),
                k <= self.symbols@.len(),
                forall|q: int| 0 <= q < k ==> #[trigger] self.symbols@[q].name@ != name@,
            decreases self.symbols@.len() - k,
        {
            if self.symbols[k].name == *name {
                proof {
                    let c = choose|q: int| 0 <= q < self.symbols@.len() && #[trigger] self.symbols@[q].name@ == name@;
                    assert(self.symbols_wf());
                    if c != k as int {
                        if c < k as int {
                        } else {
                            assert(self.symbols@[k as int].name@ != self.symbols@[c].name@);
                        }
                    }
                }
                return Some(self.symbols[k].cell);
            }
            k = k + 1;
        }
        None
    }

    /// The symbol named `name`: the existing one, or a new one, keeping the cells of `keep` alive.
    pub fn symbol_for_keeping(&mut self, name: &str, keep: &[GcRef]) -> (r: GcRef)
        requires
            old(self).wf(),
        ensures
            final(self).wf(),
            r.ptr() is Some,
            final(self).symbol_cell(name@) == r.ptr(),
            final(self).mv(r.ptr()->0 as int) matches MetaValue::Value(PrimitiveValue::Symbol(s))
                && s.name matches Some(n) && n@ == name@ && s.own_address == r.ptr()->0,
            old(self).symbol_cell(name@) is Some ==> *final(self) == *old(self) && r.ptr() == old(self).symbol_cell(name@),
            old(self).symbol_cell(name@) is None ==> old(self).allocated(&*final(self), r.ptr()->0)
                && old(self).kept(&*final(self), r.ptr()->0, keep@),
    {
        let n = String::from_str(name);
        match self.find_symbol(&n) {
            Some(c) => {
                proof {
                    let k = choose|k: int| 0 <= k < self.symbols@.len() && #[trigger] self.symbols@[k].name@ == name@;
                    assert(self.symbols@[k].cell == c);
                }
                self.make_ref(Some(c))
            },
            None => {
                let content = MetaValue::Value(PrimitiveValue::Symbol(Symbol { name: Some(n), own_address: 0 }));
                proof {
                    assert forall|k: int| 0 <= k < self.symbols@.len() implies
                        Some(#[trigger] self.symbols@[k].name@) != symbol_name_of_mv(content) by {
                    }
                }
                let i = self.allocate_internal(content, keep);
                proof {
                    let entry = SymbolEntry { name: symbol_string(content), cell: i };
                    assert(self.symbols@.contains(entry));
                    let k = choose|k: int| 0 <= k < self.symbols@.len() && self.symbols@[k] == entry;
                    assert(self.symbols@[k].name@ == name@);
                    let c = choose|q: int| 0 <= q < self.symbols@.len() && #[trigger] self.symbols@[q].name@ == name@;
                    if c != k {
                        if c < k {
                            assert(self.symbols@[c].name@ != self.symbols@[k].name@);
                        } else {
                            assert(self.symbols@[k].name@ != self.symbols@[c].name@);
                        }
                    }
                }
                self.make_ref(Some(i))
            },
        }
    }

    /// The symbol named `name`: the existing one, or a new one.
    pub fn symbol_for(&mut self, name: &str) -> (r: GcRef)
        requires
            old(self).wf(),
        ensures
            final(self).wf(),
            r.ptr() is Some,
            final(self).symbol_cell(name@) == r.ptr(),
            final(self).mv(r.ptr()->0 as int) matches MetaValue::Value(PrimitiveValue::Symbol(s))
                && s.name matches Some(n) && n@ == name@ && s.own_address == r.ptr()->0,
            old(self).symbol_cell(name@) is Some ==> *final(self) == *old(self) && r.ptr() == old(self).symbol_cell(name@),
            old(self).symbol_cell(name@) is None ==> old(self).allocated(&*final(self), r.ptr()->0),
    {
        self.symbol_for_keeping(name, &[])
    }

    /// A new symbol that is equal to no other symbol.
    pub fn unique_symbol(&mut self) -> (r: GcRef)
        requires
            old(self).wf(),
        ensures
            r.ptr() is Some,
            old(self).allocated(&*final(self), r.ptr()->0),
            final(self).mv(r.ptr()->0 as int) == MetaValue::Value(PrimitiveValue::Symbol(Symbol { name: None, own_address: r.ptr()->0 })),
    {
        let content = MetaValue::Value(PrimitiveValue::Symbol(Symbol { name: None, own_address: 0 }));
        let i = self.allocate_internal(content, &[]);
        self.make_ref(Some(i))
    }

    /// Allocates a function defined in Lisp, keeping the cells of `keep` alive. Pointers that are
    /// not live become nil.
    pub fn allocate_normal_function_keeping(&mut self, kind: FunctionKind, has_rest_params: bool, body: GcRef,
        params: &[GcRef], environment: GcRef, environment_module: &str, keep: &[GcRef]) -> (r: GcRef)
        requires
            old(self).wf(),
        ensures
            r.ptr() is Some,
            old(self).allocated(&*final(self), r.ptr()->0),
            old(self).kept(&*final(self), r.ptr()->0, keep@),
            final(self).mv(r.ptr()->0 as int) matches MetaValue::Value(PrimitiveValue::Function(Function::NormalFunction(f)))
                && f.kind == kind && f.has_rest_params == has_rest_params
                && f.body == (if old(self).live(body.ptr()) { body.ptr() } else { None })
                && f.environment == (if old(self).live(environment.ptr()) { environment.ptr() } else { None })
                && f.environment_module@ == environment_module@
                && f.parameters@ == params@.map_values(|p: GcRef| if old(self).live(p.ptr()) { p.ptr() } else { None }),
    {
        let b = self.live_ptr(body.pointer);
        let e = self.live_ptr(environment.pointer);
        let mut ps: Vec<Option<usize>> = Vec::new();
        let mut k: usize = 0;
        while k < params.len()
            invariant
                k <= params@.len(),
                ps@ == params@.subrange(0, k as int).map_values(|p: GcRef| if self.live(p.ptr()) { p.ptr() } else { None }),
            decreases params@.len() - k,
        {
            ps.push(self.live_ptr(params[k].pointer));
            k = k + 1;
            assert(ps@ =~= params@.subrange(0, k as int).map_values(|p: GcRef| if self.live(p.ptr()) { p.ptr() } else { None }));
        }
        assert(params@.subrange(0, k as int) =~= params@);
        let f = NormalFunction {
            kind,
            has_rest_params,
            parameters: ps,
            body: b,
            environment: e,
            environment_module: String::from_str(environment_module),
        };
        let content = MetaValue::Value(PrimitiveValue::Function(Function::NormalFunction(f)));
        proof {
            let kids = children(content);
            assert forall|q: int| 0 <= q < kids.len() implies #[trigger] self.live(kids[q]) by {
                if q >= 2 {
                    assert(kids[q] == ps@[q - 2]);
                }
            }
        }
        let i = self.allocate_internal(content, keep);
        self.make_ref(Some(i))
    }

    /// Allocates a function defined in Lisp. Pointers that are not live become nil.
    pub fn allocate_normal_function(&mut self, kind: FunctionKind, has_rest_params: bool, body: GcRef,
        params: &[GcRef], environment: GcRef, environment_module: &str) -> (r: GcRef)
        requires
            old(self).wf(),
        ensures
            r.ptr() is Some,
            old(self).allocated(&*final(self), r.ptr()->0),
            final(self).mv(r.ptr()->0 as int) matches MetaValue::Value(PrimitiveValue::Function(Function::NormalFunction(f)))
                && f.kind == kind && f.has_rest_params == has_rest_params
                && f.body == (if old(self).live(body.ptr()) { body.ptr() } else { None })
                && f.environment == (if old(self).live(environment.ptr()) { environment.ptr() } else { None })
                && f.environment_module@ == environment_module@
                && f.parameters@ == params@.map_values(|p: GcRef| if old(self).live(p.ptr()) { p.ptr() } else { None }),
    {
        self.allocate_normal_function_keeping(kind, has_rest_params, body, params, environment, environment_module, &[])
    }
}

// ---------------------------------------------------------------------------------------------
// How the heap evolves across allocations
// ---------------------------------------------------------------------------------------------

impl Memory {
    /// Every cell that `new` uses either holds what it held in `self`, or was allocated after
    /// `self` (its age is at least `self`'s age counter).
    pub open spec fn evolves(&self, new: &Memory) -> bool {
        &&& new.wf()
        &&& new.next_rank@ >= self.next_rank@
        &&& forall|i: int| #[trigger] new.used(i) ==>
                (self.used(i) && new.content(i) == self.content(i)) || new.rank(i) >= self.next_rank@
    }

    /// The cell `p` points to holds the same content in `self` and `new` (trivially so for nil).
    pub open spec fn unchanged(&self, new: &Memory, p: Option<usize>) -> bool {
        match p {
            None => true,
            Some(i) => self.used(i as int) && new.used(i as int) && new.content(i as int) == self.content(i as int),
        }
    }

    /// `p` is nil, or a live pointer of `self` that `new` keeps unchanged.
    pub open spec fn keeps(&self, new: &Memory, p: Option<usize>) -> bool {
        self.live(p) ==> self.unchanged(new, p)
    }

    pub proof fn lemma_evolves_refl(&self)
        requires
            self.wf(),
        ensures
            self.evolves(self),
    {
    }

    pub proof fn lemma_evolves_trans(&self, mid: &Memory, new: &Memory)
        requires
            self.evolves(mid),
            mid.evolves(new),
        ensures
            self.evolves(new),
    {
        assert forall|i: int| #[trigger] new.used(i) implies
            (self.used(i) && new.content(i) == self.content(i)) || new.rank(i) >= self.next_rank@ by {
            if mid.used(i) && new.content(i) == mid.content(i) {
                assert(mid.rank(i) == new.rank(i));
            }
        }
    }

    pub proof fn lemma_allocated_evolves(&self, new: &Memory, r: usize)
        requires
            self.wf(),
            self.allocated(new, r),
        ensures
            self.evolves(new),
    {
    }

    pub proof fn lemma_unchanged_trans(&self, mid: &Memory, new: &Memory, p: Option<usize>)
        requires
            self.unchanged(mid, p),
            mid.unchanged(new, p),
        ensures
            self.unchanged(new, p),
    {
    }

    /// A pointer stored in an unchanged cell points to an unchanged cell.
    pub proof fn lemma_child_unchanged(&self, new: &Memory, i: usize, k: int)
        requires
            self.wf(),
            self.evolves(new),
            self.unchanged(new, Some(i)),
            0 <= k < children(self.mv(i as int)).len(),
        ensures
            self.unchanged(new, children(self.mv(i as int))[k]),
    {
        let ii = i as int;
        let kids = children(self.mv(ii));
        assert(self.used(ii));
        assert(self.cell_wf(ii));
        assert(self.older_than(kids[k], ii));
        if let Some(j) = kids[k] {
            assert(new.used(ii));
            assert(new.cell_wf(ii));
            assert(new.older_than(children(new.mv(ii))[k], ii));
            assert(new.used(j as int));
            assert(new.rank(j as int) < new.rank(ii));
            assert(new.rank(ii) == self.rank(ii));
            assert(self.rank(ii) < self.next_rank@);
        }
    }

    /// An unchanged pointer denotes the same value.
    pub proof fn lemma_value_unchanged(&self, new: &Memory, p: Option<usize>)
        requires
            self.wf(),
            self.evolves(new),
            self.unchanged(new, p),
        ensures
            new.value_of(p) == self.value_of(p),
            new.value_cell(p) == self.value_cell(p),
            new.meta_of(p) == self.meta_of(p),
    {
        if let Some(i) = p {
            if let MetaValue::Meta { value: Some(j), .. } = self.mv(i as int) {
                assert(children(self.mv(i as int))[0] == Some(j));
                self.lemma_child_unchanged(new, i, 0);
            }
        }
    }
}

/// The pointers of a content, as a vector.
fn content_children(mv: &MetaValue) -> (v: Vec<Option<usize>>)
    ensures
        v@ == children(*mv),
{
    let mut v: Vec<Option<usize>> = Vec::new();
    match mv {
        MetaValue::Meta { value, .. } => {
            v.push(*value);
        },
        MetaValue::Value(PrimitiveValue::Cons(cons)) => {
            v.push(cons.car);
            v.push(cons.cdr);
        },
        MetaValue::Value(PrimitiveValue::Trap(t)) => {
            v.push(t.normal_body);
            v.push(t.trap_body);
        },
        MetaValue::Value(PrimitiveValue::Function(Function::NormalFunction(f))) => {
            v.push(f.body);
            v.push(f.environment);
            let mut k: usize = 0;
            while k < f.parameters.len()
                invariant
                    k <= f.parameters@.len(),
                    v@ == seq![f.body, f.environment] + f.parameters@.subrange(0, k as int),
                decreases f.parameters@.len() - k,
            {
                v.push(f.parameters[k]);
                k = k + 1;
                assert(v@ =~= seq![f.body, f.environment] + f.parameters@.subrange(0, k as int));
            }
            assert(f.parameters@.subrange(0, k as int) =~= f.parameters@);
        },
        _ => {},
    }
    assert(v@ =~= children(*mv));
    v
}

/// The name of a content that is a named symbol.
pub open spec fn symbol_name_of_mv(mv: MetaValue) -> Option<Seq<char>> {
    match mv {
        MetaValue::Value(v) => symbol_name_of(v),
        _ => None,
    }
}

/// The name string of a content that is a named symbol.
pub open spec fn symbol_string(mv: MetaValue) -> String {
    match mv {
        MetaValue::Value(PrimitiveValue::Symbol(s)) => s.name->0,
        _ => arbitrary(),
    }
}

fn content_symbol_name(mv: &MetaValue) -> (r: Option<String>)
    ensures
        r is Some <==> symbol_name_of_mv(*mv) is Some,
        r matches Some(n) ==> n@ == symbol_name_of_mv(*mv)->0 && n == symbol_string(*mv),
{
    match mv {
        MetaValue::Value(PrimitiveValue::Symbol(s)) => match &s.name {
            Some(n) => Some(n.clone()),
            None => None,
        },
        _ => None,
    }
}

/// A sequence of distinct numbers below `n` has at most `n` elements.
pub proof fn lemma_distinct_below(s: Seq<usize>, n: int)
    requires
        n >= 0,
        forall|k: int| 0 <= k < s.len() ==> #[trigger] s[k] < n,
        forall|k: int, l: int| 0 <= k < l < s.len() ==> #[trigger] s[k] != #[trigger] s[l],
    ensures
        s.len() <= n,
    decreases s.len(),
{
    if s.len() > 0 {
        let x = s.last();
        let t = s.drop_last();
        let u = t.map_values(|y: usize| if y > x { (y - 1) as usize } else { y });
        assert forall|k: int| 0 <= k < u.len() implies #[trigger] u[k] < n - 1 by {
            assert(t[k] == s[k]);
            assert(s[k] != s[s.len() - 1]);
        }
        assert forall|k: int, l: int| 0 <= k < l < u.len() implies #[trigger] u[k] != #[trigger] u[l] by {
            assert(t[k] == s[k] && t[l] == s[l]);
            assert(s[k] != s[s.len() - 1] && s[l] != s[s.len() - 1]);
        }
        assert(s[0] < n);
        lemma_distinct_below(u, n - 1);
        assert(u.len() == s.len() - 1);
    }
}

/// The number of `true` entries.
pub open spec fn count_true(s: Seq<bool>) -> nat
    decreases s.len(),
{
    if s.len() == 0 {
        0
    } else {
        count_true(s.drop_last()) + if s.last() { 1nat } else { 0nat }
    }
}

proof fn lemma_count_true_bound(s: Seq<bool>)
    ensures
        count_true(s) <= s.len(),
    decreases s.len(),
{
    if s.len() > 0 {
        lemma_count_true_bound(s.drop_last());
    }
}

proof fn lemma_count_true_set(s: Seq<bool>, j: int)
    requires
        0 <= j < s.len(),
        !s[j],
    ensures
        count_true(s.update(j, true)) == count_true(s) + 1,
        count_true(s.update(j, true)) <= s.len(),
    decreases s.len(),
{
    let t = s.update(j, true);
    if j == s.len() - 1 {
        assert(t.drop_last() =~= s.drop_last());
    } else {
        assert(t.drop_last() =~= s.drop_last().update(j, true));
        lemma_count_true_set(s.drop_last(), j);
    }
    lemma_count_true_bound(t);
}


/// The name of a function kind.
pub open spec fn kind_name(k: FunctionKind) -> Seq<char> {
    match k {
        FunctionKind::Macro => "macro"@,
        FunctionKind::Lambda => "lambda"@,
    }
}

impl FunctionKind {
    /// The name of the kind: `macro` or `lambda`.
    pub fn to_string(&self) -> (r: &'static str)
        ensures
            r@ == kind_name(*self),
    {
        match self {
            FunctionKind::Macro => "macro",
            FunctionKind::Lambda => "lambda",
        }
    }
}

/// The name of a type, as the symbols that name types spell it.
pub open spec fn type_label_name(t: TypeLabel) -> Seq<char> {
    match t {
        TypeLabel::Any => "any-type"@,
        TypeLabel::Nil => "nil-type"@,
        TypeLabel::Number => "number-type"@,
        TypeLabel::Character => "character-type"@,
        TypeLabel::Cons => "conscell-type"@,
        TypeLabel::List => "list-type"@,
        TypeLabel::String => "string-type"@,
        TypeLabel::Symbol => "symbol-type"@,
        TypeLabel::Function => "function-type"@,
        TypeLabel::Trap => "trap-type"@,
    }
}

impl TypeLabel {
    /// The name of the type, such as `number-type`.
    pub fn to_string(self) -> (r: &'static str)
        ensures
            r@ == type_label_name(self),
    {
        match self {
            TypeLabel::Any => "any-type",
            TypeLabel::Nil => "nil-type",
            TypeLabel::Number => "number-type",
            TypeLabel::Character => "character-type",
            TypeLabel::Cons => "conscell-type",
            TypeLabel::List => "list-type",
            TypeLabel::String => "string-type",
            TypeLabel::Symbol => "symbol-type",
            TypeLabel::Function => "function-type",
            TypeLabel::Trap => "trap-type",
        }
    }
}
} // verus!
