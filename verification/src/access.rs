//! Reading the parts of values: the components of cons cells, traps and functions.

use vstd::prelude::*;
use crate::memory::{Memory, GcRef, PrimitiveValue, ConsCell, Symbol, NormalFunction, NativeFunction, Function,
    FunctionKind, Trap, NativeId};
use crate::native::globals::{symbol_key, key_of, symbol_key_of};
use crate::text::{push_str, push_decimal, decimal};

verus! {

impl ConsCell {
    /// A handle on the first component.
    pub fn get_car(&self, mem: &Memory) -> (r: GcRef)
        ensures
            r.ptr() == self.car,
    {
        mem.make_ref(self.car)
    }

    /// A handle on the second component.
    pub fn get_cdr(&self, mem: &Memory) -> (r: GcRef)
        ensures
            r.ptr() == self.cdr,
    {
        mem.make_ref(self.cdr)
    }
}

/// Two symbols are the same symbol when they live in the same cell.
impl PartialEq for Symbol {
    fn eq(&self, other: &Self) -> (r: bool) {
        self.own_address == other.own_address
    }
}

impl vstd::std_specs::cmp::PartialEqSpecImpl for Symbol {
    open spec fn obeys_eq_spec() -> bool {
        true
    }

    open spec fn eq_spec(&self, other: &Self) -> bool {
        self.own_address == other.own_address
    }
}

impl Eq for Symbol {}

impl Symbol {
    /// The name of the symbol; for a symbol without one, a text made from the cell it lives in.
    pub fn get_name(&self) -> (r: String)
        ensures
            r@ == symbol_key(*self),
    {
        match &self.name {
            Some(n) => n.clone(),
            None => {
                let mut t = String::new();
                push_str(&mut t, "#<symbol-");
                push_decimal(&mut t, self.own_address as u64);
                push_str(&mut t, ">");
                proof { assert(t@ =~= "#<symbol-"@ + decimal(self.own_address as nat) + ">"@); }
                t
            },
        }
    }
}

/// The number of parameters that are not the rest parameter.
pub open spec fn fixed_params(f: NormalFunction) -> int {
    if f.has_rest_params && f.parameters@.len() > 0 { f.parameters@.len() - 1 } else { f.parameters@.len() as int }
}

/// The function has a rest parameter.
pub open spec fn has_rest(f: NormalFunction) -> bool {
    f.has_rest_params && f.parameters@.len() > 0
}

/// A walk over the parameters of a function that are not its rest parameter.
pub struct ParameterIterator<'a> {
    pub function: &'a NormalFunction,
    pub index: usize,
}

impl<'a> ParameterIterator<'a> {
    /// A walk that starts at the first parameter of `function`.
    pub fn new(function: &'a NormalFunction) -> (r: Self)
        ensures
            r.function == function,
            r.index == 0,
    {
        ParameterIterator { function, index: 0 }
    }

    /// The next parameter that is not the rest parameter, or `None` after the last.
    pub fn next(&mut self, mem: &Memory) -> (r: Option<GcRef>)
        ensures
            final(self).function == old(self).function,
            old(self).index < fixed_params(*old(self).function) ==> (r matches Some(p)
                && p.ptr() == old(self).function.parameters@[old(self).index as int]
                && final(self).index == old(self).index + 1),
            old(self).index >= fixed_params(*old(self).function) ==> (r is None
                && final(self).index == old(self).index),
    {
        let n = if self.function.has_rest_params && self.function.parameters.len() > 0 {
            self.function.parameters.len() - 1
        } else {
            self.function.parameters.len()
        };
        if self.index < n {
            let p = mem.make_ref(self.function.parameters[self.index]);
            self.index = self.index + 1;
            Some(p)
        } else {
            None
        }
    }
}

impl NormalFunction {
    /// A handle on the body.
    pub fn get_body(&self, mem: &Memory) -> (r: GcRef)
        ensures
            r.ptr() == self.body,
    {
        mem.make_ref(self.body)
    }

    /// Handles on the parameters that are not the rest parameter.
    pub fn non_rest_params(&self, mem: &Memory) -> (r: Vec<GcRef>)
        ensures
            r@.len() == fixed_params(*self),
            forall|q: int| 0 <= q < r@.len() ==> #[trigger] r@[q].ptr() == self.parameters@[q],
    {
        let n = if self.has_rest_params && self.parameters.len() > 0 { self.parameters.len() - 1 } else { self.parameters.len() };
        let mut r: Vec<GcRef> = Vec::new();
        let mut k: usize = 0;
        while k < n
            invariant
                n == fixed_params(*self),
                n <= self.parameters@.len(),
                k <= n,
                r@.len() == k,
                forall|q: int| 0 <= q < k ==> #[trigger] r@[q].ptr() == self.parameters@[q],
            decreases n - k,
        {
            r.push(mem.make_ref(self.parameters[k]));
            k = k + 1;
        }
        r
    }

    /// A handle on the rest parameter, if the function has one.
    pub fn rest_param(&self, mem: &Memory) -> (r: Option<GcRef>)
        ensures
            r is Some <==> has_rest(*self),
            r matches Some(p) ==> p.ptr() == self.parameters@.last(),
    {
        if self.has_rest_params && self.parameters.len() > 0 {
            Some(mem.make_ref(self.parameters[self.parameters.len() - 1]))
        } else {
            None
        }
    }

    /// Handles on all the parameters.
    pub fn get_params(&self, mem: &Memory) -> (r: Vec<GcRef>)
        ensures
            r@.len() == self.parameters@.len(),
            forall|q: int| 0 <= q < r@.len() ==> #[trigger] r@[q].ptr() == self.parameters@[q],
    {
        let mut r: Vec<GcRef> = Vec::new();
        let mut k: usize = 0;
        while k < self.parameters.len()
            invariant
                k <= self.parameters@.len(),
                r@.len() == k,
                forall|q: int| 0 <= q < k ==> #[trigger] r@[q].ptr() == self.parameters@[q],
            decreases self.parameters@.len() - k,
        {
            r.push(mem.make_ref(self.parameters[k]));
            k = k + 1;
        }
        r
    }

    /// Whether the function is a macro or a lambda.
    pub fn get_kind(&self) -> (r: FunctionKind)
        ensures
            r == self.kind,
    {
        self.kind
    }

    /// A handle on the environment the function closes over.
    pub fn get_env(&self, mem: &Memory) -> (r: GcRef)
        ensures
            r.ptr() == self.environment,
    {
        mem.make_ref(self.environment)
    }

    /// The name of the module the function was made in.
    pub fn get_env_module(&self) -> (r: String)
        ensures
            r@ == self.environment_module@,
    {
        self.environment_module.clone()
    }
}

impl NativeFunction {
    /// The function is the native function `function`.
    pub fn is_the_same_as(&self, function: NativeId) -> (r: bool)
        ensures
            r == (self.function == function),
    {
        self.function == function
    }
}

/// The kind of a function.
pub open spec fn function_kind(f: Function) -> FunctionKind {
    match f {
        Function::NormalFunction(nf) => nf.kind,
        Function::NativeFunction(nf) => nf.kind,
    }
}

/// The name of a parameter of a function defined in Lisp.
pub open spec fn param_name(mem: &Memory, p: Option<usize>) -> Seq<char> {
    match key_of(mem, p) {
        Some(k) => k,
        None => "#<invalid-parameter-name>"@,
    }
}

/// The names of the parameters of `f`: for a function defined in Lisp the names of its fixed
/// parameters, then `&` and the name of its rest parameter where it has one.
pub open spec fn param_names(mem: &Memory, f: Function) -> Seq<Seq<char>> {
    match f {
        Function::NativeFunction(nf) => nf.parameters@.map_values(|s: String| s@),
        Function::NormalFunction(nf) => {
            let fixed = nf.parameters@.take(fixed_params(nf)).map_values(|p: Option<usize>| param_name(mem, p));
            if has_rest(nf) {
                fixed + seq!["&"@, param_name(mem, nf.parameters@.last())]
            } else {
                fixed
            }
        },
    }
}

/// The name of the parameter `p`.
fn param_name_of(mem: &Memory, p: Option<usize>) -> (r: String)
    ensures
        r@ == param_name(mem, p),
{
    match symbol_key_of(mem, &mem.make_ref(p)) {
        Some(k) => k,
        None => String::from_str("#<invalid-parameter-name>"),
    }
}

impl Function {
    /// The function defined in Lisp that this is.
    pub fn as_normal_function(&self) -> (r: &NormalFunction)
        requires
            self is NormalFunction,
        ensures
            *self == Function::NormalFunction(*r),
    {
        match self {
            Function::NormalFunction(nf) => nf,
            Function::NativeFunction(_) => vstd::pervasive::unreached(),
        }
    }

    /// Whether the function is a macro or a lambda.
    pub fn get_kind(&self) -> (r: FunctionKind)
        ensures
            r == function_kind(*self),
    {
        match self {
            Function::NormalFunction(nf) => nf.kind,
            Function::NativeFunction(nf) => nf.kind,
        }
    }

    /// A handle on the body; nil for a native function.
    pub fn get_body(&self, mem: &Memory) -> (r: GcRef)
        ensures
            r.ptr() == match self {
                Function::NormalFunction(nf) => nf.body,
                Function::NativeFunction(_) => None,
            },
    {
        match self {
            Function::NormalFunction(nf) => nf.get_body(mem),
            Function::NativeFunction(_) => GcRef::nil(),
        }
    }

    /// A handle on the environment; nil for a native function.
    pub fn get_env(&self, mem: &Memory) -> (r: GcRef)
        ensures
            r.ptr() == match self {
                Function::NormalFunction(nf) => nf.environment,
                Function::NativeFunction(_) => None,
            },
    {
        match self {
            Function::NormalFunction(nf) => nf.get_env(mem),
            Function::NativeFunction(_) => GcRef::nil(),
        }
    }

    /// The module the function was made in; empty for a native function.
    pub fn get_module(&self) -> (r: String)
        ensures
            r@ == match self {
                Function::NormalFunction(nf) => nf.environment_module@,
                Function::NativeFunction(_) => Seq::empty(),
            },
    {
        match self {
            Function::NormalFunction(nf) => nf.get_env_module(),
            Function::NativeFunction(_) => String::new(),
        }
    }

    /// The names of the parameters.
    pub fn get_param_names(&self, mem: &Memory) -> (r: Vec<String>)
        ensures
            r@.map_values(|s: String| s@) == param_names(mem, *self),
    {
        match self {
            Function::NormalFunction(nf) => {
                let n = if nf.has_rest_params && nf.parameters.len() > 0 { nf.parameters.len() - 1 } else { nf.parameters.len() };
                let mut names: Vec<String> = Vec::new();
                let mut k: usize = 0;
                while k < n
                    invariant
                        n == fixed_params(*nf),
                        n <= nf.parameters@.len(),
                        k <= n,
                        names@.map_values(|s: String| s@) == nf.parameters@.take(k as int).map_values(|p: Option<usize>| param_name(mem, p)),
                    decreases n - k,
                {
                    let ghost before = names@;
                    names.push(param_name_of(mem, nf.parameters[k]));
                    proof {
                        assert(nf.parameters@.take(k + 1) =~= nf.parameters@.take(k as int).push(nf.parameters@[k as int]));
                        assert(names@.map_values(|s: String| s@) =~= before.map_values(|s: String| s@).push(names@[k as int]@));
                        assert(nf.parameters@.take(k + 1).map_values(|p: Option<usize>| param_name(mem, p)) =~=
                            nf.parameters@.take(k as int).map_values(|p: Option<usize>| param_name(mem, p)).push(param_name(mem, nf.parameters@[k as int])));
                    }
                    k = k + 1;
                }
                if nf.has_rest_params && nf.parameters.len() > 0 {
                    let ghost before = names@;
                    names.push(String::from_str("&"));
                    names.push(param_name_of(mem, nf.parameters[nf.parameters.len() - 1]));
                    proof {
                        assert(names@.map_values(|s: String| s@) =~= before.map_values(|s: String| s@)
                            + seq!["&"@, param_name(mem, nf.parameters@.last())]);
                    }
                }
                names
            },
            Function::NativeFunction(nf) => {
                let mut names: Vec<String> = Vec::new();
                let mut k: usize = 0;
                while k < nf.parameters.len()
                    invariant
                        k <= nf.parameters@.len(),
                        names@.map_values(|s: String| s@) == nf.parameters@.take(k as int).map_values(|s: String| s@),
                    decreases nf.parameters@.len() - k,
                {
                    let ghost before = names@;
                    names.push(nf.parameters[k].clone());
                    proof {
                        assert(names@.map_values(|s: String| s@) =~= before.map_values(|s: String| s@).push(names@[k as int]@));
                        assert(nf.parameters@.take(k + 1) =~= nf.parameters@.take(k as int).push(nf.parameters@[k as int]));
                        assert(nf.parameters@.take(k + 1).map_values(|s: String| s@) =~=
                            nf.parameters@.take(k as int).map_values(|s: String| s@).push(nf.parameters@[k as int]@));
                    }
                    k = k + 1;
                }
                proof { assert(nf.parameters@.take(k as int) =~= nf.parameters@); }
                names
            },
        }
    }
}

impl Trap {
    /// A handle on the normal body.
    pub fn get_normal_body(&self, mem: &Memory) -> (r: GcRef)
        ensures
            r.ptr() == self.normal_body,
    {
        mem.make_ref(self.normal_body)
    }

    /// A handle on the trap body.
    pub fn get_trap_body(&self, mem: &Memory) -> (r: GcRef)
        ensures
            r.ptr() == self.trap_body,
    {
        mem.make_ref(self.trap_body)
    }
}

impl PrimitiveValue {
    /// The number this value is.
    pub fn as_number(&self) -> (r: &i64)
        requires
            self is Number,
        ensures
            *self == PrimitiveValue::Number(*r),
    {
        match self {
            PrimitiveValue::Number(n) => n,
            _ => vstd::pervasive::unreached(),
        }
    }

    /// The character this value is.
    pub fn as_character(&self) -> (r: &char)
        requires
            self is Character,
        ensures
            *self == PrimitiveValue::Character(*r),
    {
        match self {
            PrimitiveValue::Character(c) => c,
            _ => vstd::pervasive::unreached(),
        }
    }

    /// The cons cell this value is.
    pub fn as_conscell(&self) -> (r: &ConsCell)
        requires
            self is Cons,
        ensures
            *self == PrimitiveValue::Cons(*r),
    {
        match self {
            PrimitiveValue::Cons(c) => c,
            _ => vstd::pervasive::unreached(),
        }
    }

    /// The symbol this value is.
    pub fn as_symbol(&self) -> (r: &Symbol)
        requires
            self is Symbol,
        ensures
            *self == PrimitiveValue::Symbol(*r),
    {
        match self {
            PrimitiveValue::Symbol(s) => s,
            _ => vstd::pervasive::unreached(),
        }
    }

    /// The function this value is.
    pub fn as_function(&self) -> (r: &Function)
        requires
            self is Function,
        ensures
            *self == PrimitiveValue::Function(*r),
    {
        match self {
            PrimitiveValue::Function(f) => f,
            _ => vstd::pervasive::unreached(),
        }
    }

    /// The trap this value is.
    pub fn as_trap(&self) -> (r: &Trap)
        requires
            self is Trap,
        ensures
            *self == PrimitiveValue::Trap(*r),
    {
        match self {
            PrimitiveValue::Trap(t) => t,
            _ => vstd::pervasive::unreached(),
        }
    }
}

} // verus!
