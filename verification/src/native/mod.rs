//! The functions the interpreter provides to Lisp programs, and their registration.

pub mod list;
pub mod numbers;
pub mod read;
pub mod misc;
pub mod print;
pub mod globals;
pub mod signal;
pub mod reflection;
pub mod eval;
pub mod repl;

use vstd::prelude::*;
use crate::memory::{Memory, NativeId, FunctionKind, PrimitiveValue, Function, NativeFunction};
use crate::metadata::{Metadata, Location};

verus! {

/// The native functions that are bound when the interpreter starts, in the order they are bound.
pub open spec fn registered_natives() -> Seq<NativeId> {
    seq![
        NativeId::Cons,
        NativeId::Car,
        NativeId::Cdr,
        NativeId::List,
        NativeId::GetProperty,
        NativeId::Unrest,
        NativeId::Signal,
        NativeId::Read,
        NativeId::MakeTrap,
        NativeId::MakeFunction,
        NativeId::CallNativeFunction,
        NativeId::Macroexpand,
        NativeId::Eval,
        NativeId::LoadAll,
        NativeId::Print,
        NativeId::Add,
        NativeId::Substract,
        NativeId::Multiply,
        NativeId::Divide,
        NativeId::Define,
        NativeId::Undefine,
        NativeId::Whereis,
        NativeId::Export,
        NativeId::GetCurrentModule,
        NativeId::TypeOf,
        NativeId::GetBody,
        NativeId::GetMetadata,
        NativeId::Gensym,
        NativeId::Equal,
    ]
}

/// The global name of a native function.
pub open spec fn native_name(id: NativeId) -> Seq<char> {
    match id {
        NativeId::Cons => "cons"@,
        NativeId::Car => "car"@,
        NativeId::Cdr => "cdr"@,
        NativeId::List => "list"@,
        NativeId::GetProperty => "get-property"@,
        NativeId::Unrest => "unrest"@,
        NativeId::Signal => "signal"@,
        NativeId::Read => "read"@,
        NativeId::MakeTrap => "make-trap"@,
        NativeId::MakeFunction => "make-function"@,
        NativeId::CallNativeFunction => "call-native-function"@,
        NativeId::Macroexpand => "macroexpand"@,
        NativeId::Eval => "eval"@,
        NativeId::LoadAll => "load-all"@,
        NativeId::Print => "print"@,
        NativeId::Add => "add"@,
        NativeId::Substract => "substract"@,
        NativeId::Multiply => "multiply"@,
        NativeId::Divide => "divide"@,
        NativeId::Define => "define"@,
        NativeId::Undefine => "undefine"@,
        NativeId::Whereis => "whereis"@,
        NativeId::Export => "export"@,
        NativeId::GetCurrentModule => "get-current-module"@,
        NativeId::TypeOf => "type-of"@,
        NativeId::GetBody => "get-body"@,
        NativeId::GetMetadata => "get-metadata"@,
        NativeId::Gensym => "gensym"@,
        NativeId::Equal => "="@,
        NativeId::Macro => "macro"@,
        NativeId::WithCurrentModule => "with-current-module"@,
        NativeId::FromModule => "from-module"@,
        NativeId::Less => "<"@,
        NativeId::Greater => ">"@,
        NativeId::Trap => "trap"@,
    }
}

/// The kind of a native function: `macro` is a macro, the others are lambdas.
pub open spec fn native_kind(id: NativeId) -> FunctionKind {
    match id {
        NativeId::Macro => FunctionKind::Macro,
        _ => FunctionKind::Lambda,
    }
}

/// The global name and the documentation of a native function.
fn native_text(id: NativeId) -> (r: (&'static str, &'static str))
    ensures
        r.0@ == native_name(id),
{
    match id {
        NativeId::Cons => ("cons", "Create a new cons-cell with `car` and `cdr` as its two components."),
        NativeId::Car => ("car", "Return the car of `cons`. Error if `cons` is not actually a cons-cell."),
        NativeId::Cdr => ("cdr", "Return the cdr of `cons`. Error if `cons` is not actually a cons-cell."),
        NativeId::List => ("list", "Return a newly created list with specified arguments as elements.\nAllows any number of arguments, including zero."),
        NativeId::GetProperty => ("get-property", "Return the value associated with `key` in `plist`.\nReturn nil of no value is associated with `key`.\nError if `plist` is not a valid property-list."),
        NativeId::Unrest => ("unrest", "Transform `f` so that its last parameter is a normal list and not a rest-parameter.\nIf `f` doesn't have rest-paramteres then it will remain unchanged."),
        NativeId::Signal => ("signal", "Emit the signal `signal`."),
        NativeId::Read => ("read", "Converts a Lisp-style string to an AST.\n\nOnly reads the shortest prefix of the input string that is a valid AST.\n\nReturns a property list which always contains at least a `status` key.\nThe `status` key can have one of the following values:\n * `ok`:         Success. The key `result` is the AST.\n * `nothing`:    The input was empty or only contained whitespace.\n * `incomplete`: The input is not a valid AST, but can be the beginning of a valid AST.\n * `error`:      The input is not a valid AST, not even the beginning of one. The `error` key contains the error details.\n * `invalid`:    The input is not a valid string.\n\nWhenever there is a `rest` key, the `line` and `column` keys are also present,\nwhose values are respectively the first line and column of the rest of the input.\n\n`source`, `start-line` and `start-column` describe where we are reading from.\nPossible values of `source`:\n * prelude\n * stdin\n * a string representing a file-path."),
        NativeId::MakeTrap => ("make-trap", "Manually construct a trap object from `normal-body` and `trap-body`."),
        NativeId::MakeFunction => ("make-function", "Manually construct a function-object form the given arguments.\n`kind` is either `lambda-type` or `macro-type`."),
        NativeId::CallNativeFunction => ("call-native-function", "Call the native function `function` with `arguments` and `environment` as its local environment."),
        NativeId::Macroexpand => ("macroexpand", "Expand macros in `object`."),
        NativeId::Eval => ("eval", "Expand macros in `object` then evaluate `object`."),
        NativeId::LoadAll => ("load-all", "Read, macroexpand and evaluate all expressions in `string` in sequential order.\nError if `string` is not a valid string."),
        NativeId::Print => ("print", "Convert `input` to its string representation."),
        NativeId::Add => ("add", "Return the sum of `x` and `y`.\nError if the additon results in overflow."),
        NativeId::Substract => ("substract", "Return the difference of `x` and `y`.\nError if the substraction results in overflow."),
        NativeId::Multiply => ("multiply", "Return the product of `x` and `y`.\nError if the multiplication results in overflow."),
        NativeId::Divide => ("divide", "Return the quotient of `x` and `y`.\nError if `y` is 0."),
        NativeId::Define => ("define", "Define the symbol `name` as a global constant with `value` as its value\nand the string `documentation` as the documentation field of its metadata.\nError if a global constant is already defined with the same name."),
        NativeId::Undefine => ("undefine", "Delete the global constant associated with the symbol `name`, if any."),
        NativeId::Whereis => ("whereis", "Return a list of modules where `name` is defined."),
        NativeId::Export => ("export", ""),
        NativeId::GetCurrentModule => ("get-current-module", "Get current module."),
        NativeId::TypeOf => ("type-of", "Return a symbol representing the type of `object`."),
        NativeId::GetBody => ("get-body", "Return a list whose single element is the body of `function` if it isn't a native function.\nIf `function` is a native function then return nil."),
        NativeId::GetMetadata => ("get-metadata", "Return all metadata stored about `object` in a property-list."),
        NativeId::Gensym => ("gensym", "GENerate a unique SYMbol.\nIt is guaranteed that there never has been and never will be a symbol\nthat is equal to the returned symbol."),
        NativeId::Equal => ("=", "Return`t` if `x` and `y` are equal in type and value, otherwise return nil."),
        NativeId::Macro => ("macro", "Create a macro function with `parameters` and `body`.\nMacros are expanded before runtime,\nand their arguments are not evaluated."),
        NativeId::WithCurrentModule => ("with-current-module", "Get value bound to `name`.\nIf it is defined in `module` then get it even if it is private."),
        NativeId::FromModule => ("from-module", "Get value bound to `name` defined in `module`."),
        NativeId::Less => ("<", "Return t if and only if `x` is less than `y`."),
        NativeId::Greater => (">", "Return t if and only if `x` is greater than `y`."),
        NativeId::Trap => ("trap", "Create a trap with `normal-body` and `trap-body`.\nWhen a trap is evaluated,\nfirst the normal body is evaluated.\nIf during the evaluation of the normal body a signal is emitted,\nthe evaluation is tranfered to the trap body\nwhere the symbol *trapped-signal* is bound to the emitted signal.\nIf no signal is emitted during the evaluation of the normal body\nthen the trap body is never evaluated."),
    }
}

/// The kind of a native function.
fn native_kind_of(id: NativeId) -> (k: FunctionKind)
    ensures
        k == native_kind(id),
{
    match id {
        NativeId::Macro => FunctionKind::Macro,
        _ => FunctionKind::Lambda,
    }
}

/// The names of the parameters of a native function, as its documentation lists them.
pub open spec fn native_parameter_names(id: NativeId) -> Seq<Seq<char>> {
    match id {
        NativeId::Cons => seq!["car"@, "cdr"@],
        NativeId::Car => seq!["cons"@],
        NativeId::Cdr => seq!["cons"@],
        NativeId::List => seq!["&"@, "objects"@],
        NativeId::GetProperty => seq!["key"@, "plist"@],
        NativeId::Unrest => seq!["f"@],
        NativeId::Signal => seq!["signal"@],
        NativeId::Read => seq!["input"@, "&"@, "source"@, "start-line"@, "start-column"@],
        NativeId::MakeTrap => seq!["normal-body"@, "trap-body"@],
        NativeId::MakeFunction => seq!["params"@, "body"@, "environment"@, "environment-module"@, "kind"@],
        NativeId::CallNativeFunction => seq!["function"@, "arguments"@, "environment"@],
        NativeId::Macroexpand => seq!["object"@],
        NativeId::Eval => seq!["object"@],
        NativeId::LoadAll => seq!["string"@, "source"@],
        NativeId::Print => seq!["input"@],
        NativeId::Add => seq!["x"@, "y"@],
        NativeId::Substract => seq!["x"@, "y"@],
        NativeId::Multiply => seq!["x"@, "y"@],
        NativeId::Divide => seq!["x"@, "y"@],
        NativeId::Define => seq!["name"@, "value"@, "documentation"@],
        NativeId::Undefine => seq!["name"@],
        NativeId::Whereis => seq!["name"@],
        NativeId::Export => seq!["names"@],
        NativeId::GetCurrentModule => seq![],
        NativeId::TypeOf => seq!["object"@],
        NativeId::GetBody => seq!["function"@],
        NativeId::GetMetadata => seq!["object"@],
        NativeId::Gensym => seq![],
        NativeId::Equal => seq!["x"@, "y"@],
        NativeId::Macro => seq!["parameters"@, "body"@],
        NativeId::WithCurrentModule => seq!["name"@, "module"@],
        NativeId::FromModule => seq!["name"@, "module"@],
        NativeId::Less => seq!["x"@, "y"@],
        NativeId::Greater => seq!["x"@, "y"@],
        NativeId::Trap => seq!["normal-body"@, "trap-body"@],
        NativeId::GetCurrentModule => Seq::empty(),
        NativeId::Gensym => Seq::empty(),
    }
}

/// The names of the parameters of a native function.
fn native_parameters(id: NativeId) -> (ps: Vec<String>)
    ensures
        ps@.map_values(|s: String| s@) == native_parameter_names(id),
{
    let mut ps: Vec<String> = Vec::new();
    match id {
        NativeId::Cons => {
            ps.push(String::from_str("car"));
            ps.push(String::from_str("cdr"));
        },
        NativeId::Car => {
            ps.push(String::from_str("cons"));
        },
        NativeId::Cdr => {
            ps.push(String::from_str("cons"));
        },
        NativeId::List => {
            ps.push(String::from_str("&"));
            ps.push(String::from_str("objects"));
        },
        NativeId::GetProperty => {
            ps.push(String::from_str("key"));
            ps.push(String::from_str("plist"));
        },
        NativeId::Unrest => {
            ps.push(String::from_str("f"));
        },
        NativeId::Signal => {
            ps.push(String::from_str("signal"));
        },
        NativeId::Read => {
            ps.push(String::from_str("input"));
            ps.push(String::from_str("&"));
            ps.push(String::from_str("source"));
            ps.push(String::from_str("start-line"));
            ps.push(String::from_str("start-column"));
        },
        NativeId::MakeTrap => {
            ps.push(String::from_str("normal-body"));
            ps.push(String::from_str("trap-body"));
        },
        NativeId::MakeFunction => {
            ps.push(String::from_str("params"));
            ps.push(String::from_str("body"));
            ps.push(String::from_str("environment"));
            ps.push(String::from_str("environment-module"));
            ps.push(String::from_str("kind"));
        },
        NativeId::CallNativeFunction => {
            ps.push(String::from_str("function"));
            ps.push(String::from_str("arguments"));
            ps.push(String::from_str("environment"));
        },
        NativeId::Macroexpand => {
            ps.push(String::from_str("object"));
        },
        NativeId::Eval => {
            ps.push(String::from_str("object"));
        },
        NativeId::LoadAll => {
            ps.push(String::from_str("string"));
            ps.push(String::from_str("source"));
        },
        NativeId::Print => {
            ps.push(String::from_str("input"));
        },
        NativeId::Add => {
            ps.push(String::from_str("x"));
            ps.push(String::from_str("y"));
        },
        NativeId::Substract => {
            ps.push(String::from_str("x"));
            ps.push(String::from_str("y"));
        },
        NativeId::Multiply => {
            ps.push(String::from_str("x"));
            ps.push(String::from_str("y"));
        },
        NativeId::Divide => {
            ps.push(String::from_str("x"));
            ps.push(String::from_str("y"));
        },
        NativeId::Define => {
            ps.push(String::from_str("name"));
            ps.push(String::from_str("value"));
            ps.push(String::from_str("documentation"));
        },
        NativeId::Undefine => {
            ps.push(String::from_str("name"));
        },
        NativeId::Whereis => {
            ps.push(String::from_str("name"));
        },
        NativeId::Export => {
            ps.push(String::from_str("names"));
        },
        NativeId::GetCurrentModule => {},
        NativeId::TypeOf => {
            ps.push(String::from_str("object"));
        },
        NativeId::GetBody => {
            ps.push(String::from_str("function"));
        },
        NativeId::GetMetadata => {
            ps.push(String::from_str("object"));
        },
        NativeId::Gensym => {},
        NativeId::Equal => {
            ps.push(String::from_str("x"));
            ps.push(String::from_str("y"));
        },
        NativeId::Macro => {
            ps.push(String::from_str("parameters"));
            ps.push(String::from_str("body"));
        },
        NativeId::WithCurrentModule => {
            ps.push(String::from_str("name"));
            ps.push(String::from_str("module"));
        },
        NativeId::FromModule => {
            ps.push(String::from_str("name"));
            ps.push(String::from_str("module"));
        },
        NativeId::Less => {
            ps.push(String::from_str("x"));
            ps.push(String::from_str("y"));
        },
        NativeId::Greater => {
            ps.push(String::from_str("x"));
            ps.push(String::from_str("y"));
        },
        NativeId::Trap => {
            ps.push(String::from_str("normal-body"));
            ps.push(String::from_str("trap-body"));
        },
    }
    proof { assert(ps@.map_values(|s: String| s@) =~= native_parameter_names(id)); }
    ps
}

/// What describes a native function: which one it is, its global name, its kind, its
/// documentation and the names of its parameters.
pub struct NativeFunctionMetaData {
    pub function: NativeId,
    pub name: &'static str,
    pub kind: FunctionKind,
    pub documentation: &'static str,
    pub parameters: Vec<String>,
}

/// The description of the native function `id`.
pub fn native_metadata(id: NativeId) -> (r: NativeFunctionMetaData)
    ensures
        r.function == id,
        r.name@ == native_name(id),
        r.kind == native_kind(id),
        r.parameters@.map_values(|s: String| s@) == native_parameter_names(id),
{
    let (name, documentation) = native_text(id);
    NativeFunctionMetaData {
        function: id,
        name,
        kind: native_kind_of(id),
        documentation,
        parameters: native_parameters(id),
    }
}

/// Binds the native function that `nfmd` describes in the current module, under its name, with
/// metadata that names it and says it is native.
pub fn load_native_function(mem: &mut Memory, nfmd: NativeFunctionMetaData)
    requires
        old(mem).wf(),
    ensures
        old(mem).evolves(&*final(mem)),
        final(mem).current_module == old(mem).current_module,
        final(mem).modules@ == old(mem).modules@.update(old(mem).current_module as int, final(mem).current()),
        final(mem).current().name == old(mem).current().name,
        final(mem).current().lookup(nfmd.name@) is Some,
        ({
            let p = final(mem).current().lookup(nfmd.name@)->0;
            &&& final(mem).value_of(p) matches Some(PrimitiveValue::Function(Function::NativeFunction(nf)))
            &&& final(mem).value_of(p)->0->Function_0->NativeFunction_0.function == nfmd.function
            &&& final(mem).value_of(p)->0->Function_0->NativeFunction_0.kind == nfmd.kind
            &&& final(mem).meta_of(p) matches Some(md)
            &&& final(mem).meta_of(p)->0.read_name@ == nfmd.name@
            &&& final(mem).meta_of(p)->0.location == Location::Native
            &&& final(mem).meta_of(p)->0.documentation@ == nfmd.documentation@
        }),
        forall|n: Seq<char>| n != nfmd.name@ ==> #[trigger] final(mem).current().lookup(n) == old(mem).current().lookup(n),
{
    let ghost m0 = *mem;
    let name = nfmd.name;
    let nf = mem.allocate_native_function(nfmd.kind, nfmd.parameters, nfmd.function);
    let ghost m1 = *mem;
    let md = Metadata {
        read_name: String::from_str(name),
        location: Location::Native,
        documentation: String::from_str(nfmd.documentation),
    };
    let f = mem.allocate_metadata(nf, md);
    let ghost m2 = *mem;
    proof {
        m0.lemma_allocated_evolves(&m1, nf.ptr()->0);
        m1.lemma_allocated_evolves(&m2, f.ptr()->0);
        m0.lemma_evolves_trans(&m1, &m2);
    }
    mem.define_global(name, f);
    proof {
        m2.lemma_same_heap_evolves(&*mem);
        m0.lemma_evolves_trans(&m2, &*mem);
        assert(mem.current().lookup(nfmd.name@) == Some(f.ptr()));
    }
}

/// Binds the native functions in the module `native`, then makes the module that was current
/// current again.
pub fn load_native_functions(mem: &mut Memory)
    requires
        old(mem).wf(),
    ensures
        old(mem).evolves(&*final(mem)),
        final(mem).current().name@ == old(mem).current().name@,
        exists|k: int| 0 <= k < final(mem).modules@.len() && (#[trigger] final(mem).modules@[k]).name@ == "native"@
            && forall|j: int| 0 <= j < registered_natives().len() ==>
                final(mem).modules@[k].lookup(native_name(#[trigger] registered_natives()[j])) is Some,
{
    let ghost m0 = *mem;
    let old_module = mem.get_current_module();
    mem.define_module("native");
    proof {
        m0.lemma_same_heap_evolves(&*mem);
        if m0.current().name@ != "native"@ {
            assert(mem.modules@.contains(m0.modules@[m0.current_module as int]));
        }
    }
    let ids: Vec<NativeId> = vec![
        NativeId::Cons,
        NativeId::Car,
        NativeId::Cdr,
        NativeId::List,
        NativeId::GetProperty,
        NativeId::Unrest,
        NativeId::Signal,
        NativeId::Read,
        NativeId::MakeTrap,
        NativeId::MakeFunction,
        NativeId::CallNativeFunction,
        NativeId::Macroexpand,
        NativeId::Eval,
        NativeId::LoadAll,
        NativeId::Print,
        NativeId::Add,
        NativeId::Substract,
        NativeId::Multiply,
        NativeId::Divide,
        NativeId::Define,
        NativeId::Undefine,
        NativeId::Whereis,
        NativeId::Export,
        NativeId::GetCurrentModule,
        NativeId::TypeOf,
        NativeId::GetBody,
        NativeId::GetMetadata,
        NativeId::Gensym,
        NativeId::Equal,
    ];
    proof { assert(ids@ =~= registered_natives()); }
    let mut k: usize = 0;
    while k < ids.len()
        invariant
            m0.wf(),
            m0.evolves(&*mem),
            ids@ == registered_natives(),
            k <= ids@.len(),
            mem.current().name@ == "native"@,
            exists|q: int| 0 <= q < mem.modules@.len() && (#[trigger] mem.modules@[q]).name@ == m0.current().name@,
            forall|j: int| 0 <= j < k ==> mem.current().lookup(native_name(#[trigger] ids@[j])) is Some,
        decreases ids@.len() - k,
    {
        let ghost m1 = *mem;
        load_native_function(mem, native_metadata(ids[k]));
        proof {
            m0.lemma_evolves_trans(&m1, &*mem);
            let q = choose|q: int| 0 <= q < m1.modules@.len() && (#[trigger] m1.modules@[q]).name@ == m0.current().name@;
            assert(mem.modules@[q].name@ == m0.current().name@);
            assert forall|j: int| 0 <= j < k + 1 implies mem.current().lookup(native_name(#[trigger] ids@[j])) is Some by {
                if j < k {
                    if native_name(ids@[j]) != native_name(ids@[k as int]) {
                        assert(mem.current().lookup(native_name(ids@[j])) == m1.current().lookup(native_name(ids@[j])));
                    }
                }
            }
        }
        k = k + 1;
    }
    let ghost m2 = *mem;
    let ghost idx = mem.current_module as int;
    let _ = mem.set_current_module(old_module.as_str());
    proof {
        m2.lemma_same_heap_evolves(&*mem);
        m0.lemma_evolves_trans(&m2, &*mem);
        let q = choose|q: int| 0 <= q < m2.modules@.len() && (#[trigger] m2.modules@[q]).name@ == m0.current().name@;
        m2.lemma_module_index(q);
        assert(mem.modules@[idx].name@ == "native"@);
        assert(forall|j: int| 0 <= j < registered_natives().len() ==>
            mem.modules@[idx].lookup(native_name(#[trigger] registered_natives()[j])) is Some);
    }
}

} // verus!
