//! Compile-time evaluation: fold a parser `Expr` to a `Value` (an integer or a
//! byte string). `crc8` is the ABI's CRC-8, so a folded CRC byte is the exact
//! value the wire uses. Pure: identical source folds to identical bytes.
//!
//! This module also owns the semantics both callables share: [`Env`], the
//! lexical scope model (the module's `const`s plus the innermost call's
//! parameters, looked up locals-first; defaults evaluated in module scope with
//! the callee counted as already being expanded), and [`bind_args`], the
//! argument binder that `fn` and `proc` share.
use vstd::prelude::*;

use crate::abi::crc8::{crc8, spec_crc8};
use crate::assembler::diagnostics::{span_copy, Diagnostic, Span};
use crate::lang::parser::{distinct_params, expr_span, spelling_of, Arg, BinOp, Expr, FnDef, Param, Type};
use crate::text::{push_dec, push_int, spec_dec, spec_int_text, str_eq};

verus! {

/// A folded compile-time value.
#[derive(Debug, PartialEq, Eq)]
pub enum Value {
    /// An integer (byte values are `Int`s range-checked at use sites).
    Int(i64),
    /// A byte string.
    Bytes(Vec<u8>),
}

/// A compile-time value as the contracts see it.
pub enum Val {
    /// An integer.
    Int(i64),
    /// A byte string.
    Bytes(Seq<u8>),
}

impl View for Value {
    type V = Val;

    open spec fn view(&self) -> Val {
        match self {
            Value::Int(n) => Val::Int(*n),
            Value::Bytes(b) => Val::Bytes(b@),
        }
    }
}

impl Value {
    /// A copy of the value.
    pub fn copy(&self) -> (res: Value)
        ensures
            res@ == self@,
    {
        match self {
            Value::Int(n) => Value::Int(*n),
            Value::Bytes(b) => Value::Bytes(vstd::slice::slice_to_vec(b.as_slice())),
        }
    }
}

/// Is `name` a compile-time builtin (`crc8`, `len`, `lo`, `hi`)? A user `fn`
/// may not take one of these names.
pub open spec fn is_builtin(name: Seq<char>) -> bool {
    name == "crc8"@ || name == "len"@ || name == "lo"@ || name == "hi"@
}

/// Is `name` a compile-time builtin?
pub fn builtin(name: &str) -> (res: bool)
    ensures
        res == is_builtin(name@),
{
    str_eq(name, "crc8") || str_eq(name, "len") || str_eq(name, "lo") || str_eq(name, "hi")
}

/// The compile-time environment threaded through evaluation: the module's
/// `const`s and `fn`s, the parameters bound by the innermost call, and the
/// chain of expansions in progress (innermost last), which is what makes
/// recursion detectable.
#[derive(Debug)]
pub struct Env {
    consts: Vec<(String, Value)>,
    locals: Vec<(String, Value)>,
    fns: Vec<FnDef>,
    active: Vec<String>,
}

/// A name-to-value list, as the contracts see it.
pub type Scope = Seq<(Seq<char>, Val)>;

/// The contract view of a name-to-value list.
pub open spec fn scope_of(list: Seq<(String, Value)>) -> Scope {
    list.map_values(|p: (String, Value)| (p.0@, p.1@))
}

/// The first binding of `name` in an association list.
pub open spec fn assoc(list: Scope, name: Seq<char>) -> Option<Val>
    decreases list.len(),
{
    if list.len() == 0 {
        None
    } else if list[0].0 == name {
        Some(list[0].1)
    } else {
        assoc(list.subrange(1, list.len() as int), name)
    }
}

/// Lookup in a scope: the innermost parameters first, then the module
/// `const`s.
pub open spec fn scope_lookup(consts: Scope, locals: Scope, name: Seq<char>) -> Option<Val> {
    match assoc(locals, name) {
        Some(v) => Some(v),
        None => assoc(consts, name),
    }
}

/// The index of the first `fn` named `name`.
pub open spec fn fn_index(fns: Seq<FnDef>, name: Seq<char>) -> Option<int>
    decreases fns.len(),
{
    if fns.len() == 0 {
        None
    } else if fns.last().name@ == name {
        match fn_index(fns.drop_last(), name) {
            Some(k) => Some(k),
            None => Some(fns.len() - 1),
        }
    } else {
        fn_index(fns.drop_last(), name)
    }
}

/// `name` is on the chain of expansions in progress.
pub open spec fn on_chain(active: Seq<Seq<char>>, name: Seq<char>) -> bool {
    exists|k: int| 0 <= k < active.len() && #[trigger] active[k] == name
}

/// The names on a chain of expansions.
pub open spec fn chain_of(active: Seq<String>) -> Seq<Seq<char>> {
    active.map_values(|s: String| s@)
}

/// The `fn`s of the table not yet being expanded: the bound on how deep
/// expansion can still go.
pub open spec fn fuel(fns: Seq<FnDef>, active: Seq<Seq<char>>) -> nat
    decreases fns.len(),
{
    if fns.len() == 0 {
        0
    } else {
        fuel(fns.drop_last(), active) + if on_chain(active, fns.last().name@) {
            0nat
        } else {
            1nat
        }
    }
}

/// The `fn` names of a table are distinct.
pub open spec fn distinct_fns(fns: Seq<FnDef>) -> bool {
    forall|a: int, b: int| 0 <= a < b < fns.len() ==> #[trigger] fns[a].name@ != #[trigger] fns[b].name@
}

/// Pushing a name onto the chain never raises the fuel, lowers it by at most one
/// (names are distinct), and lowers it when it is an inactive `fn`.
pub proof fn lemma_fuel_push(fns: Seq<FnDef>, active: Seq<Seq<char>>, n: Seq<char>)
    requires
        distinct_fns(fns),
    ensures
        fuel(fns, active.push(n)) <= fuel(fns, active) <= fuel(fns, active.push(n)) + 1,
        fn_index(fns, n) is None ==> fuel(fns, active.push(n)) == fuel(fns, active),
        (fn_index(fns, n) is Some && !on_chain(active, n)) ==> fuel(fns, active.push(n)) < fuel(
            fns,
            active,
        ),
    decreases fns.len(),
{
    if fns.len() > 0 {
        let p = fns.drop_last();
        assert(distinct_fns(p)) by {
            assert forall|a: int, b: int| 0 <= a < b < p.len() implies #[trigger] p[a].name@
                != #[trigger] p[b].name@ by {
                assert(p[a] == fns[a] && p[b] == fns[b]);
            }
        }
        lemma_fuel_push(p, active, n);
        let last = fns.last().name@;
        let pushed = active.push(n);
        assert(on_chain(pushed, last) <==> (on_chain(active, last) || n == last)) by {
            if on_chain(pushed, last) {
                let k = choose|k: int| 0 <= k < pushed.len() && #[trigger] pushed[k] == last;
                if k < active.len() {
                    assert(active[k] == pushed[k]);
                }
            }
            if on_chain(active, last) {
                let k = choose|k: int| 0 <= k < active.len() && #[trigger] active[k] == last;
                assert(pushed[k] == active[k]);
            }
            if n == last {
                assert(pushed[active.len() as int] == n);
            }
        }
        if n == last {
            lemma_fn_index_none(p, n, fns);
        }
    }
}

pub proof fn lemma_fn_index_none(p: Seq<FnDef>, name: Seq<char>, fns: Seq<FnDef>)
    requires
        distinct_fns(fns),
        fns.len() > 0,
        p == fns.drop_last(),
        fns.last().name@ == name,
    ensures
        fn_index(p, name) is None,
{
    lemma_fn_index_found(p, name);
    if fn_index(p, name) is Some {
        let k = fn_index(p, name)->0;
        assert(p[k] == fns[k]);
        assert(fns[k].name@ != fns[fns.len() - 1].name@);
    }
}

/// Recursion is rejected: a call to a `fn` that is already being expanded
/// (directly, through another `fn`, or through a parameter default) is an
/// error, whatever its arguments.
pub proof fn lemma_recursive_call_rejected(
    consts: Scope,
    fns: Seq<FnDef>,
    locals: Scope,
    active: Seq<Seq<char>>,
    func: Seq<char>,
    args: Seq<Arg>,
)
    requires
        !is_builtin(func),
        on_chain(active, func),
    ensures
        spec_call(consts, fns, locals, active, func, args) is Err,
{
    lemma_fn_index_found(fns, func);
}

/// What `fn_index` finds is a `fn` of that name; when it finds none there is none.
pub proof fn lemma_fn_index_found(fns: Seq<FnDef>, name: Seq<char>)
    ensures
        fn_index(fns, name) matches Some(k) ==> 0 <= k < fns.len() && fns[k].name@ == name,
        fn_index(fns, name) is None ==> forall|k: int| 0 <= k < fns.len() ==> #[trigger] fns[k].name@ != name,
    decreases fns.len(),
{
    if fns.len() > 0 {
        let p = fns.drop_last();
        lemma_fn_index_found(p, name);
        if fn_index(fns, name) is None {
            assert forall|k: int| 0 <= k < fns.len() implies #[trigger] fns[k].name@ != name by {
                if k < p.len() {
                    assert(p[k] == fns[k]);
                }
            }
        }
        if fn_index(p, name) is Some {
            let k = fn_index(p, name)->0;
            assert(p[k] == fns[k]);
        }
    }
}

/// A value has a declared type: a `byte` is an integer in `0..=255`.
pub open spec fn type_ok(v: Val, ty: Type) -> bool {
    match (ty, v) {
        (Type::Bytes, Val::Bytes(_)) => true,
        (Type::Int, Val::Int(_)) => true,
        (Type::Byte, Val::Int(n)) => 0 <= n <= 255,
        _ => false,
    }
}

/// A well-formed environment: its `fn` names are distinct.
pub open spec fn env_ok(fns: Seq<FnDef>) -> bool {
    distinct_fns(fns)
}

/// The value of an expression in a scope: `consts` and `fns` of the module,
/// `locals` of the innermost call, `active` the expansions in progress.
/// `Err` when evaluation reports an error.
pub open spec fn spec_eval(
    consts: Scope,
    fns: Seq<FnDef>,
    locals: Scope,
    active: Seq<Seq<char>>,
    e: Expr,
) -> Result<Val, ()>
    decreases 2 * fuel(fns, active), e, 0nat,
{
    if !env_ok(fns) {
        Err(())
    } else {
        match e {
            Expr::Int { value, .. } => Ok(Val::Int(value)),
            Expr::Name { name, .. } => match scope_lookup(consts, locals, name@) {
                Some(v) => Ok(v),
                None => Err(()),
            },
            Expr::Bytes { elems, .. } => match spec_eval_elems(consts, fns, locals, active, elems@) {
                Ok(b) => Ok(Val::Bytes(b)),
                Err(_) => Err(()),
            },
            Expr::Binary { op, lhs, rhs, .. } => {
                let a = spec_eval(consts, fns, locals, active, *lhs);
                let b = spec_eval(consts, fns, locals, active, *rhs);
                match (op, a, b) {
                    (BinOp::Concat, Ok(Val::Bytes(x)), Ok(Val::Bytes(y))) => Ok(Val::Bytes(x + y)),
                    (BinOp::Xor, Ok(Val::Int(x)), Ok(Val::Int(y))) => Ok(Val::Int(x ^ y)),
                    _ => Err(()),
                }
            },
            Expr::Call { func, args, .. } => spec_call(consts, fns, locals, active, func@, args@),
        }
    }
}

/// The bytes of a list of byte-valued elements.
pub open spec fn spec_eval_elems(
    consts: Scope,
    fns: Seq<FnDef>,
    locals: Scope,
    active: Seq<Seq<char>>,
    es: Seq<Expr>,
) -> Result<Seq<u8>, ()>
    decreases 2 * fuel(fns, active), es, 0nat,
{
    if es.len() == 0 {
        Ok(Seq::empty())
    } else {
        match (
            spec_eval(consts, fns, locals, active, es[0]),
            spec_eval_elems(consts, fns, locals, active, es.subrange(1, es.len() as int)),
        ) {
            (Ok(Val::Int(n)), Ok(rest)) => if 0 <= n <= 255 {
                Ok(seq![n as u8] + rest)
            } else {
                Err(())
            },
            _ => Err(()),
        }
    }
}

/// A call: a builtin on its single positional argument, else a `fn` of the
/// table that is not already being expanded, on its bound arguments, with
/// the body's value checked against the declared return type.
pub open spec fn spec_call(
    consts: Scope,
    fns: Seq<FnDef>,
    locals: Scope,
    active: Seq<Seq<char>>,
    func: Seq<char>,
    args: Seq<Arg>,
) -> Result<Val, ()>
    decreases 2 * fuel(fns, active), args, args.len() + 2,
{
    if is_builtin(func) {
        if args.len() != 1 || args[0].name is Some {
            Err(())
        } else {
            match spec_eval(consts, fns, locals, active, args[0].value) {
                Ok(Val::Bytes(b)) => if func == "crc8"@ {
                    Ok(Val::Int(spec_crc8(b) as i64))
                } else if func == "len"@ {
                    Ok(Val::Int(b.len() as i64))
                } else {
                    Err(())
                },
                Ok(Val::Int(n)) => if func == "lo"@ {
                    Ok(Val::Int(n & 0xff))
                } else if func == "hi"@ {
                    Ok(Val::Int((n >> 8u64) & 0xff))
                } else {
                    Err(())
                },
                Err(_) => Err(()),
            }
        }
    } else {
        match fn_index(fns, func) {
            None => Err(()),
            Some(k) => {
                if !env_ok(fns) || !(0 <= k < fns.len()) || on_chain(active, fns[k].name@) {
                    Err(())
                } else {
                    let f = fns[k];
                    proof {
                        lemma_fn_index_found(fns, func);
                        lemma_fuel_push(fns, active, f.name@);
                    }
                    match spec_bind(consts, fns, locals, active, f.name@, f.params@, args) {
                        Err(_) => Err(()),
                        Ok(bound) => {
                            match spec_eval(consts, fns, bound, active.push(f.name@), f.body) {
                                Ok(v) => if type_ok(v, f.ret) {
                                    Ok(v)
                                } else {
                                    Err(())
                                },
                                Err(_) => Err(()),
                            }
                        },
                    }
                }
            },
        }
    }
}

/// The parameter an argument at index `i` binds, given the arguments before
/// it: positional ones bind in declaration order and may not follow a named
/// one; a named one binds the first parameter of that name.
pub open spec fn arg_param(params: Seq<Param>, args: Seq<Arg>, i: int) -> Option<int> {
    match args[i].name {
        None => if (exists|j: int| 0 <= j < i && (#[trigger] args[j]).name is Some) || i >= params.len() {
            None
        } else {
            Some(i)
        },
        Some(n) => first_param(params, n@, 0),
    }
}

/// The index of the first parameter named `n`, from `k` on.
pub open spec fn first_param(params: Seq<Param>, n: Seq<char>, k: int) -> Option<int>
    decreases params.len() - k,
{
    if k < 0 || k >= params.len() {
        None
    } else if params[k].name@ == n {
        Some(k)
    } else {
        first_param(params, n, k + 1)
    }
}

/// Binding: the arguments from index `i` on, appended to `bound`, then every
/// parameter left unbound takes its default, evaluated in module scope with
/// the callee on the chain.
pub open spec fn spec_bind_from(
    consts: Scope,
    fns: Seq<FnDef>,
    locals: Scope,
    active: Seq<Seq<char>>,
    callee: Seq<char>,
    params: Seq<Param>,
    args: Seq<Arg>,
    i: int,
    bound: Scope,
) -> Result<Scope, ()>
    decreases 2 * fuel(fns, active.push(callee)) + 2, args, args.len() - i,
{
    if !env_ok(fns) {
        Err(())
    } else if i < 0 || i >= args.len() {
        spec_defaults(consts, fns, active, callee, params, 0, bound)
    } else {
        match arg_param(params, args, i) {
            None => Err(()),
            Some(p) => if !(0 <= p < params.len()) || bound_has(bound, params[p].name@) {
                Err(())
            } else {
                proof {
                    lemma_fuel_push(fns, active, callee);
                }
                match spec_eval(consts, fns, locals, active, args[i].value) {
                    Ok(v) => if type_ok(v, params[p].ty) {
                        spec_bind_from(
                            consts,
                            fns,
                            locals,
                            active,
                            callee,
                            params,
                            args,
                            i + 1,
                            bound.push((params[p].name@, v)),
                        )
                    } else {
                        Err(())
                    },
                    Err(_) => Err(()),
                }
            },
        }
    }
}

/// `name` is already bound.
pub open spec fn bound_has(bound: Scope, name: Seq<char>) -> bool {
    exists|k: int| 0 <= k < bound.len() && #[trigger] bound[k].0 == name
}

/// The defaults of the parameters from index `k` on that are still unbound.
pub open spec fn spec_defaults(
    consts: Scope,
    fns: Seq<FnDef>,
    active: Seq<Seq<char>>,
    callee: Seq<char>,
    params: Seq<Param>,
    k: int,
    bound: Scope,
) -> Result<Scope, ()>
    decreases 2 * fuel(fns, active.push(callee)) + 1, params, params.len() - k,
{
    if k < 0 || k >= params.len() {
        Ok(bound)
    } else if bound_has(bound, params[k].name@) {
        spec_defaults(consts, fns, active, callee, params, k + 1, bound)
    } else {
        match params[k].default {
            None => Err(()),
            Some(d) => match spec_eval(consts, fns, Seq::empty(), active.push(callee), d) {
                Ok(v) => if type_ok(v, params[k].ty) {
                    spec_defaults(consts, fns, active, callee, params, k + 1, bound.push((params[k].name@, v)))
                } else {
                    Err(())
                },
                Err(_) => Err(()),
            },
        }
    }
}

/// Every entry of `sc` binds some parameter's name to a value of that
/// parameter's type.
pub open spec fn entries_typed(params: Seq<Param>, sc: Scope) -> bool {
    forall|q: int|
        0 <= q < sc.len() ==> exists|p: int|
            0 <= p < params.len() && #[trigger] params[p].name@ == (#[trigger] sc[q]).0 && type_ok(
                sc[q].1,
                params[p].ty,
            )
}

/// Every name bound in `a` is bound in `b`.
pub open spec fn names_kept(a: Scope, b: Scope) -> bool {
    forall|n: Seq<char>| #[trigger] bound_has(a, n) ==> bound_has(b, n)
}

proof fn lemma_push_typed(params: Seq<Param>, sc: Scope, p: int, v: Val)
    requires
        entries_typed(params, sc),
        0 <= p < params.len(),
        type_ok(v, params[p].ty),
    ensures
        entries_typed(params, sc.push((params[p].name@, v))),
        names_kept(sc, sc.push((params[p].name@, v))),
        bound_has(sc.push((params[p].name@, v)), params[p].name@),
{
    let sc2 = sc.push((params[p].name@, v));
    assert forall|q: int| 0 <= q < sc2.len() implies exists|r: int|
        0 <= r < params.len() && #[trigger] params[r].name@ == (#[trigger] sc2[q]).0 && type_ok(
            sc2[q].1,
            params[r].ty,
        ) by {
        if q < sc.len() {
            assert(sc2[q] == sc[q]);
        } else {
            assert(params[p].name@ == sc2[q].0);
        }
    }
    assert forall|n: Seq<char>| #[trigger] bound_has(sc, n) implies bound_has(sc2, n) by {
        let k = choose|k: int| 0 <= k < sc.len() && #[trigger] sc[k].0 == n;
        assert(sc2[k] == sc[k]);
    }
    assert(sc2[sc.len() as int].0 == params[p].name@);
}

proof fn lemma_defaults_bind_all(
    consts: Scope,
    fns: Seq<FnDef>,
    active: Seq<Seq<char>>,
    callee: Seq<char>,
    params: Seq<Param>,
    k: int,
    bound: Scope,
    sc: Scope,
)
    requires
        0 <= k,
        entries_typed(params, bound),
        spec_defaults(consts, fns, active, callee, params, k, bound) == Ok::<Scope, ()>(sc),
    ensures
        entries_typed(params, sc),
        names_kept(bound, sc),
        forall|p: int| k <= p < params.len() ==> bound_has(sc, #[trigger] params[p].name@),
    decreases params.len() - k,
{
    if k < params.len() {
        if bound_has(bound, params[k].name@) {
            lemma_defaults_bind_all(consts, fns, active, callee, params, k + 1, bound, sc);
        } else {
            let d = params[k].default->0;
            let v = spec_eval(consts, fns, Seq::empty(), active.push(callee), d)->Ok_0;
            lemma_push_typed(params, bound, k, v);
            let b2 = bound.push((params[k].name@, v));
            lemma_defaults_bind_all(consts, fns, active, callee, params, k + 1, b2, sc);
        }
    }
}

/// A binding that goes through binds every parameter, each to a value of its
/// declared type, and binds nothing else.
pub proof fn lemma_bind_covers_params(
    consts: Scope,
    fns: Seq<FnDef>,
    locals: Scope,
    active: Seq<Seq<char>>,
    callee: Seq<char>,
    params: Seq<Param>,
    args: Seq<Arg>,
    sc: Scope,
)
    requires
        spec_bind(consts, fns, locals, active, callee, params, args) == Ok::<Scope, ()>(sc),
    ensures
        entries_typed(params, sc),
        forall|p: int| 0 <= p < params.len() ==> bound_has(sc, #[trigger] params[p].name@),
{
    lemma_bind_from_covers(consts, fns, locals, active, callee, params, args, 0, Seq::empty(), sc);
}

proof fn lemma_bind_from_covers(
    consts: Scope,
    fns: Seq<FnDef>,
    locals: Scope,
    active: Seq<Seq<char>>,
    callee: Seq<char>,
    params: Seq<Param>,
    args: Seq<Arg>,
    i: int,
    bound: Scope,
    sc: Scope,
)
    requires
        0 <= i,
        entries_typed(params, bound),
        spec_bind_from(consts, fns, locals, active, callee, params, args, i, bound) == Ok::<Scope, ()>(sc),
    ensures
        entries_typed(params, sc),
        forall|p: int| 0 <= p < params.len() ==> bound_has(sc, #[trigger] params[p].name@),
    decreases args.len() - i,
{
    if i >= args.len() {
        lemma_defaults_bind_all(consts, fns, active, callee, params, 0, bound, sc);
    } else {
        let p = arg_param(params, args, i)->0;
        let v = spec_eval(consts, fns, locals, active, args[i].value)->Ok_0;
        lemma_push_typed(params, bound, p, v);
        lemma_bind_from_covers(
            consts,
            fns,
            locals,
            active,
            callee,
            params,
            args,
            i + 1,
            bound.push((params[p].name@, v)),
            sc,
        );
    }
}

/// `name` is bound at position `q` of `sc`, and nowhere before it.
pub open spec fn first_at(sc: Scope, name: Seq<char>, q: int) -> bool {
    &&& 0 <= q < sc.len()
    &&& sc[q].0 == name
    &&& forall|r: int| 0 <= r < q ==> (#[trigger] sc[r]).0 != name
}

proof fn lemma_first_at_assoc(sc: Scope, name: Seq<char>, q: int)
    requires
        first_at(sc, name, q),
    ensures
        assoc(sc, name) == Some(sc[q].1),
    decreases q,
{
    if q > 0 {
        let rest = sc.subrange(1, sc.len() as int);
        assert(sc[0].0 != name);
        assert forall|r: int| 0 <= r < q - 1 implies (#[trigger] rest[r]).0 != name by {
            assert(rest[r] == sc[r + 1]);
        }
        assert(rest[q - 1] == sc[q]);
        lemma_first_at_assoc(rest, name, q - 1);
    }
}

proof fn lemma_defaults_prefix(
    consts: Scope,
    fns: Seq<FnDef>,
    active: Seq<Seq<char>>,
    callee: Seq<char>,
    params: Seq<Param>,
    k: int,
    bound: Scope,
    sc: Scope,
)
    requires
        0 <= k,
        spec_defaults(consts, fns, active, callee, params, k, bound) == Ok::<Scope, ()>(sc),
    ensures
        bound.len() <= sc.len(),
        sc.subrange(0, bound.len() as int) == bound,
    decreases params.len() - k,
{
    if k < params.len() {
        if bound_has(bound, params[k].name@) {
            lemma_defaults_prefix(consts, fns, active, callee, params, k + 1, bound, sc);
        } else {
            let v = spec_eval(consts, fns, Seq::empty(), active.push(callee), params[k].default->0)->Ok_0;
            let b2 = bound.push((params[k].name@, v));
            lemma_defaults_prefix(consts, fns, active, callee, params, k + 1, b2, sc);
            assert(sc.subrange(0, bound.len() as int) =~= b2.subrange(0, bound.len() as int));
        }
    } else {
        assert(sc.subrange(0, bound.len() as int) =~= bound);
    }
}

proof fn lemma_bind_from_prefix(
    consts: Scope,
    fns: Seq<FnDef>,
    locals: Scope,
    active: Seq<Seq<char>>,
    callee: Seq<char>,
    params: Seq<Param>,
    args: Seq<Arg>,
    i: int,
    bound: Scope,
    sc: Scope,
)
    requires
        0 <= i,
        spec_bind_from(consts, fns, locals, active, callee, params, args, i, bound) == Ok::<Scope, ()>(sc),
    ensures
        bound.len() <= sc.len(),
        sc.subrange(0, bound.len() as int) == bound,
    decreases args.len() - i,
{
    if i >= args.len() {
        lemma_defaults_prefix(consts, fns, active, callee, params, 0, bound, sc);
    } else {
        let p = arg_param(params, args, i)->0;
        let v = spec_eval(consts, fns, locals, active, args[i].value)->Ok_0;
        let b2 = bound.push((params[p].name@, v));
        lemma_bind_from_prefix(consts, fns, locals, active, callee, params, args, i + 1, b2, sc);
        assert(sc.subrange(0, bound.len() as int) =~= b2.subrange(0, bound.len() as int));
    }
}

proof fn lemma_arg_binds(
    consts: Scope,
    fns: Seq<FnDef>,
    locals: Scope,
    active: Seq<Seq<char>>,
    callee: Seq<char>,
    params: Seq<Param>,
    args: Seq<Arg>,
    j: int,
    bound: Scope,
    sc: Scope,
    i: int,
    p: int,
)
    requires
        0 <= j <= i < args.len(),
        arg_param(params, args, i) == Some(p),
        spec_bind_from(consts, fns, locals, active, callee, params, args, j, bound) == Ok::<Scope, ()>(sc),
    ensures
        0 <= p < params.len(),
        spec_eval(consts, fns, locals, active, args[i].value) is Ok,
        assoc(sc, params[p].name@) == Some(spec_eval(consts, fns, locals, active, args[i].value)->Ok_0),
    decreases args.len() - j,
{
    let pj = arg_param(params, args, j)->0;
    let v = spec_eval(consts, fns, locals, active, args[j].value)->Ok_0;
    let b2 = bound.push((params[pj].name@, v));
    if j < i {
        lemma_arg_binds(consts, fns, locals, active, callee, params, args, j + 1, b2, sc, i, p);
    } else {
        lemma_bind_from_prefix(consts, fns, locals, active, callee, params, args, j + 1, b2, sc);
        let q = bound.len() as int;
        assert(sc[q] == b2[q]);
        assert forall|r: int| 0 <= r < q implies (#[trigger] sc[r]).0 != params[p].name@ by {
            assert(sc[r] == b2[r] && b2[r] == bound[r]);
        }
        lemma_first_at_assoc(sc, params[p].name@, q);
    }
}

/// No argument binds parameter `p`.
pub open spec fn unbound_by_args(params: Seq<Param>, args: Seq<Arg>, p: int) -> bool {
    forall|i: int| 0 <= i < args.len() ==> arg_param(params, args, i) != Some(p)
}

proof fn lemma_defaults_bind(
    consts: Scope,
    fns: Seq<FnDef>,
    active: Seq<Seq<char>>,
    callee: Seq<char>,
    params: Seq<Param>,
    k: int,
    bound: Scope,
    sc: Scope,
    p: int,
)
    requires
        0 <= k <= p < params.len(),
        distinct_params(params),
        !bound_has(bound, params[p].name@),
        spec_defaults(consts, fns, active, callee, params, k, bound) == Ok::<Scope, ()>(sc),
    ensures
        params[p].default is Some,
        spec_eval(consts, fns, Seq::empty(), active.push(callee), params[p].default->0) is Ok,
        assoc(sc, params[p].name@) == Some(
            spec_eval(consts, fns, Seq::empty(), active.push(callee), params[p].default->0)->Ok_0,
        ),
    decreases params.len() - k,
{
    let n = params[p].name@;
    if k < p {
        if bound_has(bound, params[k].name@) {
            lemma_defaults_bind(consts, fns, active, callee, params, k + 1, bound, sc, p);
        } else {
            let v = spec_eval(consts, fns, Seq::empty(), active.push(callee), params[k].default->0)->Ok_0;
            let b2 = bound.push((params[k].name@, v));
            assert(params[k].name@ != n);
            assert(!bound_has(b2, n)) by {
                if bound_has(b2, n) {
                    let w = choose|w: int| 0 <= w < b2.len() && #[trigger] b2[w].0 == n;
                    if w < bound.len() {
                        assert(b2[w] == bound[w]);
                    }
                }
            }
            lemma_defaults_bind(consts, fns, active, callee, params, k + 1, b2, sc, p);
        }
    } else {
        let v = spec_eval(consts, fns, Seq::empty(), active.push(callee), params[k].default->0)->Ok_0;
        let b2 = bound.push((n, v));
        lemma_defaults_prefix(consts, fns, active, callee, params, k + 1, b2, sc);
        let q = bound.len() as int;
        assert(sc[q] == b2[q]);
        assert forall|r: int| 0 <= r < q implies (#[trigger] sc[r]).0 != n by {
            assert(sc[r] == b2[r] && b2[r] == bound[r]);
        }
        lemma_first_at_assoc(sc, n, q);
    }
}

proof fn lemma_args_skip(
    consts: Scope,
    fns: Seq<FnDef>,
    locals: Scope,
    active: Seq<Seq<char>>,
    callee: Seq<char>,
    params: Seq<Param>,
    args: Seq<Arg>,
    j: int,
    bound: Scope,
    sc: Scope,
    p: int,
)
    requires
        0 <= j,
        0 <= p < params.len(),
        distinct_params(params),
        unbound_by_args(params, args, p),
        !bound_has(bound, params[p].name@),
        spec_bind_from(consts, fns, locals, active, callee, params, args, j, bound) == Ok::<Scope, ()>(sc),
    ensures
        params[p].default is Some,
        spec_eval(consts, fns, Seq::empty(), active.push(callee), params[p].default->0) is Ok,
        assoc(sc, params[p].name@) == Some(
            spec_eval(consts, fns, Seq::empty(), active.push(callee), params[p].default->0)->Ok_0,
        ),
    decreases args.len() - j,
{
    let n = params[p].name@;
    if j >= args.len() {
        lemma_defaults_bind(consts, fns, active, callee, params, 0, bound, sc, p);
    } else {
        let pj = arg_param(params, args, j)->0;
        let v = spec_eval(consts, fns, locals, active, args[j].value)->Ok_0;
        let b2 = bound.push((params[pj].name@, v));
        assert(pj != p);
        assert(params[pj].name@ != n) by {
            if pj < p {
                assert(params[pj].name@ != params[p].name@);
            } else {
                assert(params[p].name@ != params[pj].name@);
            }
        }
        assert(!bound_has(b2, n)) by {
            if bound_has(b2, n) {
                let w = choose|w: int| 0 <= w < b2.len() && #[trigger] b2[w].0 == n;
                if w < bound.len() {
                    assert(b2[w] == bound[w]);
                }
            }
        }
        lemma_args_skip(consts, fns, locals, active, callee, params, args, j + 1, b2, sc, p);
    }
}

/// The binding rule: when a binding goes through, a parameter that an
/// argument names (or whose position a positional argument fills) takes
/// that argument's value, evaluated in the caller's scope; any other
/// parameter takes its default, evaluated in module scope with the callee
/// on the chain. (Parameter names are distinct, as the parser ensures.)
pub proof fn lemma_bind_rule(
    consts: Scope,
    fns: Seq<FnDef>,
    locals: Scope,
    active: Seq<Seq<char>>,
    callee: Seq<char>,
    params: Seq<Param>,
    args: Seq<Arg>,
    sc: Scope,
)
    requires
        distinct_params(params),
        spec_bind(consts, fns, locals, active, callee, params, args) == Ok::<Scope, ()>(sc),
    ensures
        forall|i: int, p: int|
            #![trigger arg_param(params, args, i), params[p]]
            0 <= i < args.len() && arg_param(params, args, i) == Some(p) ==> assoc(
                sc,
                params[p].name@,
            ) == Some(spec_eval(consts, fns, locals, active, args[i].value)->Ok_0),
        forall|p: int|
            0 <= p < params.len() && #[trigger] unbound_by_args(params, args, p) ==> assoc(
                sc,
                params[p].name@,
            ) == Some(
                spec_eval(consts, fns, Seq::empty(), active.push(callee), params[p].default->0)->Ok_0,
            ),
{
    assert forall|i: int, p: int|
        #![trigger arg_param(params, args, i), params[p]]
        0 <= i < args.len() && arg_param(params, args, i) == Some(p) implies assoc(
            sc,
            params[p].name@,
        ) == Some(spec_eval(consts, fns, locals, active, args[i].value)->Ok_0) by {
        lemma_arg_binds(consts, fns, locals, active, callee, params, args, 0, Seq::empty(), sc, i, p);
    }
    assert forall|p: int|
        0 <= p < params.len() && #[trigger] unbound_by_args(params, args, p) implies assoc(
            sc,
            params[p].name@,
        ) == Some(
            spec_eval(consts, fns, Seq::empty(), active.push(callee), params[p].default->0)->Ok_0,
        ) by {
        lemma_args_skip(consts, fns, locals, active, callee, params, args, 0, Seq::empty(), sc, p);
    }
}

/// Binding a call's arguments to a callable's parameters.
pub open spec fn spec_bind(
    consts: Scope,
    fns: Seq<FnDef>,
    locals: Scope,
    active: Seq<Seq<char>>,
    callee: Seq<char>,
    params: Seq<Param>,
    args: Seq<Arg>,
) -> Result<Scope, ()>
    decreases 2 * fuel(fns, active.push(callee)) + 2, args, args.len() + 1,
{
    spec_bind_from(consts, fns, locals, active, callee, params, args, 0, Seq::empty())
}

fn assoc_get<'a>(list: &'a Vec<(String, Value)>, name: &str) -> (res: Option<&'a Value>)
    ensures
        match res {
            Some(v) => assoc(scope_of(list@), name@) == Some(v@),
            None => assoc(scope_of(list@), name@) is None,
        },
{
    let ghost full = scope_of(list@);
    assert(full.subrange(0, full.len() as int) =~= full);
    let mut k: usize = 0;
    while k < list.len()
        invariant
            k <= list@.len(),
            full == scope_of(list@),
            assoc(full, name@) == assoc(full.subrange(k as int, full.len() as int), name@),
        decreases list@.len() - k,
    {
        let ghost rest = full.subrange(k as int, full.len() as int);
        assert(rest.subrange(1, rest.len() as int) =~= full.subrange(k + 1, full.len() as int));
        if str_eq(list[k].0.as_str(), name) {
            return Some(&list[k].1);
        }
        k = k + 1;
    }
    None
}

fn chain_push(active: &Vec<String>, name: &str) -> (res: Vec<String>)
    ensures
        chain_of(res@) == chain_of(active@).push(name@),
{
    let mut out: Vec<String> = Vec::new();
    let mut k: usize = 0;
    while k < active.len()
        invariant
            k <= active@.len(),
            out@.len() == k,
            forall|j: int| 0 <= j < k ==> #[trigger] out@[j]@ == active@[j]@,
        decreases active@.len() - k,
    {
        let c = active[k].clone();
        out.push(c);
        k = k + 1;
    }
    out.push(name.to_owned());
    assert(chain_of(out@) =~= chain_of(active@).push(name@));
    out
}

fn chain_has(active: &Vec<String>, name: &str) -> (res: bool)
    ensures
        res == on_chain(chain_of(active@), name@),
{
    let mut k: usize = 0;
    while k < active.len()
        invariant
            k <= active@.len(),
            forall|q: int| 0 <= q < k ==> chain_of(active@)[q] != name@,
        decreases active@.len() - k,
    {
        if str_eq(active[k].as_str(), name) {
            assert(chain_of(active@)[k as int] == name@);
            return true;
        }
        k = k + 1;
    }
    false
}

fn find_fn(fns: &Vec<FnDef>, name: &str) -> (res: Option<usize>)
    ensures
        match res {
            Some(k) => fn_index(fns@, name@) == Some(k as int),
            None => fn_index(fns@, name@) is None,
        },
{
    proof {
        lemma_fn_index_found(fns@, name@);
    }
    let mut k: usize = 0;
    while k < fns.len()
        invariant
            k <= fns@.len(),
            forall|q: int| 0 <= q < k ==> #[trigger] fns@[q].name@ != name@,
        decreases fns@.len() - k,
    {
        if str_eq(fns[k].name.as_str(), name) {
            proof {
                lemma_fn_index_first(fns@, name@, k as int);
            }
            return Some(k);
        }
        k = k + 1;
    }
    None
}

proof fn lemma_fn_index_first(fns: Seq<FnDef>, name: Seq<char>, k: int)
    requires
        0 <= k < fns.len(),
        fns[k].name@ == name,
        forall|q: int| 0 <= q < k ==> #[trigger] fns[q].name@ != name,
    ensures
        fn_index(fns, name) == Some(k),
    decreases fns.len(),
{
    let p = fns.drop_last();
    if k < fns.len() - 1 {
        assert forall|q: int| 0 <= q < k implies #[trigger] p[q].name@ != name by {
            assert(p[q] == fns[q]);
        }
        assert(p[k] == fns[k]);
        lemma_fn_index_first(p, name, k);
    } else {
        lemma_fn_index_found(p, name);
        if fn_index(p, name) is Some {
            let j = fn_index(p, name)->0;
            assert(p[j] == fns[j]);
        }
    }
}

impl Env {
    #[verifier::type_invariant]
    spec fn names_distinct(self) -> bool {
        distinct_fns(self.fns@)
    }

    /// An empty environment.
    pub fn new() -> (res: Env)
        ensures
            res.consts_view().len() == 0,
            res.locals_view().len() == 0,
            res.fns_view().len() == 0,
            res.chain_view().len() == 0,
    {
        Env { consts: Vec::new(), locals: Vec::new(), fns: Vec::new(), active: Vec::new() }
    }

    /// The module `const`s.
    pub closed spec fn consts_view(&self) -> Scope {
        scope_of(self.consts@)
    }

    /// The innermost call's parameters.
    pub closed spec fn locals_view(&self) -> Scope {
        scope_of(self.locals@)
    }

    /// The `fn` table.
    pub closed spec fn fns_view(&self) -> Seq<FnDef> {
        self.fns@
    }

    /// The chain of expansions in progress.
    pub closed spec fn chain_view(&self) -> Seq<Seq<char>> {
        chain_of(self.active@)
    }

    /// The value `name` denotes: the innermost parameter binding, else a
    /// module `const`.
    pub open spec fn lookup(&self, name: Seq<char>) -> Option<Val> {
        scope_lookup(self.consts_view(), self.locals_view(), name)
    }

    /// Define (or overwrite) a module-level `const`. The no-duplicate rule is
    /// the caller's, checked first with [`Env::has_const`].
    pub fn insert_const(&mut self, name: String, value: Value)
        ensures
            forall|n: Seq<char>| #[trigger] assoc(final(self).consts_view(), n) == if n == name@ {
                Some(value@)
            } else {
                assoc(old(self).consts_view(), n)
            },
            assoc(old(self).consts_view(), name@) is None ==> final(self).consts_view() == old(
                self,
            ).consts_view().push((name@, value@)),
            final(self).locals_view() == old(self).locals_view(),
            final(self).fns_view() == old(self).fns_view(),
            final(self).chain_view() == old(self).chain_view(),
    {
        proof {
            use_type_invariant(&*self);
        }
        let ghost before = scope_of(self.consts@);
        let ghost e = (name@, value@);
        let mut consts: Vec<(String, Value)> = Vec::new();
        std::mem::swap(&mut consts, &mut self.consts);
        match first_index(&consts, name.as_str()) {
            Some(k) => {
                proof {
                    lemma_assoc_some(before, k as int);
                }
                consts.set(k, (name, value));
                proof {
                    assert(scope_of(consts@) =~= before.update(k as int, e));
                    assert forall|n: Seq<char>| #[trigger] assoc(scope_of(consts@), n) == if n == e.0 {
                        Some(e.1)
                    } else {
                        assoc(before, n)
                    } by {
                        lemma_assoc_update(before, k as int, e, n);
                    }
                }
            },
            None => {
                consts.push((name, value));
                proof {
                    assert(scope_of(consts@) =~= before.push(e));
                    assert forall|n: Seq<char>| #[trigger] assoc(scope_of(consts@), n) == if n == e.0 {
                        Some(e.1)
                    } else {
                        assoc(before, n)
                    } by {
                        lemma_assoc_push(before, e, n);
                        lemma_assoc_absent(before, e.0);
                    }
                }
            },
        }
        self.consts = consts;
    }

    /// Is `name` already defined as a module-level `const`?
    pub fn has_const(&self, name: &str) -> (res: bool)
        ensures
            res == (assoc(self.consts_view(), name@) is Some),
    {
        assoc_get(&self.consts, name).is_some()
    }

    /// The value bound to `name`: the innermost parameter binding if there is
    /// one, else a module `const`.
    pub fn get(&self, name: &str) -> (res: Option<&Value>)
        ensures
            match res {
                Some(v) => self.lookup(name@) == Some(v@),
                None => self.lookup(name@) is None,
            },
    {
        match assoc_get(&self.locals, name) {
            Some(v) => Some(v),
            None => assoc_get(&self.consts, name),
        }
    }

    /// Define a `fn`. Returns `false`, leaving the table as it is, if one of
    /// that name already exists.
    pub fn define_fn(&mut self, f: FnDef) -> (res: bool)
        ensures
            res == (fn_index(old(self).fns_view(), f.name@) is None),
            res ==> final(self).fns_view() == old(self).fns_view().push(f),
            !res ==> final(self).fns_view() == old(self).fns_view(),
            distinct_fns(final(self).fns_view()),
            final(self).consts_view() == old(self).consts_view(),
            final(self).locals_view() == old(self).locals_view(),
            final(self).chain_view() == old(self).chain_view(),
            forall|n: Seq<char>| #[trigger] final(self).lookup(n) == old(self).lookup(n),
    {
        proof {
            use_type_invariant(&*self);
            lemma_fn_index_found(self.fns@, f.name@);
        }
        if find_fn(&self.fns, f.name.as_str()).is_some() {
            return false;
        }
        let ghost before = self.fns@;
        let mut fns: Vec<FnDef> = Vec::new();
        std::mem::swap(&mut fns, &mut self.fns);
        fns.push(f);
        assert(distinct_fns(fns@)) by {
            assert forall|a: int, b: int| 0 <= a < b < fns@.len() implies #[trigger] fns@[a].name@
                != #[trigger] fns@[b].name@ by {
                assert(fns@[a] == before[a]);
                if b < before.len() {
                    assert(fns@[b] == before[b]);
                }
            }
        }
        self.fns = fns;
        true
    }

    /// The `fn` bound to `name`, if any.
    pub fn get_fn(&self, name: &str) -> (res: Option<&FnDef>)
        ensures
            match res {
                Some(f) => fn_index(self.fns_view(), name@) matches Some(k) && self.fns_view()[k] == *f,
                None => fn_index(self.fns_view(), name@) is None,
            },
    {
        proof {
            lemma_fn_index_found(self.fns@, name@);
        }
        match find_fn(&self.fns, name) {
            Some(k) => Some(&self.fns[k]),
            None => None,
        }
    }

    /// Is a call to `name` already in progress (would it recurse)?
    pub fn is_active(&self, name: &str) -> (res: bool)
        ensures
            res == on_chain(self.chain_view(), name@),
    {
        chain_has(&self.active, name)
    }
}

/// A name with an entry in a scope has a value there.
pub proof fn lemma_assoc_some(list: Scope, k: int)
    requires
        0 <= k < list.len(),
    ensures
        assoc(list, list[k].0) is Some,
    decreases k,
{
    if k > 0 && list[0].0 != list[k].0 {
        let rest = list.subrange(1, list.len() as int);
        assert(rest[k - 1] == list[k]);
        lemma_assoc_some(rest, k - 1);
    }
}

proof fn lemma_assoc_push(list: Scope, e: (Seq<char>, Val), n: Seq<char>)
    ensures
        assoc(list.push(e), n) == match assoc(list, n) {
            Some(v) => Some(v),
            None => if e.0 == n {
                Some(e.1)
            } else {
                None
            },
        },
    decreases list.len(),
{
    let p = list.push(e);
    if list.len() > 0 {
        assert(p[0] == list[0]);
        assert(p.subrange(1, p.len() as int) =~= list.subrange(1, list.len() as int).push(e));
        lemma_assoc_push(list.subrange(1, list.len() as int), e, n);
    } else {
        assert(p[0] == e);
        assert(p.subrange(1, p.len() as int) =~= Seq::<(Seq<char>, Val)>::empty());
        assert(assoc(Seq::<(Seq<char>, Val)>::empty(), n) is None);
    }
}

fn first_index(list: &Vec<(String, Value)>, name: &str) -> (res: Option<usize>)
    ensures
        match res {
            Some(k) => k < list@.len() && list@[k as int].0@ == name@ && forall|q: int|
                0 <= q < k ==> #[trigger] list@[q].0@ != name@,
            None => forall|q: int| 0 <= q < list@.len() ==> #[trigger] list@[q].0@ != name@,
        },
{
    let mut k: usize = 0;
    while k < list.len()
        invariant
            k <= list@.len(),
            forall|q: int| 0 <= q < k ==> #[trigger] list@[q].0@ != name@,
        decreases list@.len() - k,
    {
        if str_eq(list[k].0.as_str(), name) {
            return Some(k);
        }
        k = k + 1;
    }
    None
}

proof fn lemma_assoc_absent(list: Scope, n: Seq<char>)
    requires
        forall|q: int| 0 <= q < list.len() ==> #[trigger] list[q].0 != n,
    ensures
        assoc(list, n) is None,
    decreases list.len(),
{
    if list.len() > 0 {
        let r = list.subrange(1, list.len() as int);
        assert forall|q: int| 0 <= q < r.len() implies #[trigger] r[q].0 != n by {
            assert(r[q] == list[q + 1]);
        }
        lemma_assoc_absent(r, n);
    }
}

proof fn lemma_assoc_update(list: Scope, k: int, e: (Seq<char>, Val), n: Seq<char>)
    requires
        0 <= k < list.len(),
        list[k].0 == e.0,
        forall|q: int| 0 <= q < k ==> #[trigger] list[q].0 != e.0,
    ensures
        assoc(list.update(k, e), n) == if n == e.0 {
            Some(e.1)
        } else {
            assoc(list, n)
        },
    decreases list.len(),
{
    let u = list.update(k, e);
    let r = list.subrange(1, list.len() as int);
    if k == 0 {
        assert(u.subrange(1, u.len() as int) =~= r);
    } else {
        assert(u.subrange(1, u.len() as int) =~= r.update(k - 1, e));
        assert forall|q: int| 0 <= q < k - 1 implies #[trigger] r[q].0 != e.0 by {
            assert(r[q] == list[q + 1]);
        }
        lemma_assoc_update(r, k - 1, e, n);
    }
}

fn msg3(a: &str, b: &str, c: &str) -> (res: String)
    ensures
        res@ == a@ + b@ + c@,
{
    let mut m = String::new();
    m.append(a);
    m.append(b);
    m.append(c);
    assert(m@ =~= a@ + b@ + c@);
    m
}

/// Check a value against a declared type; `what` names the position for the
/// diagnostic. A `byte` additionally range-checks `0..=255`, reported as a
/// range error.
/// What a value of the wrong type is told, after `what` names the slot.
pub open spec fn type_message(what: Seq<char>, v: Val, ty: Type) -> Seq<char> {
    match (ty, v) {
        (Type::Byte, Val::Int(n)) => what + " "@ + "expects `byte`: "@ + spec_int_text(n as int) + " is out of range 0..=255"@,
        (_, Val::Int(n)) => what + " "@ + "expects `"@ + spelling_of(ty) + "`, found the integer "@ + spec_int_text(n as int),
        (_, Val::Bytes(b)) => what + " "@ + "expects `"@ + spelling_of(ty) + "`, found "@ + spec_dec(b.len()) + " byte(s)"@,
    }
}

/// The diagnostic an expression's evaluation gives where it is a name that
/// is not in scope.
pub open spec fn name_fault(e: Expr) -> Option<(Span, Seq<char>)> {
    match e {
        Expr::Name { name, span } => Some((span, "unknown name `"@ + name@ + "`"@)),
        _ => None,
    }
}

/// The first fault binding meets among the parameters from index `k` on
/// that are still unbound, as `(span, message)`: a parameter with no value
/// and no default, a default of the wrong type, or a default that names
/// something not in module scope. `None` where none of these comes first.
pub open spec fn default_fault(
    consts: Scope,
    fns: Seq<FnDef>,
    active: Seq<Seq<char>>,
    callee: Seq<char>,
    params: Seq<Param>,
    call_span: Span,
    k: int,
    bound: Scope,
) -> Option<(Span, Seq<char>)>
    decreases params.len() - k,
{
    if k < 0 || k >= params.len() {
        None
    } else if bound_has(bound, params[k].name@) {
        default_fault(consts, fns, active, callee, params, call_span, k + 1, bound)
    } else {
        match params[k].default {
            None => Some((call_span, "`"@ + callee + "` is missing a value for parameter `"@ + params[k].name@ + "`"@)),
            Some(d) => match spec_eval(consts, fns, Seq::empty(), active.push(callee), d) {
                Ok(v) => if type_ok(v, params[k].ty) {
                    default_fault(consts, fns, active, callee, params, call_span, k + 1, bound.push((params[k].name@, v)))
                } else {
                    Some((params[k].span, type_message("the default for `"@ + params[k].name@ + "` of `"@ + callee + "`"@, v, params[k].ty)))
                },
                Err(_) => name_fault(d),
            },
        }
    }
}

/// The first fault binding meets from argument `i` on, as `(span, message)`:
/// a positional argument after a named one, more positional arguments than
/// parameters, a name no parameter has, a parameter bound twice, a value of
/// the wrong type or naming something not in scope, then the faults of the
/// defaults. `None` where none of these comes first.
pub open spec fn bind_fault(
    consts: Scope,
    fns: Seq<FnDef>,
    locals: Scope,
    active: Seq<Seq<char>>,
    callee: Seq<char>,
    params: Seq<Param>,
    args: Seq<Arg>,
    call_span: Span,
    i: int,
    bound: Scope,
) -> Option<(Span, Seq<char>)>
    decreases args.len() - i,
{
    if i < 0 || i >= args.len() {
        default_fault(consts, fns, active, callee, params, call_span, 0, bound)
    } else {
        match arg_param(params, args, i) {
            None => Some((args[i].span, match args[i].name {
                None => if exists|j: int| 0 <= j < i && (#[trigger] args[j]).name is Some {
                    "a positional argument cannot follow a named argument"@
                } else {
                    "`"@ + callee + "` takes "@ + spec_dec(params.len()) + (if params.len() == 1 {
                        " argument, got "@
                    } else {
                        " arguments, got "@
                    }) + spec_dec(args.len())
                },
                Some(n) => "`"@ + callee + "` has no parameter `"@ + n@ + "`"@,
            })),
            Some(p) => if !(0 <= p < params.len()) {
                None
            } else if bound_has(bound, params[p].name@) {
                Some((args[i].span, "argument `"@ + params[p].name@ + "` of `"@ + callee + "` is bound twice"@))
            } else {
                match spec_eval(consts, fns, locals, active, args[i].value) {
                    Ok(v) => if type_ok(v, params[p].ty) {
                        bind_fault(consts, fns, locals, active, callee, params, args, call_span, i + 1, bound.push((params[p].name@, v)))
                    } else {
                        Some((args[i].span, type_message("argument `"@ + params[p].name@ + "` of `"@ + callee + "`"@, v, params[p].ty)))
                    },
                    Err(_) => name_fault(args[i].value),
                }
            },
        }
    }
}

fn check_type(v: &Value, ty: Type, span: &Span, what: &str) -> (res: Result<(), Diagnostic>)
    ensures
        res is Ok <==> type_ok(v@, ty),
        res matches Err(d) ==> d.primary == *span && d.message@ == type_message(what@, v@, ty),
{
    let mut m = String::new();
    m.append(what);
    m.append(" ");
    match (ty, v) {
        (Type::Bytes, Value::Bytes(_)) => {
            return Ok(());
        },
        (Type::Int, Value::Int(_)) => {
            return Ok(());
        },
        (Type::Byte, Value::Int(n)) => {
            if 0 <= *n && *n <= 255 {
                return Ok(());
            }
            m.append("expects `byte`: ");
            push_int(&mut m, *n);
            m.append(" is out of range 0..=255");
            assert(m@ =~= what@ + " "@ + "expects `byte`: "@ + spec_int_text(*n as int) + " is out of range 0..=255"@);
        },
        (_, Value::Int(n)) => {
            m.append("expects `");
            m.append(ty.name());
            m.append("`, found the integer ");
            push_int(&mut m, *n);
            assert(m@ =~= what@ + " "@ + "expects `"@ + spelling_of(ty) + "`, found the integer "@ + spec_int_text(*n as int));
        },
        (_, Value::Bytes(b)) => {
            m.append("expects `");
            m.append(ty.name());
            m.append("`, found ");
            push_dec(&mut m, b.len() as u64);
            m.append(" byte(s)");
            assert(m@ =~= what@ + " "@ + "expects `"@ + spelling_of(ty) + "`, found "@ + spec_dec(b@.len()) + " byte(s)"@);
        },
    }
    Err(Diagnostic::error_owned(span_copy(span), m))
}

/// The value of `e` in the module scope of `env`, with `locals` as the
/// innermost parameters and `active` the expansions in progress.
fn eval_in(env: &Env, locals: &Vec<(String, Value)>, active: &Vec<String>, e: &Expr) -> (res: Result<Value, Diagnostic>)
    requires
        env_ok(env.fns@),
    ensures
        res is Ok <==> spec_eval(scope_of(env.consts@), env.fns@, scope_of(locals@), chain_of(active@), *e) is Ok,
        res matches Ok(v) ==> spec_eval(scope_of(env.consts@), env.fns@, scope_of(locals@), chain_of(active@), *e) == Ok::<Val, ()>(v@),
        *e matches Expr::Call { func, args, span } ==> (is_builtin(func@) && !(args@.len() == 1 && args@[0].name is None)
            ==> (res matches Err(d) && arity_error(func@, args@, span, d))),
        *e matches Expr::Name { name, span } ==> (res is Err ==> (res matches Err(d) && d.message@ == "unknown name `"@
            + name@ + "`"@ && d.primary == span)),
    decreases 2 * fuel(env.fns@, chain_of(active@)), *e, 0nat,
{
    match e {
        Expr::Int { value, .. } => Ok(Value::Int(*value)),
        Expr::Name { name, span } => {
            let found = match assoc_get(locals, name.as_str()) {
                Some(v) => Some(v),
                None => assoc_get(&env.consts, name.as_str()),
            };
            match found {
                Some(v) => Ok(v.copy()),
                None => Err(Diagnostic::error_owned(span_copy(span), msg3("unknown name `", name.as_str(), "`"))),
            }
        },
        Expr::Bytes { elems, .. } => {
            let out = eval_elems(env, locals, active, elems)?;
            Ok(Value::Bytes(out))
        },
        Expr::Binary { op, lhs, rhs, .. } => match op {
            BinOp::Concat => {
                let mut x = match eval_in(env, locals, active, lhs)? {
                    Value::Bytes(x) => x,
                    Value::Int(_) => {
                        return Err(Diagnostic::error(lhs.span(), "expected bytes, found an integer"));
                    },
                };
                let mut y = match eval_in(env, locals, active, rhs)? {
                    Value::Bytes(y) => y,
                    Value::Int(_) => {
                        return Err(Diagnostic::error(rhs.span(), "expected bytes, found an integer"));
                    },
                };
                x.append(&mut y);
                Ok(Value::Bytes(x))
            },
            BinOp::Xor => {
                let x = match eval_in(env, locals, active, lhs)? {
                    Value::Int(x) => x,
                    Value::Bytes(_) => {
                        return Err(Diagnostic::error(lhs.span(), "expected an integer, found bytes"));
                    },
                };
                let y = match eval_in(env, locals, active, rhs)? {
                    Value::Int(y) => y,
                    Value::Bytes(_) => {
                        return Err(Diagnostic::error(rhs.span(), "expected an integer, found bytes"));
                    },
                };
                Ok(Value::Int(x ^ y))
            },
        },
        Expr::Call { func, args, span } => call_in(env, locals, active, func.as_str(), args.as_slice(), span),
    }
}

fn eval_elems(env: &Env, locals: &Vec<(String, Value)>, active: &Vec<String>, elems: &Vec<Expr>) -> (res: Result<Vec<u8>, Diagnostic>)
    requires
        env_ok(env.fns@),
    ensures
        res is Ok <==> spec_eval_elems(scope_of(env.consts@), env.fns@, scope_of(locals@), chain_of(active@), elems@) is Ok,
        res matches Ok(v) ==> spec_eval_elems(scope_of(env.consts@), env.fns@, scope_of(locals@), chain_of(active@), elems@) == Ok::<Seq<u8>, ()>(v@),
    decreases 2 * fuel(env.fns@, chain_of(active@)), elems@, 0nat,
{
    let ghost c = scope_of(env.consts@);
    let ghost l = scope_of(locals@);
    let ghost a = chain_of(active@);
    let ghost es = elems@;
    let mut out: Vec<u8> = Vec::new();
    let mut k: usize = 0;
    assert(es.subrange(0, es.len() as int) =~= es);
    while k < elems.len()
        invariant
            k <= es.len(),
            es == elems@,
            env_ok(env.fns@),
            c == scope_of(env.consts@),
            l == scope_of(locals@),
            a == chain_of(active@),
            spec_eval_elems(c, env.fns@, l, a, es) is Ok <==> spec_eval_elems(c, env.fns@, l, a, es.subrange(k as int, es.len() as int)) is Ok,
            spec_eval_elems(c, env.fns@, l, a, es) is Ok ==> spec_eval_elems(c, env.fns@, l, a, es) == Ok::<Seq<u8>, ()>(out@ + spec_eval_elems(c, env.fns@, l, a, es.subrange(k as int, es.len() as int))->Ok_0),
        decreases es.len() - k,
    {
        let ghost rest = es.subrange(k as int, es.len() as int);
        assert(rest.subrange(1, rest.len() as int) =~= es.subrange(k + 1, es.len() as int));
        assert(rest[0] == es[k as int]);
        match eval_in(env, locals, active, &elems[k]) {
            Ok(Value::Int(n)) => {
                if 0 <= n && n <= 255 {
                    let ghost before = out@;
                    out.push(n as u8);
                    proof {
                        if spec_eval_elems(c, env.fns@, l, a, es) is Ok {
                            let tail = spec_eval_elems(c, env.fns@, l, a, es.subrange(k + 1, es.len() as int))->Ok_0;
                            assert(out@ + tail =~= before + (seq![n as u8] + tail));
                        }
                    }
                } else {
                    let mut m = String::new();
                    m.append("byte value ");
                    m.append(n.to_string().as_str());
                    m.append(" is out of range 0..=255");
                    return Err(Diagnostic::error_owned(elems[k].span(), m));
                }
            },
            Ok(Value::Bytes(_)) => {
                return Err(Diagnostic::error(elems[k].span(), "expected an integer, found bytes"));
            },
            Err(d) => {
                return Err(d);
            },
        }
        k = k + 1;
    }
    assert(es.subrange(k as int, es.len() as int) =~= Seq::<Expr>::empty());
    assert(out@ + Seq::<u8>::empty() =~= out@);
    Ok(out)
}

/// The diagnostic for a builtin call that does not pass exactly one
/// positional argument: the argument count at the call, else the name given
/// to the one argument.
pub open spec fn arity_error(func: Seq<char>, args: Seq<Arg>, call_span: Span, d: Diagnostic) -> bool {
    if args.len() != 1 {
        &&& d.message@ == "`"@ + func + "` takes 1 argument, got "@ + spec_dec(args.len())
        &&& d.primary == call_span
    } else {
        &&& d.message@ == "`"@ + func + "` does not take named arguments (found `"@ + args[0].name->0@ + " = \u{2026}`)"@
        &&& d.primary == args[0].span
    }
}

/// The single positional argument of a builtin call.
fn builtin_arg<'a>(func: &str, args: &'a [Arg], call_span: &Span) -> (res: Result<&'a Expr, Diagnostic>)
    ensures
        res is Ok <==> (args@.len() == 1 && args@[0].name is None),
        res matches Ok(e) ==> *e == args@[0].value,
        res matches Err(d) ==> arity_error(func@, args@, *call_span, d),
{
    if args.len() != 1 {
        let mut m = String::new();
        m.append("`");
        m.append(func);
        m.append("` takes 1 argument, got ");
        push_dec(&mut m, args.len() as u64);
        return Err(Diagnostic::error_owned(span_copy(call_span), m));
    }
    if let Some(name) = &args[0].name {
        let mut m = String::new();
        m.append("`");
        m.append(func);
        m.append("` does not take named arguments (found `");
        m.append(name.as_str());
        m.append(" = \u{2026}`)");
        return Err(Diagnostic::error_owned(span_copy(&args[0].span), m));
    }
    Ok(&args[0].value)
}

fn call_in(env: &Env, locals: &Vec<(String, Value)>, active: &Vec<String>, func: &str, args: &[Arg], span: &Span) -> (res: Result<Value, Diagnostic>)
    requires
        env_ok(env.fns@),
    ensures
        res is Ok <==> spec_call(scope_of(env.consts@), env.fns@, scope_of(locals@), chain_of(active@), func@, args@) is Ok,
        res matches Ok(v) ==> spec_call(scope_of(env.consts@), env.fns@, scope_of(locals@), chain_of(active@), func@, args@) == Ok::<Val, ()>(v@),
        is_builtin(func@) && !(args@.len() == 1 && args@[0].name is None) ==> (res matches Err(d) && arity_error(func@, args@, *span, d)),
    decreases 2 * fuel(env.fns@, chain_of(active@)), args@, args@.len() + 2,
{
    if builtin(func) {
        proof {
            reveal_strlit("crc8");
            reveal_strlit("len");
            reveal_strlit("lo");
            reveal_strlit("hi");
            assert("crc8"@.len() == 4 && "len"@.len() == 3 && "lo"@.len() == 2 && "hi"@.len() == 2);
        }
        let a = builtin_arg(func, args, span)?;
        let v = eval_in(env, locals, active, a)?;
        if str_eq(func, "crc8") || str_eq(func, "len") {
            let b = match v {
                Value::Bytes(b) => b,
                Value::Int(_) => {
                    return Err(Diagnostic::error(a.span(), "expected bytes, found an integer"));
                },
            };
            if str_eq(func, "crc8") {
                Ok(Value::Int(crc8(b.as_slice()) as i64))
            } else {
                Ok(Value::Int(b.len() as i64))
            }
        } else {
            let n = match v {
                Value::Int(n) => n,
                Value::Bytes(_) => {
                    return Err(Diagnostic::error(a.span(), "expected an integer, found bytes"));
                },
            };
            if str_eq(func, "lo") {
                Ok(Value::Int(n & 0xff))
            } else {
                Ok(Value::Int((n >> 8u64) & 0xff))
            }
        }
    } else {
        proof {
            lemma_fn_index_found(env.fns@, func@);
        }
        let k = match find_fn(&env.fns, func) {
            Some(k) => k,
            None => {
                let mut m = String::new();
                m.append("unknown function `");
                m.append(func);
                m.append("`");
                return Err(Diagnostic::error_owned(span_copy(span), m).with_help(
                    "the builtins are crc8, len, lo, hi; a `proc` emits instructions and is called as a statement, not inside an expression",
                ));
            },
        };
        let f = &env.fns[k];
        if chain_has(active, f.name.as_str()) {
            let mut m = String::new();
            m.append("`");
            m.append(f.name.as_str());
            m.append("` is already being expanded: recursion is not possible");
            return Err(Diagnostic::error_owned(span_copy(span), m).with_help(
                "every call is inlined \u{2014} the tamal ISA has no call/ret and no stack",
            ));
        }
        proof {
            lemma_fuel_push(env.fns@, chain_of(active@), f.name@);
        }
        let bound = bind_in(env, locals, active, f.name.as_str(), f.params.as_slice(), args, span)?;
        let child = chain_push(active, f.name.as_str());
        let v = eval_in(env, &bound, &child, &f.body)?;
        let what = msg3("the body of `", f.name.as_str(), "`");
        check_type(&v, f.ret, &f.body.span(), what.as_str())?;
        Ok(v)
    }
}

fn scope_has(list: &Vec<(String, Value)>, name: &str) -> (res: bool)
    ensures
        res == bound_has(scope_of(list@), name@),
{
    let mut k: usize = 0;
    while k < list.len()
        invariant
            k <= list@.len(),
            forall|q: int| 0 <= q < k ==> scope_of(list@)[q].0 != name@,
        decreases list@.len() - k,
    {
        if str_eq(list[k].0.as_str(), name) {
            assert(scope_of(list@)[k as int].0 == name@);
            return true;
        }
        k = k + 1;
    }
    false
}

fn param_named(params: &[Param], name: &str) -> (res: Option<usize>)
    ensures
        match res {
            Some(p) => first_param(params@, name@, 0) == Some(p as int),
            None => first_param(params@, name@, 0) is None,
        },
{
    let mut k: usize = 0;
    while k < params.len()
        invariant
            k <= params@.len(),
            first_param(params@, name@, 0) == first_param(params@, name@, k as int),
        decreases params@.len() - k,
    {
        if str_eq(params[k].name.as_str(), name) {
            return Some(k);
        }
        k = k + 1;
    }
    None
}

fn arity_message(callee: &str, nparams: usize, nargs: usize) -> (res: String)
    ensures
        res@ == "`"@ + callee@ + "` takes "@ + spec_dec(nparams as nat) + (if nparams == 1 {
            " argument, got "@
        } else {
            " arguments, got "@
        }) + spec_dec(nargs as nat),
{
    let mut m = String::new();
    m.append("`");
    m.append(callee);
    m.append("` takes ");
    push_dec(&mut m, nparams as u64);
    if nparams == 1 {
        m.append(" argument, got ");
    } else {
        m.append(" arguments, got ");
    }
    push_dec(&mut m, nargs as u64);
    assert(m@ =~= "`"@ + callee@ + "` takes "@ + spec_dec(nparams as nat) + (if nparams == 1 {
        " argument, got "@
    } else {
        " arguments, got "@
    }) + spec_dec(nargs as nat));
    m
}

fn bind_in(
    env: &Env,
    locals: &Vec<(String, Value)>,
    active: &Vec<String>,
    callee: &str,
    params: &[Param],
    args: &[Arg],
    call_span: &Span,
) -> (res: Result<Vec<(String, Value)>, Diagnostic>)
    requires
        env_ok(env.fns@),
    ensures
        res is Ok <==> spec_bind(scope_of(env.consts@), env.fns@, scope_of(locals@), chain_of(active@), callee@, params@, args@) is Ok,
        res matches Ok(b) ==> spec_bind(scope_of(env.consts@), env.fns@, scope_of(locals@), chain_of(active@), callee@, params@, args@) == Ok::<Scope, ()>(scope_of(b@)),
        bind_fault(scope_of(env.consts@), env.fns@, scope_of(locals@), chain_of(active@), callee@, params@, args@, *call_span, 0, Seq::empty())
            matches Some((sp, m)) ==> (res matches Err(d) && d.primary == sp && d.message@ == m),
    decreases 2 * fuel(env.fns@, chain_of(active@).push(callee@)) + 2, args@, args@.len() + 1,
{
    let ghost c = scope_of(env.consts@);
    let ghost l = scope_of(locals@);
    let ghost a = chain_of(active@);
    proof {
        lemma_fuel_push(env.fns@, a, callee@);
    }
    let mut bound: Vec<(String, Value)> = Vec::new();
    assert(scope_of(bound@) =~= Seq::<(Seq<char>, Val)>::empty());
    let mut seen_named = false;
    assert(c == scope_of(env.consts@));
    let mut i: usize = 0;
    while i < args.len()
        invariant
            i <= args@.len(),
            env_ok(env.fns@),
            c == scope_of(env.consts@),
            l == scope_of(locals@),
            a == chain_of(active@),
            seen_named == exists|j: int| 0 <= j < i && (#[trigger] args@[j]).name is Some,
            spec_bind(c, env.fns@, l, a, callee@, params@, args@) == spec_bind_from(c, env.fns@, l, a, callee@, params@, args@, i as int, scope_of(bound@)),
            bind_fault(c, env.fns@, l, a, callee@, params@, args@, *call_span, 0, Seq::empty()) == bind_fault(c, env.fns@, l, a, callee@, params@, args@, *call_span, i as int, scope_of(bound@)),
            fuel(env.fns@, a) <= fuel(env.fns@, a.push(callee@)) + 1,
        decreases args@.len() - i,
    {
        let arg = &args[i];
        let p: usize = match &arg.name {
            None => {
                if seen_named {
                    return Err(Diagnostic::error(span_copy(&arg.span), "a positional argument cannot follow a named argument").with_help(
                        "pass the positional arguments first, or name them all",
                    ));
                }
                if i >= params.len() {
                    return Err(Diagnostic::error_owned(span_copy(&arg.span), arity_message(callee, params.len(), args.len())));
                }
                i
            },
            Some(name) => {
                seen_named = true;
                match param_named(params, name.as_str()) {
                    Some(p) => p,
                    None => {
                        let mut m = String::new();
                        m.append("`");
                        m.append(callee);
                        m.append("` has no parameter `");
                        m.append(name.as_str());
                        m.append("`");
                        return Err(Diagnostic::error_owned(span_copy(&arg.span), m));
                    },
                }
            },
        };
        proof {
            if let Some(q) = first_param(params@, spec_name_of(arg), 0) {
                lemma_first_param(params@, spec_name_of(arg), 0);
            }
        }
        let pname = params[p].name.as_str();
        if scope_has(&bound, pname) {
            let mut m = String::new();
            m.append("argument `");
            m.append(pname);
            m.append("` of `");
            m.append(callee);
            m.append("` is bound twice");
            return Err(Diagnostic::error_owned(span_copy(&arg.span), m));
        }
        let v = eval_in(env, locals, active, &arg.value)?;
        let mut what = msg3("argument `", pname, "` of `");
        what.append(callee);
        what.append("`");
        check_type(&v, params[p].ty, &arg.span, what.as_str())?;
        let ghost vb = v@;
        let ghost old_b = scope_of(bound@);
        bound.push((params[p].name.clone(), v));
        assert(scope_of(bound@) =~= old_b.push((params@[p as int].name@, vb)));
        i = i + 1;
    }
    // Every default shares one scope: module scope with the callee on the
    // chain, built only when some parameter needs it.
    let mut default_chain: Option<Vec<String>> = None;
    let no_locals: Vec<(String, Value)> = Vec::new();
    let mut k: usize = 0;
    assert(scope_of(no_locals@) =~= Seq::<(Seq<char>, Val)>::empty());
    while k < params.len()
        invariant
            k <= params@.len(),
            env_ok(env.fns@),
            c == scope_of(env.consts@),
            l == scope_of(locals@),
            a == chain_of(active@),
            scope_of(no_locals@) == Seq::<(Seq<char>, Val)>::empty(),
            default_chain matches Some(dc) ==> chain_of(dc@) == a.push(callee@),
            spec_bind(c, env.fns@, l, a, callee@, params@, args@) == spec_defaults(c, env.fns@, a, callee@, params@, k as int, scope_of(bound@)),
            bind_fault(c, env.fns@, l, a, callee@, params@, args@, *call_span, 0, Seq::empty()) == default_fault(c, env.fns@, a, callee@, params@, *call_span, k as int, scope_of(bound@)),
        decreases params@.len() - k,
    {
        let p = &params[k];
        if !scope_has(&bound, p.name.as_str()) {
            let d = match &p.default {
                Some(d) => d,
                None => {
                    let mut m = String::new();
                    m.append("`");
                    m.append(callee);
                    m.append("` is missing a value for parameter `");
                    m.append(p.name.as_str());
                    m.append("`");
                    return Err(Diagnostic::error_owned(span_copy(call_span), m));
                },
            };
            if default_chain.is_none() {
                default_chain = Some(chain_push(active, callee));
            }
            let v = match &default_chain {
                Some(dc) => eval_in(env, &no_locals, dc, d)?,
                None => {
                    return Err(Diagnostic::error(span_copy(call_span), "internal: no default scope"));
                },
            };
            let mut what = msg3("the default for `", p.name.as_str(), "` of `");
            what.append(callee);
            what.append("`");
            check_type(&v, p.ty, &p.span, what.as_str())?;
            let ghost vb = v@;
            let ghost old_b = scope_of(bound@);
            bound.push((p.name.clone(), v));
            assert(scope_of(bound@) =~= old_b.push((params@[k as int].name@, vb)));
        }
        k = k + 1;
    }
    Ok(bound)
}

/// The name an argument is passed under (empty for a positional one).
pub open spec fn spec_name_of(arg: &Arg) -> Seq<char> {
    match arg.name {
        Some(n) => n@,
        None => Seq::empty(),
    }
}

proof fn lemma_first_param(params: Seq<Param>, n: Seq<char>, k: int)
    ensures
        first_param(params, n, k) matches Some(q) ==> k <= q < params.len() && params[q].name@ == n,
    decreases params.len() - k,
{
    if 0 <= k < params.len() && params[k].name@ != n {
        lemma_first_param(params, n, k + 1);
    }
}

/// The value of `e` in the scope of `env`.
pub open spec fn env_eval(env: &Env, e: Expr) -> Result<Val, ()> {
    spec_eval(env.consts_view(), env.fns_view(), env.locals_view(), env.chain_view(), e)
}

impl Env {
    /// The value of `e` in this environment's module scope, with `locals`
    /// as the innermost parameters and `active` the expansions in progress
    /// (a `proc` body's scope, as the emitter keeps it).
    pub fn eval_scoped(&self, locals: &Vec<(String, Value)>, active: &Vec<String>, e: &Expr) -> (res: Result<Value, Diagnostic>)
        ensures
            res is Ok <==> spec_eval(self.consts_view(), self.fns_view(), scope_of(locals@), chain_of(active@), *e) is Ok,
            res matches Ok(v) ==> spec_eval(self.consts_view(), self.fns_view(), scope_of(locals@), chain_of(active@), *e) == Ok::<Val, ()>(v@),
    {
        proof {
            use_type_invariant(self);
        }
        eval_in(self, locals, active, e)
    }

    /// Bind a call's arguments in a scope kept by the caller (see
    /// [`Env::eval_scoped`]); the binder [`bind_args`] shares.
    pub fn bind_scoped(&self, locals: &Vec<(String, Value)>, active: &Vec<String>, callee: &str, params: &[Param], args: &[Arg], call_span: &Span) -> (res: Result<Vec<(String, Value)>, Diagnostic>)
        ensures
            res is Ok <==> spec_bind(self.consts_view(), self.fns_view(), scope_of(locals@), chain_of(active@), callee@, params@, args@) is Ok,
            res matches Ok(b) ==> spec_bind(self.consts_view(), self.fns_view(), scope_of(locals@), chain_of(active@), callee@, params@, args@) == Ok::<Scope, ()>(scope_of(b@)),
            bind_fault(self.consts_view(), self.fns_view(), scope_of(locals@), chain_of(active@), callee@, params@, args@, *call_span, 0, Seq::empty())
                matches Some((sp, m)) ==> (res matches Err(d) && d.primary == sp && d.message@ == m),
    {
        proof {
            use_type_invariant(self);
        }
        bind_in(self, locals, active, callee, params, args, call_span)
    }

    /// The chain of expansions in progress, as owned names.
    pub fn chain(&self) -> (res: Vec<String>)
        ensures
            chain_of(res@) == self.chain_view(),
    {
        let mut out: Vec<String> = Vec::new();
        let mut k: usize = 0;
        while k < self.active.len()
            invariant
                k <= self.active@.len(),
                out@.len() == k,
                forall|j: int| 0 <= j < k ==> #[trigger] out@[j]@ == self.active@[j]@,
            decreases self.active@.len() - k,
        {
            out.push(self.active[k].clone());
            k = k + 1;
        }
        assert(chain_of(out@) =~= chain_of(self.active@));
        out
    }

    /// A copy of the innermost call's parameters.
    pub fn locals(&self) -> (res: Vec<(String, Value)>)
        ensures
            scope_of(res@) == self.locals_view(),
    {
        copy_scope(&self.locals)
    }

    /// This environment with `bindings` as its parameter scope, replacing any
    /// locals: the module `const`s and `fn`s and the chain survive, the
    /// caller's locals do not.
    pub fn child_for_call_values(&self, bindings: Vec<(String, Value)>) -> (res: Env)
        ensures
            res.consts_view() == self.consts_view(),
            res.locals_view() == scope_of(bindings@),
            res.chain_view() == self.chain_view(),
            res.fns_view().len() == self.fns_view().len(),
            forall|k: int| 0 <= k < self.fns_view().len() ==> (#[trigger] res.fns_view()[k]).name@ == self.fns_view()[k].name@,
            forall|k: int| 0 <= k < self.fns_view().len() ==> fn_same(self.fns_view()[k], #[trigger] res.fns_view()[k]),
            forall|n: Seq<char>| #[trigger] fn_index(res.fns_view(), n) == fn_index(self.fns_view(), n),
    {
        proof {
            use_type_invariant(self);
        }
        let consts = copy_scope(&self.consts);
        let active = self.chain();
        let mut fns: Vec<FnDef> = Vec::new();
        let mut k: usize = 0;
        while k < self.fns.len()
            invariant
                k <= self.fns@.len(),
                fns@.len() == k,
                distinct_fns(self.fns@),
                forall|j: int| 0 <= j < k ==> (#[trigger] fns@[j]).name@ == self.fns@[j].name@,
                forall|j: int| 0 <= j < k ==> fn_same(self.fns@[j], #[trigger] fns@[j]),
            decreases self.fns@.len() - k,
        {
            fns.push(clone_fn(&self.fns[k]));
            k = k + 1;
        }
        assert forall|n: Seq<char>| #[trigger] fn_index(fns@, n) == fn_index(self.fns@, n) by {
            lemma_fn_index_names(fns@, self.fns@, n);
        }
        assert(distinct_fns(fns@)) by {
            assert forall|a: int, b: int| 0 <= a < b < fns@.len() implies #[trigger] fns@[a].name@ != #[trigger] fns@[b].name@ by {
                assert(self.fns@[a].name@ != self.fns@[b].name@);
            }
        }
        Env { consts, locals: bindings, fns, active }
    }

    /// The environment a call body is evaluated in: the module scope plus
    /// `bindings`, with `callee` pushed onto the chain.
    pub fn child_for_call(&self, callee: &str, bindings: Vec<(String, Value)>) -> (res: Env)
        ensures
            res.consts_view() == self.consts_view(),
            res.locals_view() == scope_of(bindings@),
            res.chain_view() == self.chain_view().push(callee@),
            res.fns_view().len() == self.fns_view().len(),
            forall|k: int| 0 <= k < self.fns_view().len() ==> fn_same(self.fns_view()[k], #[trigger] res.fns_view()[k]),
            forall|n: Seq<char>| #[trigger] fn_index(res.fns_view(), n) == fn_index(self.fns_view(), n),
    {
        let mut e = self.child_for_call_values(bindings);
        let pushed = chain_push(&e.active, callee);
        proof {
            use_type_invariant(&e);
        }
        e.active = pushed;
        e
    }
}

fn copy_scope(list: &Vec<(String, Value)>) -> (res: Vec<(String, Value)>)
    ensures
        scope_of(res@) == scope_of(list@),
{
    let mut out: Vec<(String, Value)> = Vec::new();
    let mut k: usize = 0;
    while k < list.len()
        invariant
            k <= list@.len(),
            out@.len() == k,
            forall|j: int| 0 <= j < k ==> (#[trigger] out@[j]).0@ == list@[j].0@ && out@[j].1@ == list@[j].1@,
        decreases list@.len() - k,
    {
        out.push((list[k].0.clone(), list[k].1.copy()));
        k = k + 1;
    }
    assert(scope_of(out@) =~= scope_of(list@));
    out
}

/// `b` is a copy of `a`: the same variant, equal fields, and copies all the
/// way down.
pub open spec fn expr_same(a: Expr, b: Expr) -> bool
    decreases a,
{
    match a {
        Expr::Int { value, span } => b matches Expr::Int { value: v2, span: s2 } && value == v2 && span == s2,
        Expr::Name { name, span } => b matches Expr::Name { name: n2, span: s2 } && name == n2 && span == s2,
        Expr::Bytes { elems, span } => b matches Expr::Bytes { elems: e2, span: s2 } && span == s2 && elems_same(
            elems@,
            e2@,
        ),
        Expr::Call { func, args, span } => b matches Expr::Call { func: f2, args: a2, span: s2 } && func == f2
            && span == s2 && args_same(args@, a2@),
        Expr::Binary { op, lhs, rhs, span } => b matches Expr::Binary { op: o2, lhs: l2, rhs: r2, span: s2 } && op
            == o2 && span == s2 && expr_same(*lhs, *l2) && expr_same(*rhs, *r2),
    }
}

/// `ys` copies `xs` element by element.
pub open spec fn elems_same(xs: Seq<Expr>, ys: Seq<Expr>) -> bool
    decreases xs,
{
    xs.len() == ys.len() && (xs.len() == 0 || (elems_same(xs.drop_last(), ys.drop_last()) && expr_same(
        xs.last(),
        ys.last(),
    )))
}

/// `ys` copies the arguments `xs` one by one.
pub open spec fn args_same(xs: Seq<Arg>, ys: Seq<Arg>) -> bool
    decreases xs,
{
    xs.len() == ys.len() && (xs.len() == 0 || (args_same(xs.drop_last(), ys.drop_last()) && xs.last().name
        == ys.last().name && xs.last().span == ys.last().span && expr_same(xs.last().value, ys.last().value)))
}

/// `b` is a copy of the parameter `a`.
pub open spec fn param_same(a: Param, b: Param) -> bool {
    &&& a.name@ == b.name@
    &&& a.ty == b.ty
    &&& a.span == b.span
    &&& match (a.default, b.default) {
        (Some(x), Some(y)) => expr_same(x, y),
        (None, None) => true,
        _ => false,
    }
}

/// `b` is a copy of the `fn` item `a`: the same name, parameters, return
/// type and body.
pub open spec fn fn_same(a: FnDef, b: FnDef) -> bool {
    &&& a.name@ == b.name@
    &&& a.name_span == b.name_span
    &&& a.params@.len() == b.params@.len()
    &&& forall|k: int| 0 <= k < a.params@.len() ==> param_same(#[trigger] a.params@[k], b.params@[k])
    &&& a.ret == b.ret
    &&& expr_same(a.body, b.body)
}

/// Two `fn` tables whose entries have the same names find the same index
/// for every name.
pub proof fn lemma_fn_index_names(a: Seq<FnDef>, b: Seq<FnDef>, name: Seq<char>)
    requires
        a.len() == b.len(),
        forall|k: int| 0 <= k < a.len() ==> (#[trigger] a[k]).name@ == b[k].name@,
    ensures
        fn_index(a, name) == fn_index(b, name),
    decreases a.len(),
{
    if a.len() > 0 {
        let (pa, pb) = (a.drop_last(), b.drop_last());
        assert forall|k: int| 0 <= k < pa.len() implies (#[trigger] pa[k]).name@ == pb[k].name@ by {
            assert(pa[k] == a[k] && pb[k] == b[k]);
        }
        lemma_fn_index_names(pa, pb, name);
    }
}

/// A deep copy of an expression.
pub fn clone_expr(e: &Expr) -> (res: Expr)
    ensures
        expr_same(*e, res),
    decreases *e,
{
    match e {
        Expr::Int { value, span } => Expr::Int { value: *value, span: span_copy(span) },
        Expr::Name { name, span } => Expr::Name { name: name.clone(), span: span_copy(span) },
        Expr::Bytes { elems, span } => Expr::Bytes { elems: clone_exprs(elems), span: span_copy(span) },
        Expr::Call { func, args, span } => Expr::Call { func: func.clone(), args: clone_args(args), span: span_copy(span) },
        Expr::Binary { op, lhs, rhs, span } => Expr::Binary {
            op: *op,
            lhs: Box::new(clone_expr(lhs)),
            rhs: Box::new(clone_expr(rhs)),
            span: span_copy(span),
        },
    }
}

/// A deep copy of a list of expressions.
pub fn clone_exprs(elems: &Vec<Expr>) -> (res: Vec<Expr>)
    ensures
        elems_same(elems@, res@),
    decreases elems@,
{
    let mut out: Vec<Expr> = Vec::new();
    let mut k: usize = 0;
    while k < elems.len()
        invariant
            k <= elems@.len(),
            elems_same(elems@.subrange(0, k as int), out@),
        decreases elems@.len() - k,
    {
        let ghost prev = out@;
        out.push(clone_expr(&elems[k]));
        proof {
            let p = elems@.subrange(0, k + 1);
            assert(p.drop_last() =~= elems@.subrange(0, k as int));
            assert(out@.drop_last() =~= prev);
        }
        k = k + 1;
    }
    assert(elems@.subrange(0, elems@.len() as int) =~= elems@);
    out
}

/// A deep copy of an argument list.
pub fn clone_args(args: &Vec<Arg>) -> (res: Vec<Arg>)
    ensures
        args_same(args@, res@),
    decreases args@,
{
    let mut out: Vec<Arg> = Vec::new();
    let mut k: usize = 0;
    while k < args.len()
        invariant
            k <= args@.len(),
            args_same(args@.subrange(0, k as int), out@),
        decreases args@.len() - k,
    {
        let ghost prev = out@;
        let a = &args[k];
        let name = match &a.name {
            Some(n) => Some(n.clone()),
            None => None,
        };
        out.push(Arg { name, value: clone_expr(&a.value), span: span_copy(&a.span) });
        proof {
            let p = args@.subrange(0, k + 1);
            assert(p.drop_last() =~= args@.subrange(0, k as int));
            assert(out@.drop_last() =~= prev);
        }
        k = k + 1;
    }
    assert(args@.subrange(0, args@.len() as int) =~= args@);
    out
}

/// A deep copy of a `fn` item, under the same name.
pub fn clone_fn(f: &FnDef) -> (res: FnDef)
    ensures
        res.name@ == f.name@,
        fn_same(*f, res),
{
    let mut params: Vec<Param> = Vec::new();
    let mut k: usize = 0;
    while k < f.params.len()
        invariant
            k <= f.params@.len(),
            params@.len() == k,
            forall|j: int| 0 <= j < k ==> param_same(#[trigger] f.params@[j], params@[j]),
        decreases f.params@.len() - k,
    {
        let p = &f.params[k];
        let default = match &p.default {
            Some(d) => Some(clone_expr(d)),
            None => None,
        };
        let ghost prev = params@;
        params.push(Param { name: p.name.clone(), ty: p.ty, default, span: span_copy(&p.span) });
        proof {
            assert forall|j: int| 0 <= j < k + 1 implies param_same(#[trigger] f.params@[j], params@[j]) by {
                if j < k {
                    assert(params@[j] == prev[j]);
                }
            }
        }
        k = k + 1;
    }
    FnDef {
        name: f.name.clone(),
        name_span: span_copy(&f.name_span),
        params,
        ret: f.ret,
        body: clone_expr(&f.body),
    }
}

/// Fold an expression to a [`Value`] in the given environment.
pub fn eval(e: &Expr, env: &Env) -> (res: Result<Value, Diagnostic>)
    ensures
        res is Ok <==> env_eval(env, *e) is Ok,
        res matches Ok(v) ==> env_eval(env, *e) == Ok::<Val, ()>(v@),
        *e matches Expr::Call { func, args, span } ==> (is_builtin(func@) && !(args@.len() == 1 && args@[0].name is None)
            ==> (res matches Err(d) && arity_error(func@, args@, span, d))),
        *e matches Expr::Name { name, span } ==> (res is Err ==> (res matches Err(d) && d.message@ == "unknown name `"@
            + name@ + "`"@ && d.primary == span)),
{
    proof {
        use_type_invariant(env);
    }
    eval_in(env, &env.locals, &env.active, e)
}

/// Evaluate `e` to an integer.
pub fn eval_int(e: &Expr, env: &Env) -> (res: Result<i64, Diagnostic>)
    ensures
        res is Ok <==> (env_eval(env, *e) matches Ok(Val::Int(_))),
        res matches Ok(n) ==> env_eval(env, *e) == Ok::<Val, ()>(Val::Int(n)),
{
    match eval(e, env)? {
        Value::Int(n) => Ok(n),
        Value::Bytes(_) => Err(Diagnostic::error(e.span(), "expected an integer, found bytes")),
    }
}

/// Evaluate `e` to a byte string.
pub fn eval_bytes(e: &Expr, env: &Env) -> (res: Result<Vec<u8>, Diagnostic>)
    ensures
        res is Ok <==> (env_eval(env, *e) matches Ok(Val::Bytes(_))),
        res matches Ok(b) ==> env_eval(env, *e) == Ok::<Val, ()>(Val::Bytes(b@)),
{
    match eval(e, env)? {
        Value::Bytes(b) => Ok(b),
        Value::Int(_) => Err(Diagnostic::error(e.span(), "expected bytes, found an integer")),
    }
}

/// Evaluate `e` to a single byte (an integer in `0..=255`).
pub fn eval_byte(e: &Expr, env: &Env) -> (res: Result<u8, Diagnostic>)
    ensures
        res is Ok <==> (env_eval(env, *e) matches Ok(Val::Int(n)) && 0 <= n <= 255),
        res matches Ok(b) ==> env_eval(env, *e) == Ok::<Val, ()>(Val::Int(b as i64)),
        env_eval(env, *e) matches Ok(Val::Int(n)) && !(0 <= n <= 255) ==> (res matches Err(d)
            && d.primary == expr_span(*e)),
{
    let n = eval_int(e, env)?;
    if 0 <= n && n <= 255 {
        Ok(n as u8)
    } else {
        let mut m = String::new();
        m.append("byte value ");
        m.append(n.to_string().as_str());
        m.append(" is out of range 0..=255");
        Err(Diagnostic::error_owned(e.span(), m))
    }
}

/// Bind a call's arguments to a callable's parameters: positional arguments
/// in declaration order, then named ones by name (a positional may not
/// follow a named one), then each parameter still unbound takes its
/// default, evaluated in module scope with the callee on the chain. Every
/// bound value is checked against its declared type. Shared by `fn` and
/// `proc`, so the two callables cannot drift apart.
pub fn bind_args(callee: &str, params: &[Param], args: &[Arg], env: &Env, call_span: &Span) -> (res: Result<Vec<(String, Value)>, Diagnostic>)
    ensures
        res is Ok <==> spec_bind(env.consts_view(), env.fns_view(), env.locals_view(), env.chain_view(), callee@, params@, args@) is Ok,
        res matches Ok(b) ==> spec_bind(env.consts_view(), env.fns_view(), env.locals_view(), env.chain_view(), callee@, params@, args@) == Ok::<Scope, ()>(scope_of(b@)),
        res matches Ok(b) ==> entries_typed(params@, scope_of(b@)) && forall|p: int|
            0 <= p < params@.len() ==> bound_has(scope_of(b@), #[trigger] params@[p].name@),
        bind_fault(env.consts_view(), env.fns_view(), env.locals_view(), env.chain_view(), callee@, params@, args@, *call_span, 0, Seq::empty())
            matches Some((sp, m)) ==> (res matches Err(d) && d.primary == sp && d.message@ == m),
{
    proof {
        use_type_invariant(env);
    }
    let res = bind_in(env, &env.locals, &env.active, callee, params, args, call_span);
    proof {
        if let Ok(b) = &res {
            lemma_bind_covers_params(
                env.consts_view(),
                env.fns_view(),
                env.locals_view(),
                env.chain_view(),
                callee@,
                params@,
                args@,
                scope_of(b@),
            );
        }
    }
    res
}

/// The value bound to `name` in a binding list.
pub fn binding<'a>(bound: &'a Vec<(String, Value)>, name: &str) -> (res: Option<&'a Value>)
    ensures
        match res {
            Some(v) => assoc(scope_of(bound@), name@) == Some(v@),
            None => assoc(scope_of(bound@), name@) is None,
        },
{
    assoc_get(bound, name)
}

/// The names of the compile-time builtins.
pub fn builtins() -> (res: Vec<&'static str>)
    ensures
        res@.len() == 4,
{
    vec!["crc8", "len", "lo", "hi"]
}

} // verus!
