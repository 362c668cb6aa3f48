//! Compile-time macros and built-in functions (names ending in `!`).
//! Inside a `(module ...)` form, `(module-ports!)` gives the names of the
//! ports that the module's `(ports ...)` form declares.
use vstd::prelude::*;
use crate::ast::{collect_ports, ports_view, spec_collect_ports, SpecPort};
use crate::error::{diag_owned, spec_diag, Diagnostic, Span, SpecDiag};
use crate::parser::{
    copy_sexpr, copy_sexprs_from, lemma_list_view, sexprs_result_view, sexprs_view, spec_span_of, SExpr,
    SpecSExpr,
};
use crate::text::{
    append_names, lemma_parse_i64_text, chars_of, i64_to_string, int_text, names_of, nat_text, parse_i64, push_str, push_usize,
    spec_parse_i64, string_is, string_of,
};

verus! {

broadcast use lemma_list_view;

/// How deeply expansions may nest: 2^32 - 1 levels. Each level holds call
/// frames, so no run reaches this bound before its stack is exhausted; it
/// only gives the expansion a measure that decreases.
pub const MAX_EXPANSION_DEPTH: usize = 4294967295;

/// A macro definition.
struct MacroDef {
    params: Vec<String>,
    body: SExpr,
}

/// The macros known while expanding, the file they come from, and the port
/// names of the module being expanded. A name defined twice means its latest
/// definition.
pub struct MacroContext {
    macros: Vec<(String, MacroDef)>,
    file_name: String,
    ports: Vec<String>,
}

/// The mathematical value of a macro definition.
pub struct SpecMacro {
    pub name: Seq<char>,
    pub params: Seq<Seq<char>>,
    pub body: SpecSExpr,
}

/// The mathematical value of a `MacroContext`.
pub struct SpecCtx {
    pub macros: Seq<SpecMacro>,
    pub file: Seq<char>,
    pub ports: Seq<Seq<char>>,
}

/// Variable bindings: the latest binding of a name wins.
pub type SpecEnv = Seq<(Seq<char>, SpecSExpr)>;

pub open spec fn texts_view(s: Seq<String>) -> Seq<Seq<char>> {
    Seq::new(s.len(), |i: int| s[i]@)
}

pub open spec fn env_view(b: Seq<(String, SExpr)>) -> SpecEnv {
    Seq::new(b.len(), |i: int| (b[i].0@, b[i].1@))
}

impl MacroContext {
    pub closed spec fn view(&self) -> SpecCtx {
        SpecCtx {
            macros: Seq::new(
                self.macros@.len(),
                |i: int|
                    SpecMacro {
                        name: self.macros@[i].0@,
                        params: texts_view(self.macros@[i].1.params@),
                        body: self.macros@[i].1.body@,
                    },
            ),
            file: self.file_name@,
            ports: texts_view(self.ports@),
        }
    }
}

/// The latest binding of `name` in `env`.
pub open spec fn lookup(env: SpecEnv, name: Seq<char>) -> Option<SpecSExpr>
    decreases env.len(),
{
    if env.len() == 0 {
        None
    } else if env.last().0 == name {
        Some(env.last().1)
    } else {
        lookup(env.drop_last(), name)
    }
}

/// The latest definition of the macro `name`.
pub open spec fn find_macro(ms: Seq<SpecMacro>, name: Seq<char>) -> Option<SpecMacro>
    decreases ms.len(),
{
    if ms.len() == 0 {
        None
    } else if ms.last().name == name {
        Some(ms.last())
    } else {
        find_macro(ms.drop_last(), name)
    }
}

/// `t` names a compile-time function: it ends with `!`.
pub open spec fn ends_bang(t: Seq<char>) -> bool {
    t.len() > 0 && t.last() == '!'
}

pub open spec fn is_atom(s: SpecSExpr, lit: Seq<char>) -> bool {
    s matches SpecSExpr::Atom(t, _) && t == lit
}

pub open spec fn too_deep(c: SpecCtx, span: Span) -> SpecDiag {
    spec_diag("macro expansion nested too deeply"@, c.file, span)
}

pub open spec fn err_at(c: SpecCtx, msg: Seq<char>, span: Span) -> SpecDiag {
    spec_diag(msg, c.file, span)
}

/// Adds the expansion `e` to `acc`; a `(begin ...)` list adds its elements
/// after `begin` instead.
pub open spec fn add_expansion(acc: Seq<SpecSExpr>, e: SpecSExpr) -> Seq<SpecSExpr> {
    if e is List && e->List_0.len() > 0 && is_atom(e->List_0[0], "begin"@) {
        acc + e->List_0.skip(1)
    } else {
        acc.push(e)
    }
}

/// A value is false when it is the atom `0` or `false`.
pub open spec fn truth(e: SpecSExpr) -> bool {
    !(is_atom(e, "0"@) || is_atom(e, "false"@))
}

pub open spec fn in_i64(v: int) -> bool {
    i64::MIN <= v <= i64::MAX
}

pub open spec fn abs(a: int) -> int {
    if a < 0 {
        -a
    } else {
        a
    }
}

/// Division rounding toward zero, as Rust's `/` on integers.
pub open spec fn trunc_div(a: int, b: int) -> int {
    if (a < 0) != (b < 0) {
        -(abs(a) / abs(b))
    } else {
        abs(a) / abs(b)
    }
}

/// The remainder of `trunc_div`, with the sign of `a`, as Rust's `%`.
pub open spec fn trunc_rem(a: int, b: int) -> int {
    if a < 0 {
        -(abs(a) % abs(b))
    } else {
        abs(a) % abs(b)
    }
}

pub open spec fn bool_atom(b: bool, span: Span) -> SpecSExpr {
    SpecSExpr::Atom(
        if b {
            "1"@
        } else {
            "0"@
        },
        span,
    )
}

/// Expanding `s` under the bindings `env`, with `fuel` levels of nesting left.
pub open spec fn spec_expand(c: SpecCtx, s: SpecSExpr, env: SpecEnv, fuel: nat) -> Result<
    SpecSExpr,
    SpecDiag,
>
    decreases fuel, 0int, 0int,
{
    if fuel == 0 {
        Err(too_deep(c, spec_span_of(s)))
    } else {
        match s {
            SpecSExpr::Atom(t, sp) => match lookup(env, t) {
                Some(v) => Ok(v),
                None => Ok(SpecSExpr::Atom(t, sp)),
            },
            SpecSExpr::List(list, sp) => if list.len() == 0 {
                Ok(SpecSExpr::List(Seq::empty(), sp))
            } else if list[0] is Atom && find_macro(c.macros, list[0]->Atom_0) is Some
                && !ends_bang(list[0]->Atom_0) {
                match spec_expand_items(c, list, 1, env, (fuel - 1) as nat, Seq::empty()) {
                    Ok(args) => spec_expand_macro(c, list[0]->Atom_0, args, sp, (fuel - 1) as nat),
                    Err(e) => Err(e),
                }
            } else if list[0] is Atom && ends_bang(list[0]->Atom_0) {
                spec_eval_builtin(c, list[0]->Atom_0, list.skip(1), env, sp, (fuel - 1) as nat)
            } else if is_atom(list[0], "module"@) {
                match spec_expand_items(c, ports_forms(list), 0, env, (fuel - 1) as nat, Seq::empty()) {
                    Err(e) => Err(e),
                    Ok(pf) => match spec_expand_items(
                        SpecCtx { ports: declared_port_names(pf, c.file), ..c },
                        list,
                        0,
                        env,
                        (fuel - 1) as nat,
                        Seq::empty(),
                    ) {
                        Ok(items) => Ok(SpecSExpr::List(items, sp)),
                        Err(e) => Err(e),
                    },
                }
            } else {
                match spec_expand_items(c, list, 0, env, (fuel - 1) as nat, Seq::empty()) {
                    Ok(items) => Ok(SpecSExpr::List(items, sp)),
                    Err(e) => Err(e),
                }
            },
        }
    }
}

/// `s` is a `(ports ...)` form.
pub open spec fn is_ports_form(s: SpecSExpr) -> bool {
    s matches SpecSExpr::List(items, _) && items.len() > 0 && is_atom(items[0], "ports"@)
}

/// The `(ports ...)` forms among `l`, in their order.
pub open spec fn ports_forms(l: Seq<SpecSExpr>) -> Seq<SpecSExpr>
    decreases l.len(),
{
    if l.len() == 0 {
        Seq::empty()
    } else if is_ports_form(l.last()) {
        ports_forms(l.drop_last()).push(l.last())
    } else {
        ports_forms(l.drop_last())
    }
}

/// The names of the ports that the last of the expanded `(ports ...)` forms
/// `pf` declares, as a module takes them; none when it declares them wrongly.
pub open spec fn declared_port_names(pf: Seq<SpecSExpr>, file: Seq<char>) -> Seq<Seq<char>> {
    if pf.len() > 0 && pf.last() is List {
        match spec_collect_ports(pf.last()->List_0, 1, file, Seq::empty()) {
            Ok(ps) => port_names(ps),
            Err(_) => Seq::empty(),
        }
    } else {
        Seq::empty()
    }
}

pub open spec fn port_names(ps: Seq<SpecPort>) -> Seq<Seq<char>> {
    Seq::new(ps.len(), |i: int| ps[i].name)
}

/// Expanding each of `l[i..]`, after the expansions `acc`.
pub open spec fn spec_expand_items(
    c: SpecCtx,
    l: Seq<SpecSExpr>,
    i: int,
    env: SpecEnv,
    fuel: nat,
    acc: Seq<SpecSExpr>,
) -> Result<Seq<SpecSExpr>, SpecDiag>
    decreases fuel, 1int, l.len() - i,
{
    if i < 0 || i >= l.len() {
        Ok(acc)
    } else {
        match spec_expand(c, l[i], env, fuel) {
            Ok(e) => spec_expand_items(c, l, i + 1, env, fuel, acc.push(e)),
            Err(e) => Err(e),
        }
    }
}

/// The bindings of the parameters `params` to the arguments `args`.
pub open spec fn bind_params(params: Seq<Seq<char>>, args: Seq<SpecSExpr>) -> SpecEnv {
    Seq::new(params.len(), |i: int| (params[i], args[i]))
}

pub open spec fn arity_message(name: Seq<char>, expected: nat, got: nat) -> Seq<char> {
    "Macro "@ + name + " expects "@ + nat_text(expected) + " arguments, got "@ + nat_text(got)
}

/// Expanding a call of the macro `name` on the (expanded) arguments `args`.
pub open spec fn spec_expand_macro(
    c: SpecCtx,
    name: Seq<char>,
    args: Seq<SpecSExpr>,
    span: Span,
    fuel: nat,
) -> Result<SpecSExpr, SpecDiag>
    decreases fuel, 4int, 0int,
{
    let def = find_macro(c.macros, name)->0;
    if args.len() != def.params.len() {
        Err(err_at(c, arity_message(name, def.params.len(), args.len()), span))
    } else {
        spec_expand(c, def.body, bind_params(def.params, args), fuel)
    }
}

/// An `i64` value, or a diagnostic.
pub type IntResult = Result<int, SpecDiag>;

/// Evaluating `e` to an integer.
pub open spec fn spec_eval_integer(c: SpecCtx, e: SpecSExpr, env: SpecEnv, span: Span, fuel: nat) -> IntResult
    decreases fuel, 2int, 0int,
{
    match spec_expand(c, e, env, fuel) {
        Err(d) => Err(d),
        Ok(SpecSExpr::Atom(s, _)) => match spec_parse_i64(s) {
            Some(v) => Ok(v as int),
            None => Err(err_at(c, "Expected integer, got: "@ + s, span)),
        },
        Ok(SpecSExpr::List(..)) => Err(err_at(c, "Expected integer"@, span)),
    }
}

/// Evaluating `e` to an atom; `what` names the expected kind in the error.
pub open spec fn spec_eval_text(
    c: SpecCtx,
    e: SpecSExpr,
    env: SpecEnv,
    span: Span,
    fuel: nat,
    what: Seq<char>,
) -> Result<Seq<char>, SpecDiag>
    decreases fuel, 2int, 0int,
{
    match spec_expand(c, e, env, fuel) {
        Err(d) => Err(d),
        Ok(SpecSExpr::Atom(s, _)) => Ok(s),
        Ok(SpecSExpr::List(..)) => Err(err_at(c, what, span)),
    }
}

pub open spec fn spec_eval_bool(c: SpecCtx, e: SpecSExpr, env: SpecEnv, fuel: nat) -> Result<
    bool,
    SpecDiag,
>
    decreases fuel, 2int, 0int,
{
    match spec_expand(c, e, env, fuel) {
        Err(d) => Err(d),
        Ok(v) => Ok(truth(v)),
    }
}

pub open spec fn spec_eval_list(c: SpecCtx, e: SpecSExpr, env: SpecEnv, span: Span, fuel: nat) -> Result<
    Seq<SpecSExpr>,
    SpecDiag,
>
    decreases fuel, 2int, 0int,
{
    match spec_expand(c, e, env, fuel) {
        Err(d) => Err(d),
        Ok(SpecSExpr::List(l, _)) => Ok(l),
        Ok(SpecSExpr::Atom(..)) => Err(err_at(c, "Expected list"@, span)),
    }
}

/// Folding the integers of `args[i..]` into `acc` by addition (`mul` false)
/// or multiplication (`mul` true); leaving the range of `i64` is an error.
pub open spec fn spec_fold_ints(
    c: SpecCtx,
    args: Seq<SpecSExpr>,
    i: int,
    env: SpecEnv,
    span: Span,
    fuel: nat,
    mul: bool,
    acc: int,
) -> IntResult
    decreases fuel, 3int, args.len() - i,
{
    if i < 0 || i >= args.len() {
        Ok(acc)
    } else {
        match spec_eval_integer(c, args[i], env, span, fuel) {
            Err(d) => Err(d),
            Ok(v) => {
                let next = if mul {
                    acc * v
                } else {
                    acc + v
                };
                if !in_i64(next) {
                    Err(
                        err_at(
                            c,
                            if mul {
                                "Integer overflow in *!"@
                            } else {
                                "Integer overflow in +!"@
                            },
                            span,
                        ),
                    )
                } else {
                    spec_fold_ints(c, args, i + 1, env, span, fuel, mul, next)
                }
            },
        }
    }
}

/// The integers of the two arguments `args[0]` and `args[1]`.
pub open spec fn spec_two_ints(c: SpecCtx, args: Seq<SpecSExpr>, env: SpecEnv, span: Span, fuel: nat) -> Result<
    (int, int),
    SpecDiag,
>
    decreases fuel, 3int, 0int,
{
    match spec_eval_integer(c, args[0], env, span, fuel) {
        Err(d) => Err(d),
        Ok(a) => match spec_eval_integer(c, args[1], env, span, fuel) {
            Err(d) => Err(d),
            Ok(b) => Ok((a, b)),
        },
    }
}

/// The result of a two-argument integer built-in `name` on `a` and `b`.
pub open spec fn binary_builtin(c: SpecCtx, name: Seq<char>, a: int, b: int, span: Span) -> Result<
    SpecSExpr,
    SpecDiag,
> {
    if name == "-!"@ {
        if in_i64(a - b) {
            Ok(SpecSExpr::Atom(int_text(a - b), span))
        } else {
            Err(err_at(c, "Integer overflow in -!"@, span))
        }
    } else if name == "/!"@ {
        if b == 0 {
            Err(err_at(c, "Division by zero in /!"@, span))
        } else if in_i64(trunc_div(a, b)) {
            Ok(SpecSExpr::Atom(int_text(trunc_div(a, b)), span))
        } else {
            Err(err_at(c, "Integer overflow in /!"@, span))
        }
    } else if name == "%!"@ {
        if b == 0 {
            Err(err_at(c, "Modulo by zero in %!"@, span))
        } else {
            Ok(SpecSExpr::Atom(int_text(trunc_rem(a, b)), span))
        }
    } else if name == "==!"@ {
        Ok(bool_atom(a == b, span))
    } else if name == "!=!"@ {
        Ok(bool_atom(a != b, span))
    } else if name == "<!"@ {
        Ok(bool_atom(a < b, span))
    } else if name == "<=!"@ {
        Ok(bool_atom(a <= b, span))
    } else if name == ">!"@ {
        Ok(bool_atom(a > b, span))
    } else {
        Ok(bool_atom(a >= b, span))
    }
}

/// The names of the two-argument integer built-ins.
pub open spec fn is_binary_builtin(name: Seq<char>) -> bool {
    name == "-!"@ || name == "/!"@ || name == "%!"@ || name == "==!"@ || name == "!=!"@ || name
        == "<!"@ || name == "<=!"@ || name == ">!"@ || name == ">=!"@
}

/// Evaluating the built-in `name` on the (unexpanded) arguments `args`.
pub open spec fn spec_eval_builtin(
    c: SpecCtx,
    name: Seq<char>,
    args: Seq<SpecSExpr>,
    env: SpecEnv,
    span: Span,
    fuel: nat,
) -> Result<SpecSExpr, SpecDiag>
    decreases fuel, 9int, 0int,
{
    if name == "expil!"@ {
        if args.len() != 1 {
            Err(err_at(c, "expil! expects 1 argument"@, span))
        } else {
            spec_expand(c, args[0], env, fuel)
        }
    } else if name == "between!"@ {
        spec_between(c, args, env, span, fuel)
    } else if name == "foreach!"@ {
        spec_foreach(c, args, env, span, fuel)
    } else if name == "str!"@ {
        if args.len() != 1 {
            Err(err_at(c, "str! expects 1 argument"@, span))
        } else {
            match spec_eval_text(c, args[0], env, span, fuel, "Expected atom"@) {
                Ok(t) => Ok(SpecSExpr::Atom(t, span)),
                Err(d) => Err(d),
            }
        }
    } else if name == "add!"@ {
        if args.len() != 2 {
            Err(err_at(c, "add! expects 2 arguments"@, span))
        } else {
            match spec_eval_text(c, args[0], env, span, fuel, "Expected string/symbol"@) {
                Err(d) => Err(d),
                Ok(t) => match spec_eval_integer(c, args[1], env, span, fuel) {
                    Err(d) => Err(d),
                    Ok(n) => Ok(SpecSExpr::Atom(t + int_text(n), span)),
                },
            }
        }
    } else if name == "if!"@ {
        if args.len() != 3 {
            Err(err_at(c, "if! expects 3 arguments"@, span))
        } else {
            match spec_eval_bool(c, args[0], env, fuel) {
                Err(d) => Err(d),
                Ok(b) => spec_expand(
                    c,
                    if b {
                        args[1]
                    } else {
                        args[2]
                    },
                    env,
                    fuel,
                ),
            }
        }
    } else if name == "eval!"@ {
        if args.len() != 1 {
            Err(err_at(c, "eval! expects 1 argument"@, span))
        } else {
            spec_expand(c, args[0], env, fuel)
        }
    } else if name == "let!"@ {
        spec_let(c, args, env, span, fuel)
    } else if name == "module-ports!"@ {
        if args.len() != 0 {
            Err(err_at(c, "module-ports! expects no arguments"@, span))
        } else {
            Ok(SpecSExpr::List(Seq::new(c.ports.len(), |i: int| SpecSExpr::Atom(c.ports[i], span)), span))
        }
    } else if name == "+!"@ || name == "*!"@ {
        if args.len() < 2 {
            Err(
                err_at(
                    c,
                    if name == "+!"@ {
                        "+! requires at least two arguments"@
                    } else {
                        "*! requires at least two arguments"@
                    },
                    span,
                ),
            )
        } else {
            match spec_fold_ints(
                c,
                args,
                0,
                env,
                span,
                fuel,
                name == "*!"@,
                if name == "*!"@ {
                    1
                } else {
                    0
                },
            ) {
                Err(d) => Err(d),
                Ok(v) => Ok(SpecSExpr::Atom(int_text(v), span)),
            }
        }
    } else if is_binary_builtin(name) {
        if args.len() != 2 {
            Err(err_at(c, name + " requires exactly two arguments"@, span))
        } else {
            match spec_two_ints(c, args, env, span, fuel) {
                Err(d) => Err(d),
                Ok((a, b)) => binary_builtin(c, name, a, b, span),
            }
        }
    } else {
        Err(err_at(c, "Unknown builtin function: "@ + name, span))
    }
}

/// The atoms `start`, `start + 1`, ..., `end - 1`.
pub open spec fn int_atoms(start: int, end: int, span: Span) -> Seq<SpecSExpr> {
    Seq::new(
        if end > start {
            (end - start) as nat
        } else {
            0
        },
        |k: int| SpecSExpr::Atom(int_text(start + k), span),
    )
}

pub open spec fn spec_between(c: SpecCtx, args: Seq<SpecSExpr>, env: SpecEnv, span: Span, fuel: nat) -> Result<
    SpecSExpr,
    SpecDiag,
>
    decreases fuel, 8int, 0int,
{
    if args.len() != 2 {
        Err(err_at(c, "between! expects 2 arguments"@, span))
    } else {
        match spec_two_ints(c, args, env, span, fuel) {
            Err(d) => Err(d),
            Ok((s, e)) => Ok(SpecSExpr::List(int_atoms(s, e, span), span)),
        }
    }
}

/// Expanding `body` once for each of `items[i..]`, bound to `var`.
pub open spec fn spec_foreach_items(
    c: SpecCtx,
    items: Seq<SpecSExpr>,
    i: int,
    var: Seq<char>,
    body: SpecSExpr,
    env: SpecEnv,
    fuel: nat,
    acc: Seq<SpecSExpr>,
) -> Result<Seq<SpecSExpr>, SpecDiag>
    decreases fuel, 3int, items.len() - i,
{
    if i < 0 || i >= items.len() {
        Ok(acc)
    } else {
        match spec_expand(c, body, env.push((var, items[i])), fuel) {
            Err(d) => Err(d),
            Ok(e) => spec_foreach_items(c, items, i + 1, var, body, env, fuel, add_expansion(acc, e)),
        }
    }
}

pub open spec fn spec_foreach(c: SpecCtx, args: Seq<SpecSExpr>, env: SpecEnv, span: Span, fuel: nat) -> Result<
    SpecSExpr,
    SpecDiag,
>
    decreases fuel, 8int, 0int,
{
    if args.len() < 2 || args.len() > 3 {
        Err(err_at(c, "foreach! expects 2 or 3 arguments: (foreach! list [var] body)"@, span))
    } else if args.len() == 3 && !(args[1] is Atom) {
        Err(err_at(c, "foreach! var must be an atom"@, span))
    } else {
        let var = if args.len() == 3 {
            args[1]->Atom_0
        } else {
            "it"@
        };
        let body = args[args.len() - 1];
        match spec_eval_list(c, args[0], env, span, fuel) {
            Err(d) => Err(d),
            Ok(items) => match spec_foreach_items(c, items, 0, var, body, env, fuel, Seq::empty()) {
                Err(d) => Err(d),
                Ok(r) => Ok(SpecSExpr::List(r, span)),
            },
        }
    }
}

/// Adding the `let!` bindings `bl[i..]` to `new_env`; their values are
/// expanded under `env`.
pub open spec fn spec_let_bindings(
    c: SpecCtx,
    bl: Seq<SpecSExpr>,
    i: int,
    env: SpecEnv,
    new_env: SpecEnv,
    span: Span,
    fuel: nat,
) -> Result<SpecEnv, SpecDiag>
    decreases fuel, 3int, bl.len() - i,
{
    if i < 0 || i >= bl.len() {
        Ok(new_env)
    } else if !(bl[i] is List && bl[i]->List_0.len() == 2) {
        Err(err_at(c, "let! binding must be a list of (var expr)"@, span))
    } else if !(bl[i]->List_0[0] is Atom) {
        Err(err_at(c, "let! binding variable must be an atom"@, span))
    } else {
        match spec_expand(c, bl[i]->List_0[1], env, fuel) {
            Err(d) => Err(d),
            Ok(v) => spec_let_bindings(
                c,
                bl,
                i + 1,
                env,
                new_env.push((bl[i]->List_0[0]->Atom_0, v)),
                span,
                fuel,
            ),
        }
    }
}

/// Expanding the bodies `args[i..]` under `env`, after the expansions `acc`.
pub open spec fn spec_let_bodies(
    c: SpecCtx,
    args: Seq<SpecSExpr>,
    i: int,
    env: SpecEnv,
    fuel: nat,
    acc: Seq<SpecSExpr>,
) -> Result<Seq<SpecSExpr>, SpecDiag>
    decreases fuel, 3int, args.len() - i,
{
    if i < 0 || i >= args.len() {
        Ok(acc)
    } else {
        match spec_expand(c, args[i], env, fuel) {
            Err(d) => Err(d),
            Ok(e) => spec_let_bodies(c, args, i + 1, env, fuel, add_expansion(acc, e)),
        }
    }
}

pub open spec fn spec_let(c: SpecCtx, args: Seq<SpecSExpr>, env: SpecEnv, span: Span, fuel: nat) -> Result<
    SpecSExpr,
    SpecDiag,
>
    decreases fuel, 8int, 0int,
{
    if args.len() < 2 {
        Err(err_at(c, "let! expects at least 2 arguments: (let! bindings body ...)"@, span))
    } else if !(args[0] is List) {
        Err(err_at(c, "let! first argument must be a list of bindings"@, span))
    } else {
        match spec_let_bindings(c, args[0]->List_0, 0, env, env, span, fuel) {
            Err(d) => Err(d),
            Ok(new_env) => match spec_let_bodies(c, args, 1, new_env, fuel, Seq::empty()) {
                Err(d) => Err(d),
                Ok(r) => Ok(SpecSExpr::List(r, span)),
            },
        }
    }
}

} // verus!

verus! {

// ---------------------------------------------------------------------------
// After expansion: lifting nested lists out of module bodies
// ---------------------------------------------------------------------------

/// A module definition `(module name body...)` gets its body flattened; any
/// other list has each of its elements flattened.
pub open spec fn spec_flatten(s: SpecSExpr) -> SpecSExpr
    decreases s, 1int,
{
    match s {
        SpecSExpr::List(list, sp) => if list.len() >= 3 && is_atom(list[0], "module"@) {
            SpecSExpr::List(spec_flatten_body(list, 2, seq![list[0], list[1]]), sp)
        } else {
            SpecSExpr::List(spec_flatten_all(list, 0, Seq::empty()), sp)
        },
        SpecSExpr::Atom(..) => s,
    }
}

pub open spec fn spec_flatten_all(l: Seq<SpecSExpr>, i: int, acc: Seq<SpecSExpr>) -> Seq<
    SpecSExpr,
>
    decreases l, l.len() - i,
{
    if i < 0 || i >= l.len() {
        acc
    } else {
        spec_flatten_all(l, i + 1, acc.push(spec_flatten(l[i])))
    }
}

/// The items of `body[i..]` after `acc`: a list that starts with an atom (a
/// form) and an atom stay as they are, a list that starts with a list is
/// replaced by its own flattened items, and an empty list is dropped.
pub open spec fn spec_flatten_body(body: Seq<SpecSExpr>, i: int, acc: Seq<SpecSExpr>) -> Seq<
    SpecSExpr,
>
    decreases body, body.len() - i,
{
    if i < 0 || i >= body.len() {
        acc
    } else {
        match body[i] {
            SpecSExpr::List(inner, _) => if inner.len() == 0 {
                spec_flatten_body(body, i + 1, acc)
            } else if inner[0] is Atom {
                spec_flatten_body(body, i + 1, acc.push(body[i]))
            } else {
                spec_flatten_body(body, i + 1, spec_flatten_body(inner, 0, acc))
            },
            SpecSExpr::Atom(..) => spec_flatten_body(body, i + 1, acc.push(body[i])),
        }
    }
}

// ---------------------------------------------------------------------------
// The whole program
// ---------------------------------------------------------------------------

pub open spec fn all_atoms(l: Seq<SpecSExpr>) -> bool {
    forall|i: int| 0 <= i < l.len() ==> (#[trigger] l[i]) is Atom
}

pub open spec fn atom_texts(l: Seq<SpecSExpr>) -> Seq<Seq<char>> {
    Seq::new(l.len(), |i: int| l[i]->Atom_0)
}

/// `s` is a `(macro ...)` form.
pub open spec fn is_macro_form(s: SpecSExpr) -> bool {
    s is List && s->List_0.len() > 0 && is_atom(s->List_0[0], "macro"@)
}

/// The macro definitions among the top-level forms `l[i..]` (after
/// `macros`), and the other forms (after `rest`).
pub open spec fn spec_collect_macros(
    l: Seq<SpecSExpr>,
    i: int,
    file: Seq<char>,
    macros: Seq<SpecMacro>,
    rest: Seq<SpecSExpr>,
) -> Result<(Seq<SpecMacro>, Seq<SpecSExpr>), SpecDiag>
    decreases l.len() - i,
{
    if i < 0 || i >= l.len() {
        Ok((macros, rest))
    } else if is_macro_form(l[i]) {
        let list = l[i]->List_0;
        let span = l[i]->List_1;
        if list.len() < 4 {
            Err(spec_diag("Invalid macro definition"@, file, span))
        } else if !(list[1] is Atom) {
            Err(spec_diag("Macro name must be an atom"@, file, span))
        } else if !(list[2] is List) {
            Err(spec_diag("Macro parameters must be a list"@, file, span))
        } else if !all_atoms(list[2]->List_0) {
            Err(spec_diag("Macro parameters must be atoms"@, file, span))
        } else {
            spec_collect_macros(
                l,
                i + 1,
                file,
                macros.push(
                    SpecMacro {
                        name: list[1]->Atom_0,
                        params: atom_texts(list[2]->List_0),
                        body: list[3],
                    },
                ),
                rest,
            )
        }
    } else {
        spec_collect_macros(l, i + 1, file, macros, rest.push(l[i]))
    }
}

/// Expanding each of the forms `l[i..]` with no bindings, after `acc`.
pub open spec fn spec_expand_forms(c: SpecCtx, l: Seq<SpecSExpr>, i: int, acc: Seq<SpecSExpr>) -> Result<
    Seq<SpecSExpr>,
    SpecDiag,
>
    decreases l.len() - i,
{
    if i < 0 || i >= l.len() {
        Ok(acc)
    } else {
        match spec_expand(c, l[i], Seq::empty(), MAX_EXPANSION_DEPTH as nat) {
            Ok(e) => spec_expand_forms(c, l, i + 1, acc.push(e)),
            Err(d) => Err(d),
        }
    }
}

/// Macro expansion of a whole program: the top-level `(macro name (params)
/// body)` forms define macros (and are dropped), every other form is
/// expanded, and module bodies are flattened.
pub open spec fn spec_expand_program(sexprs: Seq<SpecSExpr>, file: Seq<char>) -> Result<
    Seq<SpecSExpr>,
    SpecDiag,
> {
    match spec_collect_macros(sexprs, 0, file, Seq::empty(), Seq::empty()) {
        Err(d) => Err(d),
        Ok((macros, rest)) => match spec_expand_forms(
            SpecCtx { macros, file, ports: Seq::empty() },
            rest,
            0,
            Seq::empty(),
        ) {
            Err(d) => Err(d),
            Ok(r) => Ok(Seq::new(r.len(), |i: int| spec_flatten(r[i]))),
        },
    }
}

// ---------------------------------------------------------------------------
// Laws of the integer built-ins
// ---------------------------------------------------------------------------

/// The call `(op a b)` of a built-in on the decimal atoms of `a` and `b`.
pub open spec fn int_call(op: Seq<char>, a: int, b: int, so: Span, sa: Span, sb: Span, sp: Span) -> SpecSExpr {
    SpecSExpr::List(
        seq![SpecSExpr::Atom(op, so), SpecSExpr::Atom(int_text(a), sa), SpecSExpr::Atom(int_text(b), sb)],
        sp,
    )
}

/// The truth atom of a comparison: `1` when it holds, `0` when not.
pub open spec fn truth_atom(b: bool, sp: Span) -> SpecSExpr {
    SpecSExpr::Atom(if b { "1"@ } else { "0"@ }, sp)
}

/// The two-argument integer built-ins, `+!` and `*!` are named apart from
/// each other and from the other built-ins.
proof fn lemma_int_builtin_names(op: Seq<char>)
    requires
        is_binary_builtin(op) || op == "+!"@ || op == "*!"@,
    ensures
        ends_bang(op),
        op != "expil!"@ && op != "between!"@ && op != "foreach!"@ && op != "str!"@ && op != "add!"@,
        op != "if!"@ && op != "eval!"@ && op != "let!"@ && op != "module-ports!"@,
        is_binary_builtin(op) ==> op != "+!"@ && op != "*!"@,
        op == "+!"@ ==> !is_binary_builtin(op) && op != "*!"@,
        op == "*!"@ ==> !is_binary_builtin(op),
{
    reveal_strlit("expil!");
    reveal_strlit("between!");
    reveal_strlit("foreach!");
    reveal_strlit("str!");
    reveal_strlit("add!");
    reveal_strlit("if!");
    reveal_strlit("eval!");
    reveal_strlit("let!");
    reveal_strlit("module-ports!");
    reveal_strlit("+!");
    reveal_strlit("*!");
    reveal_strlit("-!");
    reveal_strlit("/!");
    reveal_strlit("%!");
    reveal_strlit("==!");
    reveal_strlit("!=!");
    reveal_strlit("<!");
    reveal_strlit("<=!");
    reveal_strlit(">!");
    reveal_strlit(">=!");
    reveal_strlit("1");
    reveal_strlit("0");
    assert("expil!"@[0] == 'e' && "expil!"@.len() == 6);
    assert("between!"@[0] == 'b' && "between!"@.len() == 8);
    assert("foreach!"@[0] == 'f' && "foreach!"@.len() == 8);
    assert("str!"@[0] == 's' && "str!"@.len() == 4);
    assert("add!"@[0] == 'a' && "add!"@.len() == 4);
    assert("if!"@[0] == 'i' && "if!"@.len() == 3);
    assert("eval!"@[0] == 'e' && "eval!"@.len() == 5);
    assert("let!"@[0] == 'l' && "let!"@.len() == 4);
    assert("module-ports!"@[0] == 'm' && "module-ports!"@.len() == 13);
    assert("+!"@[0] == '+' && "+!"@.len() == 2);
    assert("*!"@[0] == '*' && "*!"@.len() == 2);
    assert("-!"@[0] == '-' && "-!"@.len() == 2);
    assert("/!"@[0] == '/' && "/!"@.len() == 2);
    assert("%!"@[0] == '%' && "%!"@.len() == 2);
    assert("==!"@[0] == '=' && "==!"@.len() == 3);
    assert("!=!"@[0] == '!' && "!=!"@.len() == 3);
    assert("<!"@[0] == '<' && "<!"@.len() == 2);
    assert("<=!"@[0] == '<' && "<=!"@.len() == 3);
    assert(">!"@[0] == '>' && ">!"@.len() == 2);
    assert(">=!"@[0] == '>' && ">=!"@.len() == 3);
}

/// What each two-argument integer built-in computes from its integers.
proof fn lemma_binary_builtin_values(c: SpecCtx, a: int, b: int, sp: Span)
    ensures
        binary_builtin(c, "<!"@, a, b, sp) == Ok::<SpecSExpr, SpecDiag>(truth_atom(a < b, sp)),
        binary_builtin(c, "<=!"@, a, b, sp) == Ok::<SpecSExpr, SpecDiag>(truth_atom(a <= b, sp)),
        binary_builtin(c, ">!"@, a, b, sp) == Ok::<SpecSExpr, SpecDiag>(truth_atom(a > b, sp)),
        binary_builtin(c, ">=!"@, a, b, sp) == Ok::<SpecSExpr, SpecDiag>(truth_atom(a >= b, sp)),
        binary_builtin(c, "==!"@, a, b, sp) == Ok::<SpecSExpr, SpecDiag>(truth_atom(a == b, sp)),
        binary_builtin(c, "!=!"@, a, b, sp) == Ok::<SpecSExpr, SpecDiag>(truth_atom(a != b, sp)),
        binary_builtin(c, "-!"@, a, b, sp) == (if in_i64(a - b) {
            Ok::<SpecSExpr, SpecDiag>(SpecSExpr::Atom(int_text(a - b), sp))
        } else {
            Err(err_at(c, "Integer overflow in -!"@, sp))
        }),
        b != 0 ==> binary_builtin(c, "%!"@, a, b, sp) == Ok::<SpecSExpr, SpecDiag>(
            SpecSExpr::Atom(int_text(trunc_rem(a, b)), sp),
        ),
        b != 0 ==> binary_builtin(c, "/!"@, a, b, sp) == (if in_i64(trunc_div(a, b)) {
            Ok::<SpecSExpr, SpecDiag>(SpecSExpr::Atom(int_text(trunc_div(a, b)), sp))
        } else {
            Err(err_at(c, "Integer overflow in /!"@, sp))
        }),
{
    reveal_strlit("-!");
    reveal_strlit("/!");
    reveal_strlit("%!");
    reveal_strlit("==!");
    reveal_strlit("!=!");
    reveal_strlit("<!");
    reveal_strlit("<=!");
    reveal_strlit(">!");
    reveal_strlit(">=!");
    assert("-!"@[0] == '-' && "-!"@.len() == 2);
    assert("/!"@[0] == '/' && "/!"@.len() == 2);
    assert("%!"@[0] == '%' && "%!"@.len() == 2);
    assert("==!"@[0] == '=' && "==!"@.len() == 3);
    assert("!=!"@[0] == '!' && "!=!"@.len() == 3);
    assert("<!"@[0] == '<' && "<!"@.len() == 2);
    assert("<=!"@[0] == '<' && "<=!"@.len() == 3);
    assert(">!"@[0] == '>' && ">!"@.len() == 2);
    assert(">=!"@[0] == '>' && ">=!"@.len() == 3);
}

/// Expanding `(op a b)` for a two-argument integer built-in `op` reads both
/// integers back from their atoms.
proof fn lemma_int_call_reads(c: SpecCtx, op: Seq<char>, a: i64, b: i64, so: Span, sa: Span, sb: Span, sp: Span, fuel: nat)
    requires
        fuel >= 2,
        is_binary_builtin(op) || op == "+!"@ || op == "*!"@,
    ensures
        is_binary_builtin(op) ==> spec_expand(c, int_call(op, a as int, b as int, so, sa, sb, sp), Seq::empty(), fuel)
            == binary_builtin(c, op, a as int, b as int, sp),
        op == "+!"@ ==> spec_expand(c, int_call(op, a as int, b as int, so, sa, sb, sp), Seq::empty(), fuel)
            == (if in_i64(a + b) {
                Ok::<SpecSExpr, SpecDiag>(SpecSExpr::Atom(int_text(a + b), sp))
            } else {
                Err(err_at(c, "Integer overflow in +!"@, sp))
            }),
        op == "*!"@ ==> spec_expand(c, int_call(op, a as int, b as int, so, sa, sb, sp), Seq::empty(), fuel)
            == (if in_i64(a * b) {
                Ok::<SpecSExpr, SpecDiag>(SpecSExpr::Atom(int_text(a * b), sp))
            } else {
                Err(err_at(c, "Integer overflow in *!"@, sp))
            }),
{
    lemma_int_builtin_names(op);
    let f1 = (fuel - 1) as nat;
    let call = int_call(op, a as int, b as int, so, sa, sb, sp);
    let l = call->List_0;
    let args = l.skip(1);
    let env: SpecEnv = Seq::empty();
    lemma_parse_i64_text(a);
    lemma_parse_i64_text(b);
    assert(args =~= seq![SpecSExpr::Atom(int_text(a as int), sa), SpecSExpr::Atom(int_text(b as int), sb)]);
    assert(lookup(env, int_text(a as int)) is None);
    assert(lookup(env, int_text(b as int)) is None);
    assert(spec_expand(c, args[0], env, f1) == Ok::<SpecSExpr, SpecDiag>(args[0]));
    assert(spec_expand(c, args[1], env, f1) == Ok::<SpecSExpr, SpecDiag>(args[1]));
    assert(spec_eval_integer(c, args[0], env, sp, f1) == Ok::<int, SpecDiag>(a as int));
    assert(spec_eval_integer(c, args[1], env, sp, f1) == Ok::<int, SpecDiag>(b as int));
    assert(ends_bang(op));
    assert(spec_expand(c, call, env, fuel) == spec_eval_builtin(c, op, args, env, sp, f1));
    if op == "+!"@ || op == "*!"@ {
        let mul = op == "*!"@;
        let start: int = if mul { 1 } else { 0 };
        let first = if mul { start * a } else { start + a };
        assert(first == a as int);
        assert(spec_fold_ints(c, args, 2, env, sp, f1, mul, if mul { a * b } else { a + b })
            == Ok::<int, SpecDiag>(if mul { a * b } else { a + b }));
        assert(spec_fold_ints(c, args, 1, env, sp, f1, mul, a as int) == (if in_i64(if mul { a * b } else { a + b }) {
            Ok::<int, SpecDiag>(if mul { a * b } else { a + b })
        } else {
            Err(err_at(c, if mul { "Integer overflow in *!"@ } else { "Integer overflow in +!"@ }, sp))
        }));
        assert(spec_fold_ints(c, args, 0, env, sp, f1, mul, start) == spec_fold_ints(c, args, 1, env, sp, f1, mul, a as int));
    } else {
        assert(spec_two_ints(c, args, env, sp, f1) == Ok::<(int, int), SpecDiag>((a as int, b as int)));
        assert(spec_eval_builtin(c, op, args, env, sp, f1) == binary_builtin(c, op, a as int, b as int, sp));
    }
}

/// The integer comparisons of the macro language: on the atoms of two
/// integers `a` and `b`, `(<! a b)` gives `1` exactly when a < b and `0`
/// otherwise (so `(<! n n)` gives `0`); `<=!`, `>!`, `>=!`, `==!` and `!=!`
/// likewise for a <= b, a > b, a >= b, a == b and a != b. The comparisons
/// mirror each other: `(<! a b)` and `(>! b a)` agree, and `(<! a b)` and
/// `(>=! a b)` give opposite answers.
pub proof fn lemma_integer_comparisons(c: SpecCtx, a: i64, b: i64, so: Span, sa: Span, sb: Span, sp: Span, fuel: nat)
    requires
        fuel >= 2,
    ensures
        spec_expand(c, int_call("<!"@, a as int, b as int, so, sa, sb, sp), Seq::empty(), fuel)
            == Ok::<SpecSExpr, SpecDiag>(truth_atom(a < b, sp)),
        spec_expand(c, int_call("<=!"@, a as int, b as int, so, sa, sb, sp), Seq::empty(), fuel)
            == Ok::<SpecSExpr, SpecDiag>(truth_atom(a <= b, sp)),
        spec_expand(c, int_call(">!"@, a as int, b as int, so, sa, sb, sp), Seq::empty(), fuel)
            == Ok::<SpecSExpr, SpecDiag>(truth_atom(a > b, sp)),
        spec_expand(c, int_call(">=!"@, a as int, b as int, so, sa, sb, sp), Seq::empty(), fuel)
            == Ok::<SpecSExpr, SpecDiag>(truth_atom(a >= b, sp)),
        spec_expand(c, int_call("==!"@, a as int, b as int, so, sa, sb, sp), Seq::empty(), fuel)
            == Ok::<SpecSExpr, SpecDiag>(truth_atom(a == b, sp)),
        spec_expand(c, int_call("!=!"@, a as int, b as int, so, sa, sb, sp), Seq::empty(), fuel)
            == Ok::<SpecSExpr, SpecDiag>(truth_atom(a != b, sp)),
        spec_expand(c, int_call("<!"@, a as int, b as int, so, sa, sb, sp), Seq::empty(), fuel)
            == spec_expand(c, int_call(">!"@, b as int, a as int, so, sb, sa, sp), Seq::empty(), fuel),
        spec_expand(c, int_call("<!"@, a as int, b as int, so, sa, sb, sp), Seq::empty(), fuel)
            != spec_expand(c, int_call(">=!"@, a as int, b as int, so, sa, sb, sp), Seq::empty(), fuel),
{
    lemma_binary_builtin_values(c, a as int, b as int, sp);
    lemma_binary_builtin_values(c, b as int, a as int, sp);
    lemma_int_call_reads(c, "<!"@, a, b, so, sa, sb, sp, fuel);
    lemma_int_call_reads(c, "<=!"@, a, b, so, sa, sb, sp, fuel);
    lemma_int_call_reads(c, ">!"@, a, b, so, sa, sb, sp, fuel);
    lemma_int_call_reads(c, ">=!"@, a, b, so, sa, sb, sp, fuel);
    lemma_int_call_reads(c, "==!"@, a, b, so, sa, sb, sp, fuel);
    lemma_int_call_reads(c, "!=!"@, a, b, so, sa, sb, sp, fuel);
    lemma_int_call_reads(c, ">!"@, b, a, so, sb, sa, sp, fuel);
    reveal_strlit("1");
    reveal_strlit("0");
    assert("1"@[0] != "0"@[0]);
}

/// The integer arithmetic of the macro language on the atoms of two
/// integers: `(+! a b)`, `(-! a b)` and `(*! a b)` give the sum, difference
/// and product when it fits in an `i64` and fail otherwise.
pub proof fn lemma_integer_arithmetic(c: SpecCtx, a: i64, b: i64, so: Span, sa: Span, sb: Span, sp: Span, fuel: nat)
    requires
        fuel >= 2,
    ensures
        i64::MIN <= a + b <= i64::MAX ==> spec_expand(c, int_call("+!"@, a as int, b as int, so, sa, sb, sp), Seq::empty(), fuel)
            == Ok::<SpecSExpr, SpecDiag>(SpecSExpr::Atom(int_text(a + b), sp)),
        !(i64::MIN <= a + b <= i64::MAX) ==> spec_expand(c, int_call("+!"@, a as int, b as int, so, sa, sb, sp), Seq::empty(), fuel) is Err,
        i64::MIN <= a - b <= i64::MAX ==> spec_expand(c, int_call("-!"@, a as int, b as int, so, sa, sb, sp), Seq::empty(), fuel)
            == Ok::<SpecSExpr, SpecDiag>(SpecSExpr::Atom(int_text(a - b), sp)),
        !(i64::MIN <= a - b <= i64::MAX) ==> spec_expand(c, int_call("-!"@, a as int, b as int, so, sa, sb, sp), Seq::empty(), fuel) is Err,
        i64::MIN <= a * b <= i64::MAX ==> spec_expand(c, int_call("*!"@, a as int, b as int, so, sa, sb, sp), Seq::empty(), fuel)
            == Ok::<SpecSExpr, SpecDiag>(SpecSExpr::Atom(int_text(a * b), sp)),
        !(i64::MIN <= a * b <= i64::MAX) ==> spec_expand(c, int_call("*!"@, a as int, b as int, so, sa, sb, sp), Seq::empty(), fuel) is Err,
{
    lemma_binary_builtin_values(c, a as int, b as int, sp);
    lemma_binary_builtin_values(c, b as int, a as int, sp);
    lemma_int_call_reads(c, "+!"@, a, b, so, sa, sb, sp, fuel);
    lemma_int_call_reads(c, "-!"@, a, b, so, sa, sb, sp, fuel);
    lemma_int_call_reads(c, "*!"@, a, b, so, sa, sb, sp, fuel);
}

/// `(/! a b)` and `(%! a b)` give the quotient rounded toward zero and the
/// remainder with the sign of `a`: for `q` and `r` with `q * b + r == a`,
/// `|r| < |b|` and `r` zero or of the sign of `a`, the remainder is `r`,
/// and the quotient is `q` when it fits in an `i64`; a zero divisor fails.
pub proof fn lemma_integer_division(
    c: SpecCtx,
    a: i64,
    b: i64,
    q: int,
    r: int,
    so: Span,
    sa: Span,
    sb: Span,
    sp: Span,
    fuel: nat,
)
    requires
        fuel >= 2,
        b != 0,
        q * b + r == a,
        abs(r) < abs(b as int),
        a >= 0 ==> r >= 0,
        a < 0 ==> r <= 0,
    ensures
        spec_expand(c, int_call("%!"@, a as int, b as int, so, sa, sb, sp), Seq::empty(), fuel)
            == Ok::<SpecSExpr, SpecDiag>(SpecSExpr::Atom(int_text(r), sp)),
        i64::MIN <= q <= i64::MAX ==> spec_expand(c, int_call("/!"@, a as int, b as int, so, sa, sb, sp), Seq::empty(), fuel)
            == Ok::<SpecSExpr, SpecDiag>(SpecSExpr::Atom(int_text(q), sp)),
        !(i64::MIN <= q <= i64::MAX) ==> spec_expand(c, int_call("/!"@, a as int, b as int, so, sa, sb, sp), Seq::empty(), fuel) is Err,
{
    lemma_binary_builtin_values(c, a as int, b as int, sp);
    lemma_binary_builtin_values(c, b as int, a as int, sp);
    lemma_int_call_reads(c, "%!"@, a, b, so, sa, sb, sp, fuel);
    lemma_int_call_reads(c, "/!"@, a, b, so, sa, sb, sp, fuel);
    let x = abs(a as int);
    let d = abs(b as int);
    let aq = abs(q);
    let ar = abs(r);
    assert(x == aq * d + ar) by (nonlinear_arith)
        requires
            q * b + r == a,
            x == abs(a as int),
            d == abs(b as int),
            aq == abs(q),
            ar == abs(r),
            b != 0,
            ar < d,
            a >= 0 ==> r >= 0,
            a < 0 ==> r <= 0,
    ;
    vstd::arithmetic::div_mod::lemma_fundamental_div_mod_converse(x, d, aq, ar);
    assert(trunc_rem(a as int, b as int) == r);
    assert(trunc_div(a as int, b as int) == q) by (nonlinear_arith)
        requires
            q * b + r == a,
            x == abs(a as int),
            d == abs(b as int),
            aq == abs(q),
            aq == x / d,
            ar == abs(r),
            b != 0,
            ar < d,
            a >= 0 ==> r >= 0,
            a < 0 ==> r <= 0,
            trunc_div(a as int, b as int) == (if (a < 0) != (b < 0) { -(x / d) } else { x / d }),
    ;
}

// ---------------------------------------------------------------------------
// Text without macro calls
// ---------------------------------------------------------------------------

/// `s` calls nothing at compile time, under the macros `ms`: no list in it
/// starts with an atom that ends with `!` or names one of `ms`; and it nests
/// lists fewer than `depth` deep.
pub open spec fn plain_within(s: SpecSExpr, ms: Seq<SpecMacro>, depth: nat) -> bool
    decreases s,
{
    depth >= 1 && match s {
        SpecSExpr::Atom(..) => true,
        SpecSExpr::List(l, _) => (l.len() == 0 || !(l[0] is Atom && (ends_bang(l[0]->Atom_0)
            || find_macro(ms, l[0]->Atom_0) is Some))) && forall|i: int|
            0 <= i < l.len() ==> plain_within(#[trigger] l[i], ms, (depth - 1) as nat),
    }
}

proof fn lemma_expand_plain(c: SpecCtx, s: SpecSExpr, fuel: nat)
    requires
        plain_within(s, c.macros, fuel),
    ensures
        spec_expand(c, s, Seq::empty(), fuel) == Ok::<SpecSExpr, SpecDiag>(s),
    decreases s,
{
    match s {
        SpecSExpr::Atom(t, sp) => {
            assert(lookup(Seq::<(Seq<char>, SpecSExpr)>::empty(), t) is None);
        },
        SpecSExpr::List(l, sp) => {
            if l.len() > 0 {
                let f1 = (fuel - 1) as nat;
                assert forall|j: int| 0 <= j < l.len() implies spec_expand(
                    c,
                    l[j],
                    Seq::empty(),
                    f1,
                ) == Ok::<SpecSExpr, SpecDiag>(l[j]) by {
                    lemma_expand_plain(c, l[j], f1);
                }
                lemma_expand_items_ok(c, l, 0, f1, Seq::empty());
                assert(Seq::<SpecSExpr>::empty() + l.skip(0) =~= l);
                if is_atom(l[0], "module"@) {
                    let pf = ports_forms(l);
                    lemma_ports_forms_within(l);
                    assert forall|k: int| 0 <= k < pf.len() implies spec_expand(
                        c,
                        pf[k],
                        Seq::empty(),
                        f1,
                    ) == Ok::<SpecSExpr, SpecDiag>(pf[k]) by {
                        let j = choose|j: int| 0 <= j < l.len() && l[j] == pf[k];
                        assert(spec_expand(c, l[j], Seq::empty(), f1) == Ok::<SpecSExpr, SpecDiag>(
                            l[j],
                        ));
                    }
                    lemma_expand_items_ok(c, pf, 0, f1, Seq::empty());
                    assert(Seq::<SpecSExpr>::empty() + pf.skip(0) =~= pf);
                    let c2 = SpecCtx { ports: declared_port_names(pf, c.file), ..c };
                    assert forall|j: int| 0 <= j < l.len() implies spec_expand(
                        c2,
                        l[j],
                        Seq::empty(),
                        f1,
                    ) == Ok::<SpecSExpr, SpecDiag>(l[j]) by {
                        lemma_expand_plain(c2, l[j], f1);
                    }
                    lemma_expand_items_ok(c2, l, 0, f1, Seq::empty());
                }
            } else {
                assert(l =~= Seq::<SpecSExpr>::empty());
            }
        },
    }
}

/// Every `(ports ...)` form picked from `l` is an element of `l`.
proof fn lemma_ports_forms_within(l: Seq<SpecSExpr>)
    ensures
        forall|k: int| 0 <= k < ports_forms(l).len() ==> l.contains(#[trigger] ports_forms(l)[k]),
    decreases l.len(),
{
    if l.len() > 0 {
        let d = l.drop_last();
        lemma_ports_forms_within(d);
        assert forall|k: int| 0 <= k < ports_forms(l).len() implies l.contains(
            #[trigger] ports_forms(l)[k],
        ) by {
            if k < ports_forms(d).len() {
                assert(d.contains(ports_forms(d)[k]));
                let j = choose|j: int| 0 <= j < d.len() && d[j] == ports_forms(d)[k];
                assert(l[j] == d[j]);
            } else {
                assert(l[l.len() - 1] == l.last());
            }
        }
    }
}

proof fn lemma_expand_items_ok(c: SpecCtx, l: Seq<SpecSExpr>, i: int, fuel: nat, acc: Seq<SpecSExpr>)
    requires
        0 <= i <= l.len(),
        forall|j: int|
            0 <= j < l.len() ==> spec_expand(c, #[trigger] l[j], Seq::empty(), fuel) == Ok::<
                SpecSExpr,
                SpecDiag,
            >(l[j]),
    ensures
        spec_expand_items(c, l, i, Seq::empty(), fuel, acc) == Ok::<Seq<SpecSExpr>, SpecDiag>(
            acc + l.skip(i),
        ),
    decreases l.len() - i,
{
    if i < l.len() {
        lemma_expand_items_ok(c, l, i + 1, fuel, acc.push(l[i]));
        assert(acc.push(l[i]) + l.skip(i + 1) =~= acc + l.skip(i));
    } else {
        assert(acc + l.skip(i) =~= acc);
    }
}

proof fn lemma_expand_forms_plain(c: SpecCtx, l: Seq<SpecSExpr>, i: int, acc: Seq<SpecSExpr>)
    requires
        0 <= i <= l.len(),
        forall|j: int|
            0 <= j < l.len() ==> plain_within(
                #[trigger] l[j],
                c.macros,
                MAX_EXPANSION_DEPTH as nat,
            ),
    ensures
        spec_expand_forms(c, l, i, acc) == Ok::<Seq<SpecSExpr>, SpecDiag>(acc + l.skip(i)),
    decreases l.len() - i,
{
    if i < l.len() {
        lemma_expand_plain(c, l[i], MAX_EXPANSION_DEPTH as nat);
        lemma_expand_forms_plain(c, l, i + 1, acc.push(l[i]));
        assert(acc.push(l[i]) + l.skip(i + 1) =~= acc + l.skip(i));
    } else {
        assert(acc + l.skip(i) =~= acc);
    }
}

proof fn lemma_collect_no_macros(l: Seq<SpecSExpr>, i: int, file: Seq<char>, rest: Seq<SpecSExpr>)
    requires
        0 <= i <= l.len(),
        forall|j: int| 0 <= j < l.len() ==> !is_macro_form(#[trigger] l[j]),
    ensures
        spec_collect_macros(l, i, file, Seq::empty(), rest) == Ok::<
            (Seq<SpecMacro>, Seq<SpecSExpr>),
            SpecDiag,
        >((Seq::empty(), rest + l.skip(i))),
    decreases l.len() - i,
{
    if i < l.len() {
        lemma_collect_no_macros(l, i + 1, file, rest.push(l[i]));
        assert(rest.push(l[i]) + l.skip(i + 1) =~= rest + l.skip(i));
    } else {
        assert(rest + l.skip(i) =~= rest);
    }
}

/// A program that defines no macro and calls nothing at compile time
/// (within the nesting limit) expands to itself, with module bodies
/// flattened.
pub proof fn lemma_expand_plain_program(sexprs: Seq<SpecSExpr>, file: Seq<char>)
    requires
        forall|j: int|
            0 <= j < sexprs.len() ==> !is_macro_form(#[trigger] sexprs[j]) && plain_within(
                sexprs[j],
                Seq::empty(),
                MAX_EXPANSION_DEPTH as nat,
            ),
    ensures
        spec_expand_program(sexprs, file) == Ok::<Seq<SpecSExpr>, SpecDiag>(
            Seq::new(sexprs.len(), |i: int| spec_flatten(sexprs[i])),
        ),
{
    lemma_collect_no_macros(sexprs, 0, file, Seq::empty());
    assert(Seq::<SpecSExpr>::empty() + sexprs.skip(0) =~= sexprs);
    let c = SpecCtx { macros: Seq::empty(), file, ports: Seq::empty() };
    lemma_expand_forms_plain(c, sexprs, 0, Seq::empty());
    let r = spec_expand_forms(c, sexprs, 0, Seq::empty())->Ok_0;
    assert(r =~= sexprs);
    assert(Seq::new(r.len(), |i: int| spec_flatten(r[i])) =~= Seq::new(
        sexprs.len(),
        |i: int| spec_flatten(sexprs[i]),
    ));
}

/// An item of a module body that flattening keeps as it is: an atom, or a
/// form that starts with an atom.
pub open spec fn kept_in_body(s: SpecSExpr) -> bool {
    match s {
        SpecSExpr::Atom(..) => true,
        SpecSExpr::List(l, _) => l.len() > 0 && l[0] is Atom,
    }
}

/// Flattening leaves `s` as it is: each module body that it reaches holds
/// only atoms and forms that start with an atom.
pub open spec fn flat(s: SpecSExpr) -> bool
    decreases s,
{
    match s {
        SpecSExpr::Atom(..) => true,
        SpecSExpr::List(l, _) => if l.len() >= 3 && is_atom(l[0], "module"@) {
            forall|i: int| 2 <= i < l.len() ==> kept_in_body(#[trigger] l[i])
        } else {
            forall|i: int| 0 <= i < l.len() ==> flat(#[trigger] l[i])
        },
    }
}

proof fn lemma_flatten_body_kept(l: Seq<SpecSExpr>, i: int, acc: Seq<SpecSExpr>)
    requires
        0 <= i <= l.len(),
        forall|j: int| i <= j < l.len() ==> kept_in_body(#[trigger] l[j]),
    ensures
        spec_flatten_body(l, i, acc) == acc + l.skip(i),
    decreases l.len() - i,
{
    if i < l.len() {
        lemma_flatten_body_kept(l, i + 1, acc.push(l[i]));
        assert(acc.push(l[i]) + l.skip(i + 1) =~= acc + l.skip(i));
    } else {
        assert(acc + l.skip(i) =~= acc);
    }
}

proof fn lemma_flatten_all_same(l: Seq<SpecSExpr>, i: int, acc: Seq<SpecSExpr>)
    requires
        0 <= i <= l.len(),
        forall|j: int| 0 <= j < l.len() ==> spec_flatten(#[trigger] l[j]) == l[j],
    ensures
        spec_flatten_all(l, i, acc) == acc + l.skip(i),
    decreases l.len() - i,
{
    if i < l.len() {
        lemma_flatten_all_same(l, i + 1, acc.push(l[i]));
        assert(acc.push(l[i]) + l.skip(i + 1) =~= acc + l.skip(i));
    } else {
        assert(acc + l.skip(i) =~= acc);
    }
}

/// Flattening leaves a flat S-expression unchanged.
pub proof fn lemma_flatten_flat(s: SpecSExpr)
    requires
        flat(s),
    ensures
        spec_flatten(s) == s,
    decreases s,
{
    match s {
        SpecSExpr::Atom(..) => {},
        SpecSExpr::List(l, sp) => {
            if l.len() >= 3 && is_atom(l[0], "module"@) {
                lemma_flatten_body_kept(l, 2, seq![l[0], l[1]]);
                assert(seq![l[0], l[1]] + l.skip(2) =~= l);
            } else {
                assert forall|j: int| 0 <= j < l.len() implies spec_flatten(#[trigger] l[j])
                    == l[j] by {
                    lemma_flatten_flat(l[j]);
                }
                lemma_flatten_all_same(l, 0, Seq::empty());
                assert(Seq::<SpecSExpr>::empty() + l.skip(0) =~= l);
            }
        },
    }
}

/// A program that defines no macro, calls nothing at compile time (within
/// the nesting limit) and whose module bodies hold only atoms and forms that
/// start with an atom expands to itself.
pub proof fn lemma_expand_plain_flat_program(sexprs: Seq<SpecSExpr>, file: Seq<char>)
    requires
        forall|j: int|
            0 <= j < sexprs.len() ==> !is_macro_form(#[trigger] sexprs[j]) && plain_within(
                sexprs[j],
                Seq::empty(),
                MAX_EXPANSION_DEPTH as nat,
            ) && flat(sexprs[j]),
    ensures
        spec_expand_program(sexprs, file) == Ok::<Seq<SpecSExpr>, SpecDiag>(sexprs),
{
    lemma_expand_plain_program(sexprs, file);
    assert forall|j: int| 0 <= j < sexprs.len() implies spec_flatten(#[trigger] sexprs[j])
        == sexprs[j] by {
        lemma_flatten_flat(sexprs[j]);
    }
    assert(Seq::new(sexprs.len(), |i: int| spec_flatten(sexprs[i])) =~= sexprs);
}

// ---------------------------------------------------------------------------
// Lemmas on lookups
// ---------------------------------------------------------------------------

proof fn lemma_lookup_skip(env: SpecEnv, name: Seq<char>, k: int)
    requires
        0 <= k <= env.len(),
        forall|j: int| k <= j < env.len() ==> (#[trigger] env[j]).0 != name,
    ensures
        lookup(env, name) == lookup(env.take(k), name),
    decreases env.len() - k,
{
    if k < env.len() {
        assert(env.drop_last().take(k) =~= env.take(k));
        lemma_lookup_skip(env.drop_last(), name, k);
    } else {
        assert(env.take(k) =~= env);
    }
}

proof fn lemma_find_macro_skip(ms: Seq<SpecMacro>, name: Seq<char>, k: int)
    requires
        0 <= k <= ms.len(),
        forall|j: int| k <= j < ms.len() ==> (#[trigger] ms[j]).name != name,
    ensures
        find_macro(ms, name) == find_macro(ms.take(k), name),
    decreases ms.len() - k,
{
    if k < ms.len() {
        assert(ms.drop_last().take(k) =~= ms.take(k));
        lemma_find_macro_skip(ms.drop_last(), name, k);
    } else {
        assert(ms.take(k) =~= ms);
    }
}

} // verus!

verus! {

// ---------------------------------------------------------------------------
// Executable helpers
// ---------------------------------------------------------------------------

/// Whether the text `t` ends with `!`.
fn ends_with_bang(t: &String) -> (b: bool)
    ensures
        b == ends_bang(t@),
{
    let cs = chars_of(t.as_str());
    cs.len() > 0 && cs[cs.len() - 1] == '!'
}

fn atom_is(s: &SExpr, lit: &str) -> (b: bool)
    ensures
        b == is_atom(s@, lit@),
{
    match s {
        SExpr::Atom(t, _) => string_is(t, lit),
        SExpr::List(..) => false,
    }
}

fn span_of(s: &SExpr) -> (sp: Span)
    ensures
        sp == spec_span_of(s@),
{
    match s {
        SExpr::Atom(_, sp) => *sp,
        SExpr::List(_, sp) => *sp,
    }
}

/// The index of the latest binding of `name`.
fn lookup_binding(bindings: &Vec<(String, SExpr)>, name: &String) -> (r: Option<usize>)
    ensures
        match r {
            Some(i) => i < bindings.len() && lookup(env_view(bindings@), name@) == Some(
                bindings@[i as int].1@,
            ),
            None => lookup(env_view(bindings@), name@) is None,
        },
{
    let ghost env = env_view(bindings@);
    let mut k: usize = bindings.len();
    while k > 0
        invariant
            k <= bindings.len(),
            env == env_view(bindings@),
            forall|j: int| k <= j < env.len() ==> (#[trigger] env[j]).0 != name@,
        decreases k,
    {
        if bindings[k - 1].0.eq(name) {
            proof {
                lemma_lookup_skip(env, name@, k as int);
                assert(env.take(k as int).last() == env[k - 1]);
            }
            return Some(k - 1);
        }
        k -= 1;
    }
    proof {
        lemma_lookup_skip(env, name@, 0);
    }
    None
}

/// A copy of the bindings.
fn copy_env(b: &Vec<(String, SExpr)>) -> (r: Vec<(String, SExpr)>)
    ensures
        env_view(r@) == env_view(b@),
{
    let mut r: Vec<(String, SExpr)> = Vec::new();
    let mut i: usize = 0;
    while i < b.len()
        invariant
            i <= b.len(),
            r.len() == i,
            forall|j: int|
                0 <= j < i ==> (#[trigger] r@[j]).0@ == b@[j].0@ && r@[j].1@ == b@[j].1@,
        decreases b.len() - i,
    {
        r.push((b[i].0.clone(), copy_sexpr(&b[i].1)));
        i += 1;
    }
    assert(env_view(r@) =~= env_view(b@));
    r
}

/// Adds the expansion `e` to `acc`, splicing in the items of a `begin` list.
#[verifier::loop_isolation(false)]
fn push_expansion(acc: &mut Vec<SExpr>, e: SExpr)
    ensures
        sexprs_view(final(acc)@) == add_expansion(sexprs_view(old(acc)@), e@),
{
    let is_begin = match &e {
        SExpr::List(inner, _) => inner.len() > 0 && atom_is(&inner[0], "begin"),
        SExpr::Atom(..) => false,
    };
    if is_begin {
        match &e {
            SExpr::List(inner, _) => {
                let ghost a0 = sexprs_view(acc@);
                let ghost iv = sexprs_view(inner@);
                let mut k: usize = 1;
                while k < inner.len()
                    invariant
                        1 <= k <= inner.len(),
                        sexprs_view(acc@) =~= a0 + iv.subrange(1, k as int),
                    decreases inner.len() - k,
                {
                    let c = copy_sexpr(&inner[k]);
                    let ghost prev = sexprs_view(acc@);
                    assert(c@ == iv[k as int]);
                    acc.push(c);
                    assert(sexprs_view(acc@) =~= prev.push(c@));
                    assert(iv.subrange(1, k + 1) =~= iv.subrange(1, k as int).push(iv[k as int]));
                    k += 1;
                }
                assert(iv.subrange(1, inner.len() as int) =~= iv.skip(1));
            },
            SExpr::Atom(..) => {},
        }
    } else {
        let ghost a0 = sexprs_view(acc@);
        acc.push(e);
        assert(sexprs_view(acc@) =~= a0.push(e@));
    }
}

/// Absolute value of `a`.
fn magnitude(a: i64) -> (m: u64)
    ensures
        m == abs(a as int),
{
    if a == i64::MIN {
        9223372036854775808u64
    } else if a < 0 {
        (-a) as u64
    } else {
        a as u64
    }
}

/// `a / b`, rounding toward zero, when it fits in an `i64`.
fn div_toward_zero(a: i64, b: i64) -> (r: Option<i64>)
    requires
        b != 0,
    ensures
        r == (if in_i64(trunc_div(a as int, b as int)) {
            Some(trunc_div(a as int, b as int) as i64)
        } else {
            None
        }),
{
    let ma = magnitude(a);
    let mb = magnitude(b);
    let q = ma / mb;
    assert(q <= ma) by (nonlinear_arith)
        requires
            q == ma / mb,
            mb > 0,
    ;
    if (a < 0) != (b < 0) {
        if q == 9223372036854775808u64 {
            Some(i64::MIN)
        } else {
            Some(-(q as i64))
        }
    } else {
        if q > 9223372036854775807u64 {
            None
        } else {
            Some(q as i64)
        }
    }
}

/// `a % b`, with the sign of `a`.
fn rem_toward_zero(a: i64, b: i64) -> (r: i64)
    requires
        b != 0,
    ensures
        r == trunc_rem(a as int, b as int),
{
    let ma = magnitude(a);
    let mb = magnitude(b);
    let m = ma % mb;
    assert(m < mb) by (nonlinear_arith)
        requires
            m == ma % mb,
            mb > 0,
    ;
    if a < 0 {
        -(m as i64)
    } else {
        m as i64
    }
}

/// The atom `1` for true and `0` for false.
fn bool_atom_exec(b: bool, span: Span) -> (r: SExpr)
    ensures
        r@ == bool_atom(b, span),
{
    if b {
        SExpr::Atom(string_of("1"), span)
    } else {
        SExpr::Atom(string_of("0"), span)
    }
}

} // verus!

verus! {

impl MacroContext {
    /// A context with no macros, for the file `file_name`.
    pub fn new(file_name: &str) -> (c: Self)
        ensures
            c.view().macros == Seq::<SpecMacro>::empty(),
            c.view().file == file_name@,
            c.view().ports == Seq::<Seq<char>>::empty(),
    {
        let c = MacroContext { macros: Vec::new(), file_name: string_of(file_name), ports: Vec::new() };
        assert(c.view().macros =~= Seq::<SpecMacro>::empty());
        assert(c.view().ports =~= Seq::<Seq<char>>::empty());
        c
    }

    /// This context, for the body of a module whose ports are named `ports`.
    fn with_ports(&self, ports: Vec<String>) -> (c: MacroContext)
        ensures
            c.view() == (SpecCtx { ports: texts_view(ports@), ..self.view() }),
    {
        let mut macros: Vec<(String, MacroDef)> = Vec::new();
        let mut i: usize = 0;
        while i < self.macros.len()
            invariant
                i <= self.macros.len(),
                macros.len() == i,
                forall|j: int|
                    0 <= j < i ==> (#[trigger] macros@[j]).0@ == self.macros@[j].0@
                        && texts_view(macros@[j].1.params@) == texts_view(self.macros@[j].1.params@)
                        && macros@[j].1.body@ == self.macros@[j].1.body@,
            decreases self.macros.len() - i,
        {
            let mut params: Vec<String> = Vec::new();
            append_names(&mut params, &self.macros[i].1.params);
            assert(texts_view(params@) =~= names_of(params@));
            assert(texts_view(self.macros@[i as int].1.params@) =~= names_of(self.macros@[i as int].1.params@));
            assert(names_of(Seq::<String>::empty()) + names_of(self.macros@[i as int].1.params@) =~= names_of(self.macros@[i as int].1.params@));
            let body = copy_sexpr(&self.macros[i].1.body);
            macros.push((self.macros[i].0.clone(), MacroDef { params, body }));
            i += 1;
        }
        let c = MacroContext { macros, file_name: self.file_name.clone(), ports };
        assert(c.view().macros =~= self.view().macros);
        c
    }

    /// Registers a macro definition.
    fn define_macro(&mut self, name: &String, params: Vec<String>, body: SExpr)
        ensures
            final(self).view().file == old(self).view().file,
            final(self).view().ports == old(self).view().ports,
            final(self).view().macros == old(self).view().macros.push(
                SpecMacro { name: name@, params: texts_view(params@), body: body@ },
            ),
    {
        let ghost m0 = self.view().macros;
        self.macros.push((name.clone(), MacroDef { params, body }));
        assert(self.view().macros =~= m0.push(
            SpecMacro { name: name@, params: texts_view(params@), body: body@ },
        ));
    }

    /// The index of the latest definition of the macro `name`.
    fn find(&self, name: &String) -> (r: Option<usize>)
        ensures
            match r {
                Some(i) => i < self.macros.len() && find_macro(self.view().macros, name@) == Some(
                    self.view().macros[i as int],
                ),
                None => find_macro(self.view().macros, name@) is None,
            },
    {
        let ghost ms = self.view().macros;
        let mut k: usize = self.macros.len();
        while k > 0
            invariant
                k <= self.macros.len(),
                ms == self.view().macros,
                ms.len() == self.macros.len(),
                forall|j: int| k <= j < ms.len() ==> (#[trigger] ms[j]).name != name@,
            decreases k,
        {
            if self.macros[k - 1].0.eq(name) {
                proof {
                    lemma_find_macro_skip(ms, name@, k as int);
                    assert(ms.take(k as int).last() == ms[k - 1]);
                }
                return Some(k - 1);
            }
            k -= 1;
        }
        proof {
            lemma_find_macro_skip(ms, name@, 0);
        }
        None
    }

    /// Whether `name` is a defined macro.
    fn is_macro(&self, name: &String) -> (b: bool)
        ensures
            b == find_macro(self.view().macros, name@) is Some,
    {
        self.find(name).is_some()
    }

    fn err(&self, msg: &str, span: Span) -> (d: Diagnostic)
        ensures
            d@ == err_at(self.view(), msg@, span),
    {
        diag_owned(string_of(msg), self.file_name.as_str(), span)
    }

    fn err_owned(&self, msg: String, span: Span) -> (d: Diagnostic)
        ensures
            d@ == err_at(self.view(), msg@, span),
    {
        diag_owned(msg, self.file_name.as_str(), span)
    }

    /// Expands a call of the macro `name` on the expanded arguments `args`.
    fn expand_macro(&self, name: &String, args: Vec<SExpr>, call_span: Span, fuel: usize) -> (r:
        Result<SExpr, Diagnostic>)
        requires
            find_macro(self.view().macros, name@) is Some,
        ensures
            res_sexpr(r) == spec_expand_macro(
                self.view(),
                name@,
                sexprs_view(args@),
                call_span,
                fuel as nat,
            ),
        decreases fuel, 4int, 0int,
    {
        let idx = match self.find(name) {
            Some(i) => i,
            None => {
                return Err(self.err("", call_span));
            },
        };
        let def = &self.macros[idx].1;
        if args.len() != def.params.len() {
            let mut msg = string_of("Macro ");
            push_str(&mut msg, name.as_str());
            push_str(&mut msg, " expects ");
            push_usize(&mut msg, def.params.len());
            push_str(&mut msg, " arguments, got ");
            push_usize(&mut msg, args.len());
            assert(msg@ =~= arity_message(name@, def.params@.len(), args@.len()));
            return Err(self.err_owned(msg, call_span));
        }
        let mut bindings: Vec<(String, SExpr)> = Vec::new();
        let mut i: usize = 0;
        while i < def.params.len()
            invariant
                i <= def.params.len(),
                def.params.len() == args.len(),
                bindings.len() == i,
                forall|j: int|
                    0 <= j < i ==> (#[trigger] bindings@[j]).0@ == def.params@[j]@
                        && bindings@[j].1@ == args@[j]@,
            decreases def.params.len() - i,
        {
            bindings.push((def.params[i].clone(), copy_sexpr(&args[i])));
            i += 1;
        }
        proof {
            let d = self.view().macros[idx as int];
            assert(env_view(bindings@) =~= bind_params(d.params, sexprs_view(args@)));
        }
        self.expand_sexpr(&def.body, &bindings, call_span, fuel)
    }

    /// Expands `sexpr` under `bindings`.
    #[verifier::loop_isolation(false)]
    fn expand_sexpr(
        &self,
        sexpr: &SExpr,
        bindings: &Vec<(String, SExpr)>,
        context_span: Span,
        fuel: usize,
    ) -> (r: Result<SExpr, Diagnostic>)
        ensures
            res_sexpr(r) == spec_expand(self.view(), sexpr@, env_view(bindings@), fuel as nat),
        decreases fuel, 0int, 0int,
    {
        if fuel == 0 {
            return Err(self.err("macro expansion nested too deeply", span_of(sexpr)));
        }
        let ghost c = self.view();
        let ghost env = env_view(bindings@);
        match sexpr {
            SExpr::Atom(s, span) => {
                match lookup_binding(bindings, s) {
                    Some(i) => Ok(copy_sexpr(&bindings[i].1)),
                    None => Ok(SExpr::Atom(s.clone(), *span)),
                }
            },
            SExpr::List(list, span) => {
                let ghost l = sexprs_view(list@);
                proof {
                    lemma_list_view(*list, *span);
                    assert(*sexpr == SExpr::List(*list, *span));
                }
                if list.len() == 0 {
                    let empty: Vec<SExpr> = Vec::new();
                    proof {
                        lemma_list_view(empty, *span);
                        assert(sexprs_view(empty@) =~= Seq::<SpecSExpr>::empty());
                    }
                    return Ok(SExpr::List(empty, *span));
                }
                let head_is_atom = match &list[0] {
                    SExpr::Atom(..) => true,
                    SExpr::List(..) => false,
                };
                if head_is_atom {
                    let first = match &list[0] {
                        SExpr::Atom(f, _) => f,
                        SExpr::List(..) => {
                            return Err(self.err("", *span));
                        },
                    };
                    assert(l[0] == list@[0]@);
                    let bang = ends_with_bang(first);
                    if self.is_macro(first) && !bang {
                        let ghost target = spec_expand_items(c, l, 1, env, (fuel - 1) as nat, Seq::empty());
                        let mut args: Vec<SExpr> = Vec::new();
                        assert(sexprs_view(args@) =~= Seq::<SpecSExpr>::empty());
                        let mut i: usize = 1;
                        while i < list.len()
                            invariant
                                1 <= i <= list.len(),
                                spec_expand_items(c, l, i as int, env, (fuel - 1) as nat, sexprs_view(args@)) == target,
                            decreases list.len() - i,
                        {
                            let ghost acc = sexprs_view(args@);
                            assert(l[i as int] == list@[i as int]@);
                            let e = match self.expand_sexpr(&list[i], bindings, context_span, fuel - 1) {
                                Ok(e) => e,
                                Err(d) => {
                                    return Err(d);
                                },
                            };
                            args.push(e);
                            assert(sexprs_view(args@) =~= acc.push(e@));
                            i += 1;
                        }
                        return self.expand_macro(first, args, *span, fuel - 1);
                    }
                    if bang {
                        let args = copy_sexprs_from(list, 1);
                        assert(sexprs_view(list@.skip(1)) =~= l.skip(1));
                        return self.eval_builtin(first, &args, bindings, *span, fuel - 1);
                    }
                    if atom_is(&list[0], "module") {
                        let forms = ports_forms_of(list);
                        let pf = match self.expand_all(&forms, bindings, context_span, fuel - 1) {
                            Ok(v) => v,
                            Err(d) => {
                                return Err(d);
                            },
                        };
                        let names = declared_port_names_of(&pf, &self.file_name);
                        let inner = self.with_ports(names);
                        let items = match inner.expand_all(list, bindings, context_span, fuel - 1) {
                            Ok(v) => v,
                            Err(d) => {
                                return Err(d);
                            },
                        };
                        proof {
                            lemma_list_view(items, *span);
                        }
                        return Ok(SExpr::List(items, *span));
                    }
                }
                let items = match self.expand_all(list, bindings, context_span, fuel - 1) {
                    Ok(v) => v,
                    Err(d) => {
                        return Err(d);
                    },
                };
                proof {
                    lemma_list_view(items, *span);
                }
                Ok(SExpr::List(items, *span))
            },
        }
    }

    /// Expands each of `items`, in order.
    fn expand_all(
        &self,
        items: &Vec<SExpr>,
        bindings: &Vec<(String, SExpr)>,
        context_span: Span,
        fuel: usize,
    ) -> (r: Result<Vec<SExpr>, Diagnostic>)
        ensures
            match r {
                Ok(v) => spec_expand_items(
                    self.view(),
                    sexprs_view(items@),
                    0,
                    env_view(bindings@),
                    fuel as nat,
                    Seq::empty(),
                ) == Ok::<Seq<SpecSExpr>, SpecDiag>(sexprs_view(v@)),
                Err(d) => spec_expand_items(
                    self.view(),
                    sexprs_view(items@),
                    0,
                    env_view(bindings@),
                    fuel as nat,
                    Seq::empty(),
                ) == Err::<Seq<SpecSExpr>, SpecDiag>(d@),
            },
        decreases fuel, 1int, 0int,
    {
        let ghost c = self.view();
        let ghost l = sexprs_view(items@);
        let ghost env = env_view(bindings@);
        let ghost target = spec_expand_items(c, l, 0, env, fuel as nat, Seq::empty());
        let mut new_list: Vec<SExpr> = Vec::new();
        assert(sexprs_view(new_list@) =~= Seq::<SpecSExpr>::empty());
        let mut i: usize = 0;
        while i < items.len()
            invariant
                i <= items.len(),
                c == self.view(),
                l == sexprs_view(items@),
                env == env_view(bindings@),
                target == spec_expand_items(c, l, 0, env, fuel as nat, Seq::empty()),
                spec_expand_items(c, l, i as int, env, fuel as nat, sexprs_view(new_list@)) == target,
            decreases items.len() - i,
        {
            let ghost acc = sexprs_view(new_list@);
            assert(l[i as int] == items@[i as int]@);
            let e = match self.expand_sexpr(&items[i], bindings, context_span, fuel) {
                Ok(e) => e,
                Err(d) => {
                    assert(spec_expand_items(c, l, i as int, env, fuel as nat, acc) == Err::<
                        Seq<SpecSExpr>,
                        SpecDiag,
                    >(d@));
                    return Err(d);
                },
            };
            new_list.push(e);
            assert(sexprs_view(new_list@) =~= acc.push(e@));
            i += 1;
        }
        Ok(new_list)
    }
}

/// The `(ports ...)` forms among `list`, copied.
fn ports_forms_of(list: &Vec<SExpr>) -> (r: Vec<SExpr>)
    ensures
        sexprs_view(r@) == ports_forms(sexprs_view(list@)),
{
    let ghost l = sexprs_view(list@);
    let mut r: Vec<SExpr> = Vec::new();
    let mut i: usize = 0;
    assert(sexprs_view(r@) =~= ports_forms(l.take(0)));
    while i < list.len()
        invariant
            i <= list.len(),
            l == sexprs_view(list@),
            sexprs_view(r@) == ports_forms(l.take(i as int)),
        decreases list.len() - i,
    {
        let ghost acc = sexprs_view(r@);
        assert(l.take(i + 1).drop_last() =~= l.take(i as int));
        assert(l.take(i + 1).last() == list@[i as int]@);
        let is_form = match &list[i] {
            SExpr::List(items, sp) => {
                proof {
                    lemma_list_view(*items, *sp);
                    assert(list@[i as int] == SExpr::List(*items, *sp));
                    if items.len() > 0 {
                        assert(sexprs_view(items@)[0] == items@[0]@);
                    }
                }
                items.len() > 0 && atom_is(&items[0], "ports")
            },
            SExpr::Atom(..) => false,
        };
        if is_form {
            let c = copy_sexpr(&list[i]);
            r.push(c);
            assert(sexprs_view(r@) =~= acc.push(c@));
        }
        i += 1;
    }
    assert(l.take(list.len() as int) =~= l);
    r
}

/// The names of the ports that the last of the expanded forms `pf` declares.
fn declared_port_names_of(pf: &Vec<SExpr>, file_name: &String) -> (r: Vec<String>)
    ensures
        texts_view(r@) == declared_port_names(sexprs_view(pf@), file_name@),
{
    let ghost p = sexprs_view(pf@);
    let mut names: Vec<String> = Vec::new();
    if pf.len() == 0 {
        assert(texts_view(names@) =~= Seq::<Seq<char>>::empty());
        return names;
    }
    assert(p.last() == pf@[pf.len() - 1]@);
    match &pf[pf.len() - 1] {
        SExpr::List(items, sp) => {
            proof {
                lemma_list_view(*items, *sp);
                assert(pf@[pf.len() - 1] == SExpr::List(*items, *sp));
            }
            match collect_ports(items, 1, file_name.as_str()) {
                Ok(ports) => {
                    let mut i: usize = 0;
                    while i < ports.len()
                        invariant
                            i <= ports.len(),
                            names.len() == i,
                            forall|j: int| 0 <= j < i ==> (#[trigger] names@[j])@ == ports@[j].name@,
                        decreases ports.len() - i,
                    {
                        names.push(ports[i].name.clone());
                        i += 1;
                    }
                    assert(texts_view(names@) =~= port_names(ports_view(ports@)));
                },
                Err(_) => {
                    assert(texts_view(names@) =~= Seq::<Seq<char>>::empty());
                },
            }
        },
        SExpr::Atom(..) => {
            assert(texts_view(names@) =~= Seq::<Seq<char>>::empty());
        },
    }
    names
}

/// The value of an expansion's result.
pub open spec fn res_sexpr(r: Result<SExpr, Diagnostic>) -> Result<SpecSExpr, SpecDiag> {
    match r {
        Ok(s) => Ok(s@),
        Err(d) => Err(d@),
    }
}

} // verus!

verus! {

impl MacroContext {
    /// Evaluates the built-in `name` on the arguments `args`.
    #[verifier::loop_isolation(false)]
    fn eval_builtin(
        &self,
        name: &String,
        args: &Vec<SExpr>,
        bindings: &Vec<(String, SExpr)>,
        span: Span,
        fuel: usize,
    ) -> (r: Result<SExpr, Diagnostic>)
        ensures
            res_sexpr(r) == spec_eval_builtin(
                self.view(),
                name@,
                sexprs_view(args@),
                env_view(bindings@),
                span,
                fuel as nat,
            ),
        decreases fuel, 9int, 0int,
    {
        let ghost c = self.view();
        let ghost a = sexprs_view(args@);
        let ghost env = env_view(bindings@);
        if args.len() > 0 {
            assert(a[0] == args@[0]@);
        }
        if args.len() > 1 {
            assert(a[1] == args@[1]@);
        }
        if args.len() > 2 {
            assert(a[2] == args@[2]@);
        }
        if string_is(name, "expil!") {
            if args.len() != 1 {
                return Err(self.err("expil! expects 1 argument", span));
            }
            self.expand_sexpr(&args[0], bindings, span, fuel)
        } else if string_is(name, "between!") {
            self.builtin_between(args, bindings, span, fuel)
        } else if string_is(name, "foreach!") {
            self.builtin_foreach(args, bindings, span, fuel)
        } else if string_is(name, "str!") {
            self.builtin_str(args, bindings, span, fuel)
        } else if string_is(name, "add!") {
            self.builtin_add(args, bindings, span, fuel)
        } else if string_is(name, "if!") {
            self.builtin_if(args, bindings, span, fuel)
        } else if string_is(name, "eval!") {
            self.builtin_eval(args, bindings, span, fuel)
        } else if string_is(name, "let!") {
            self.builtin_let(args, bindings, span, fuel)
        } else if string_is(name, "module-ports!") {
            if args.len() != 0 {
                return Err(self.err("module-ports! expects no arguments", span));
            }
            let mut items: Vec<SExpr> = Vec::new();
            let mut i: usize = 0;
            while i < self.ports.len()
                invariant
                    i <= self.ports.len(),
                    items.len() == i,
                    forall|j: int|
                        0 <= j < i ==> (#[trigger] items@[j])@ == SpecSExpr::Atom(self.ports@[j]@, span),
                decreases self.ports.len() - i,
            {
                items.push(SExpr::Atom(self.ports[i].clone(), span));
                i += 1;
            }
            proof {
                lemma_list_view(items, span);
                assert(sexprs_view(items@) =~= Seq::new(
                    c.ports.len(),
                    |j: int| SpecSExpr::Atom(c.ports[j], span),
                ));
            }
            Ok(SExpr::List(items, span))
        } else if string_is(name, "+!") || string_is(name, "*!") {
            let mul = string_is(name, "*!");
            proof {
                reveal_strlit("+!");
                reveal_strlit("*!");
                assert("+!"@[0] == '+');
                assert("*!"@[0] == '*');
                assert("+!"@ != "*!"@);
            }
            if args.len() < 2 {
                if mul {
                    return Err(self.err("*! requires at least two arguments", span));
                } else {
                    return Err(self.err("+! requires at least two arguments", span));
                }
            }
            let ghost target = spec_fold_ints(c, a, 0, env, span, fuel as nat, mul, if mul {
                1
            } else {
                0
            });
            let mut acc: i64 = if mul {
                1
            } else {
                0
            };
            let mut i: usize = 0;
            while i < args.len()
                invariant
                    i <= args.len(),
                    spec_fold_ints(c, a, i as int, env, span, fuel as nat, mul, acc as int)
                        == target,
                decreases args.len() - i,
            {
                assert(a[i as int] == args@[i as int]@);
                let v = match self.eval_integer(&args[i], bindings, span, fuel) {
                    Ok(v) => v,
                    Err(d) => {
                        return Err(d);
                    },
                };
                let next = if mul {
                    acc.checked_mul(v)
                } else {
                    acc.checked_add(v)
                };
                acc = match next {
                    Some(n) => n,
                    None => {
                        if mul {
                            return Err(self.err("Integer overflow in *!", span));
                        } else {
                            return Err(self.err("Integer overflow in +!", span));
                        }
                    },
                };
                i += 1;
            }
            Ok(SExpr::Atom(i64_to_string(acc), span))
        } else if string_is(name, "-!") || string_is(name, "/!") || string_is(name, "%!")
            || string_is(name, "==!") || string_is(name, "!=!") || string_is(name, "<!")
            || string_is(name, "<=!") || string_is(name, ">!") || string_is(name, ">=!") {
            if args.len() != 2 {
                let mut msg = name.clone();
                push_str(&mut msg, " requires exactly two arguments");
                return Err(self.err_owned(msg, span));
            }
            let x = match self.eval_integer(&args[0], bindings, span, fuel) {
                Ok(v) => v,
                Err(d) => {
                    return Err(d);
                },
            };
            let y = match self.eval_integer(&args[1], bindings, span, fuel) {
                Ok(v) => v,
                Err(d) => {
                    return Err(d);
                },
            };
            if string_is(name, "-!") {
                match x.checked_sub(y) {
                    Some(v) => Ok(SExpr::Atom(i64_to_string(v), span)),
                    None => Err(self.err("Integer overflow in -!", span)),
                }
            } else if string_is(name, "/!") {
                if y == 0 {
                    return Err(self.err("Division by zero in /!", span));
                }
                match div_toward_zero(x, y) {
                    Some(v) => Ok(SExpr::Atom(i64_to_string(v), span)),
                    None => Err(self.err("Integer overflow in /!", span)),
                }
            } else if string_is(name, "%!") {
                if y == 0 {
                    return Err(self.err("Modulo by zero in %!", span));
                }
                Ok(SExpr::Atom(i64_to_string(rem_toward_zero(x, y)), span))
            } else if string_is(name, "==!") {
                Ok(bool_atom_exec(x == y, span))
            } else if string_is(name, "!=!") {
                Ok(bool_atom_exec(x != y, span))
            } else if string_is(name, "<!") {
                Ok(bool_atom_exec(x < y, span))
            } else if string_is(name, "<=!") {
                Ok(bool_atom_exec(x <= y, span))
            } else if string_is(name, ">!") {
                Ok(bool_atom_exec(x > y, span))
            } else {
                Ok(bool_atom_exec(x >= y, span))
            }
        } else {
            let mut msg = string_of("Unknown builtin function: ");
            push_str(&mut msg, name.as_str());
            Err(self.err_owned(msg, span))
        }
    }

    /// `(between! start end)`: the atoms `start` .. `end - 1`.
    #[verifier::loop_isolation(false)]
    fn builtin_between(&self, args: &Vec<SExpr>, bindings: &Vec<(String, SExpr)>, span: Span, fuel: usize) -> (r: Result<SExpr, Diagnostic>)
        ensures
            res_sexpr(r) == spec_between(self.view(), sexprs_view(args@), env_view(bindings@), span, fuel as nat),
        decreases fuel, 8int, 0int,
    {
        let ghost a = sexprs_view(args@);
        if args.len() != 2 {
            return Err(self.err("between! expects 2 arguments", span));
        }
        assert(a[0] == args@[0]@);
        assert(a[1] == args@[1]@);
        let start = match self.eval_integer(&args[0], bindings, span, fuel) {
            Ok(v) => v,
            Err(d) => {
                return Err(d);
            },
        };
        let end = match self.eval_integer(&args[1], bindings, span, fuel) {
            Ok(v) => v,
            Err(d) => {
                return Err(d);
            },
        };
        let mut list: Vec<SExpr> = Vec::new();
        let mut i: i64 = start;
        if start < end {
            while i < end
                invariant
                    start <= i <= end,
                    sexprs_view(list@) =~= int_atoms(start as int, i as int, span),
                decreases end - i,
            {
                let ghost prev = sexprs_view(list@);
                let atom = SExpr::Atom(i64_to_string(i), span);
                list.push(atom);
                assert(sexprs_view(list@) =~= prev.push(atom@));
                i += 1;
            }
        } else {
            assert(sexprs_view(list@) =~= int_atoms(start as int, end as int, span));
        }
        proof {
            lemma_list_view(list, span);
        }
        Ok(SExpr::List(list, span))
    }

    /// `(foreach! list [var] body)`: `body` expanded once per item of `list`,
    /// with the item bound to `var` (by default `it`).
    #[verifier::loop_isolation(false)]
    fn builtin_foreach(&self, args: &Vec<SExpr>, bindings: &Vec<(String, SExpr)>, span: Span, fuel: usize) -> (r: Result<SExpr, Diagnostic>)
        ensures
            res_sexpr(r) == spec_foreach(self.view(), sexprs_view(args@), env_view(bindings@), span, fuel as nat),
        decreases fuel, 8int, 0int,
    {
        let ghost c = self.view();
        let ghost a = sexprs_view(args@);
        let ghost env = env_view(bindings@);
        if args.len() < 2 || args.len() > 3 {
            return Err(self.err("foreach! expects 2 or 3 arguments: (foreach! list [var] body)", span));
        }
        assert(a[0] == args@[0]@);
        assert(a[1] == args@[1]@);
        assert(a[args.len() - 1] == args@[args.len() - 1]@);
        let var = if args.len() == 3 {
            match &args[1] {
                SExpr::Atom(s, _) => s.clone(),
                SExpr::List(..) => {
                    return Err(self.err("foreach! var must be an atom", span));
                },
            }
        } else {
            string_of("it")
        };
        let body = &args[args.len() - 1];
        let list = match self.eval_list(&args[0], bindings, span, fuel) {
            Ok(l) => l,
            Err(d) => {
                return Err(d);
            },
        };
        let ghost items = sexprs_view(list@);
        let ghost target = spec_foreach_items(c, items, 0, var@, body@, env, fuel as nat, Seq::empty());
        let mut result: Vec<SExpr> = Vec::new();
        assert(sexprs_view(result@) =~= Seq::<SpecSExpr>::empty());
        let mut i: usize = 0;
        while i < list.len()
            invariant
                i <= list.len(),
                items == sexprs_view(list@),
                spec_foreach_items(c, items, i as int, var@, body@, env, fuel as nat, sexprs_view(result@)) == target,
            decreases list.len() - i,
        {
            let mut nb = copy_env(bindings);
            let ghost e0 = env_view(nb@);
            let item = copy_sexpr(&list[i]);
            assert(items[i as int] == list@[i as int]@);
            let ghost pair = (var@, item@);
            nb.push((var.clone(), item));
            assert(env_view(nb@) =~= env.push(pair));
            let expanded = match self.expand_sexpr(body, &nb, span, fuel) {
                Ok(e) => e,
                Err(d) => {
                    return Err(d);
                },
            };
            push_expansion(&mut result, expanded);
            i += 1;
        }
        proof {
            lemma_list_view(result, span);
        }
        Ok(SExpr::List(result, span))
    }

    /// `(let! ((var expr) ...) body ...)`: the bodies expanded with the
    /// bindings added; each `expr` is expanded without the new bindings.
    #[verifier::loop_isolation(false)]
    fn builtin_let(&self, args: &Vec<SExpr>, bindings: &Vec<(String, SExpr)>, span: Span, fuel: usize) -> (r: Result<SExpr, Diagnostic>)
        ensures
            res_sexpr(r) == spec_let(self.view(), sexprs_view(args@), env_view(bindings@), span, fuel as nat),
        decreases fuel, 8int, 0int,
    {
        let ghost c = self.view();
        let ghost a = sexprs_view(args@);
        let ghost env = env_view(bindings@);
        if args.len() < 2 {
            return Err(self.err("let! expects at least 2 arguments: (let! bindings body ...)", span));
        }
        assert(a[0] == args@[0]@);
        let bindings_list = match &args[0] {
            SExpr::List(list, _) => list,
            SExpr::Atom(..) => {
                return Err(self.err("let! first argument must be a list of bindings", span));
            },
        };
        let ghost bl = sexprs_view(bindings_list@);
        let mut new_bindings = copy_env(bindings);
        let ghost target = spec_let_bindings(c, bl, 0, env, env, span, fuel as nat);
        let mut i: usize = 0;
        while i < bindings_list.len()
            invariant
                i <= bindings_list.len(),
                bl == sexprs_view(bindings_list@),
                spec_let_bindings(c, bl, i as int, env, env_view(new_bindings@), span, fuel as nat) == target,
            decreases bindings_list.len() - i,
        {
            assert(bl[i as int] == bindings_list@[i as int]@);
            let (var, val) = match &bindings_list[i] {
                SExpr::List(inner, isp) => {
                    proof {
                        lemma_list_view(*inner, *isp);
                        assert(bindings_list@[i as int] == SExpr::List(*inner, *isp));
                    }
                    if inner.len() != 2 {
                        return Err(self.err("let! binding must be a list of (var expr)", span));
                    }
                    assert(sexprs_view(inner@)[0] == inner@[0]@);
                    assert(sexprs_view(inner@)[1] == inner@[1]@);
                    let var = match &inner[0] {
                        SExpr::Atom(s, _) => s.clone(),
                        SExpr::List(..) => {
                            return Err(self.err("let! binding variable must be an atom", span));
                        },
                    };
                    let val = match self.expand_sexpr(&inner[1], bindings, span, fuel) {
                        Ok(v) => v,
                        Err(d) => {
                            return Err(d);
                        },
                    };
                    (var, val)
                },
                SExpr::Atom(..) => {
                    return Err(self.err("let! binding must be a list of (var expr)", span));
                },
            };
            let ghost e0 = env_view(new_bindings@);
            let ghost pair = (var@, val@);
            new_bindings.push((var, val));
            assert(env_view(new_bindings@) =~= e0.push(pair));
            i += 1;
        }
        let ghost nenv = env_view(new_bindings@);
        let ghost target2 = spec_let_bodies(c, a, 1, nenv, fuel as nat, Seq::empty());
        let mut result: Vec<SExpr> = Vec::new();
        assert(sexprs_view(result@) =~= Seq::<SpecSExpr>::empty());
        let mut k: usize = 1;
        while k < args.len()
            invariant
                1 <= k <= args.len(),
                nenv == env_view(new_bindings@),
                spec_let_bodies(c, a, k as int, nenv, fuel as nat, sexprs_view(result@)) == target2,
            decreases args.len() - k,
        {
            assert(a[k as int] == args@[k as int]@);
            let expanded = match self.expand_sexpr(&args[k], &new_bindings, span, fuel) {
                Ok(e) => e,
                Err(d) => {
                    return Err(d);
                },
            };
            push_expansion(&mut result, expanded);
            k += 1;
        }
        proof {
            lemma_list_view(result, span);
        }
        Ok(SExpr::List(result, span))
    }

    /// `(str! x)`: `x` as an atom.
    fn builtin_str(&self, args: &Vec<SExpr>, bindings: &Vec<(String, SExpr)>, span: Span, fuel: usize) -> (r: Result<SExpr, Diagnostic>)
        ensures
            res_sexpr(r) == (if args@.len() != 1 {
                Err(err_at(self.view(), "str! expects 1 argument"@, span))
            } else {
                match spec_eval_text(self.view(), args@[0]@, env_view(bindings@), span, fuel as nat, "Expected atom"@) {
                    Ok(t) => Ok(SpecSExpr::Atom(t, span)),
                    Err(d) => Err(d),
                }
            }),
        decreases fuel, 8int, 0int,
    {
        if args.len() != 1 {
            return Err(self.err("str! expects 1 argument", span));
        }
        match self.eval_atom(&args[0], bindings, span, fuel) {
            Ok(s) => Ok(SExpr::Atom(s, span)),
            Err(d) => Err(d),
        }
    }

    /// `(add! s n)`: the text of `s` followed by the number `n`.
    fn builtin_add(&self, args: &Vec<SExpr>, bindings: &Vec<(String, SExpr)>, span: Span, fuel: usize) -> (r: Result<SExpr, Diagnostic>)
        ensures
            res_sexpr(r) == (if args@.len() != 2 {
                Err(err_at(self.view(), "add! expects 2 arguments"@, span))
            } else {
                match spec_eval_text(self.view(), args@[0]@, env_view(bindings@), span, fuel as nat, "Expected string/symbol"@) {
                    Err(d) => Err(d),
                    Ok(t) => match spec_eval_integer(self.view(), args@[1]@, env_view(bindings@), span, fuel as nat) {
                        Err(d) => Err(d),
                        Ok(n) => Ok(SpecSExpr::Atom(t + int_text(n), span)),
                    },
                }
            }),
        decreases fuel, 8int, 0int,
    {
        if args.len() != 2 {
            return Err(self.err("add! expects 2 arguments", span));
        }
        let s = match self.eval_string(&args[0], bindings, span, fuel) {
            Ok(s) => s,
            Err(d) => {
                return Err(d);
            },
        };
        let n = match self.eval_integer(&args[1], bindings, span, fuel) {
            Ok(n) => n,
            Err(d) => {
                return Err(d);
            },
        };
        let mut t = s;
        let ns = i64_to_string(n);
        push_str(&mut t, ns.as_str());
        Ok(SExpr::Atom(t, span))
    }

    /// `(if! cond then else)`.
    fn builtin_if(&self, args: &Vec<SExpr>, bindings: &Vec<(String, SExpr)>, span: Span, fuel: usize) -> (r: Result<SExpr, Diagnostic>)
        ensures
            res_sexpr(r) == (if args@.len() != 3 {
                Err(err_at(self.view(), "if! expects 3 arguments"@, span))
            } else {
                match spec_eval_bool(self.view(), args@[0]@, env_view(bindings@), fuel as nat) {
                    Err(d) => Err(d),
                    Ok(b) => spec_expand(self.view(), if b { args@[1]@ } else { args@[2]@ }, env_view(bindings@), fuel as nat),
                }
            }),
        decreases fuel, 8int, 0int,
    {
        if args.len() != 3 {
            return Err(self.err("if! expects 3 arguments", span));
        }
        let cond = match self.eval_bool(&args[0], bindings, span, fuel) {
            Ok(b) => b,
            Err(d) => {
                return Err(d);
            },
        };
        if cond {
            self.expand_sexpr(&args[1], bindings, span, fuel)
        } else {
            self.expand_sexpr(&args[2], bindings, span, fuel)
        }
    }

    /// `(eval! x)`: the expansion of `x`.
    fn builtin_eval(&self, args: &Vec<SExpr>, bindings: &Vec<(String, SExpr)>, span: Span, fuel: usize) -> (r: Result<SExpr, Diagnostic>)
        ensures
            res_sexpr(r) == (if args@.len() != 1 {
                Err(err_at(self.view(), "eval! expects 1 argument"@, span))
            } else {
                spec_expand(self.view(), args@[0]@, env_view(bindings@), fuel as nat)
            }),
        decreases fuel, 8int, 0int,
    {
        if args.len() != 1 {
            return Err(self.err("eval! expects 1 argument", span));
        }
        self.expand_sexpr(&args[0], bindings, span, fuel)
    }

    /// Expands `expr` and reads the result as an integer.
    fn eval_integer(&self, expr: &SExpr, bindings: &Vec<(String, SExpr)>, span: Span, fuel: usize) -> (r: Result<i64, Diagnostic>)
        ensures
            match r {
                Ok(v) => spec_eval_integer(self.view(), expr@, env_view(bindings@), span, fuel as nat) == Ok::<int, SpecDiag>(v as int),
                Err(d) => spec_eval_integer(self.view(), expr@, env_view(bindings@), span, fuel as nat) == Err::<int, SpecDiag>(d@),
            },
        decreases fuel, 2int, 0int,
    {
        let expanded = match self.expand_sexpr(expr, bindings, span, fuel) {
            Ok(e) => e,
            Err(d) => {
                return Err(d);
            },
        };
        match &expanded {
            SExpr::Atom(s, _) => match parse_i64(s) {
                Some(v) => Ok(v),
                None => {
                    let mut msg = string_of("Expected integer, got: ");
                    push_str(&mut msg, s.as_str());
                    Err(self.err_owned(msg, span))
                },
            },
            SExpr::List(..) => Err(self.err("Expected integer", span)),
        }
    }

    /// Expands `expr`, which must give an atom.
    fn eval_string(&self, expr: &SExpr, bindings: &Vec<(String, SExpr)>, span: Span, fuel: usize) -> (r: Result<String, Diagnostic>)
        ensures
            match r {
                Ok(s) => spec_eval_text(self.view(), expr@, env_view(bindings@), span, fuel as nat, "Expected string/symbol"@) == Ok::<Seq<char>, SpecDiag>(s@),
                Err(d) => spec_eval_text(self.view(), expr@, env_view(bindings@), span, fuel as nat, "Expected string/symbol"@) == Err::<Seq<char>, SpecDiag>(d@),
            },
        decreases fuel, 2int, 0int,
    {
        let expanded = match self.expand_sexpr(expr, bindings, span, fuel) {
            Ok(e) => e,
            Err(d) => {
                return Err(d);
            },
        };
        match expanded {
            SExpr::Atom(s, _) => Ok(s),
            SExpr::List(..) => Err(self.err("Expected string/symbol", span)),
        }
    }

    /// Expands `expr`, which must give an atom.
    fn eval_atom(&self, expr: &SExpr, bindings: &Vec<(String, SExpr)>, span: Span, fuel: usize) -> (r: Result<String, Diagnostic>)
        ensures
            match r {
                Ok(s) => spec_eval_text(self.view(), expr@, env_view(bindings@), span, fuel as nat, "Expected atom"@) == Ok::<Seq<char>, SpecDiag>(s@),
                Err(d) => spec_eval_text(self.view(), expr@, env_view(bindings@), span, fuel as nat, "Expected atom"@) == Err::<Seq<char>, SpecDiag>(d@),
            },
        decreases fuel, 2int, 0int,
    {
        let expanded = match self.expand_sexpr(expr, bindings, span, fuel) {
            Ok(e) => e,
            Err(d) => {
                return Err(d);
            },
        };
        match expanded {
            SExpr::Atom(s, _) => Ok(s),
            SExpr::List(..) => Err(self.err("Expected atom", span)),
        }
    }

    /// Expands `expr` and reads it as a truth value: the atoms `0` and
    /// `false` are false, anything else true.
    fn eval_bool(&self, expr: &SExpr, bindings: &Vec<(String, SExpr)>, span: Span, fuel: usize) -> (r: Result<bool, Diagnostic>)
        ensures
            match r {
                Ok(b) => spec_eval_bool(self.view(), expr@, env_view(bindings@), fuel as nat) == Ok::<bool, SpecDiag>(b),
                Err(d) => spec_eval_bool(self.view(), expr@, env_view(bindings@), fuel as nat) == Err::<bool, SpecDiag>(d@),
            },
        decreases fuel, 2int, 0int,
    {
        let expanded = match self.expand_sexpr(expr, bindings, span, fuel) {
            Ok(e) => e,
            Err(d) => {
                return Err(d);
            },
        };
        match &expanded {
            SExpr::Atom(s, _) => Ok(!(string_is(s, "0") || string_is(s, "false"))),
            SExpr::List(..) => Ok(true),
        }
    }

    /// Expands `expr`, which must give a list; returns its items.
    fn eval_list(&self, expr: &SExpr, bindings: &Vec<(String, SExpr)>, span: Span, fuel: usize) -> (r: Result<Vec<SExpr>, Diagnostic>)
        ensures
            match r {
                Ok(l) => spec_eval_list(self.view(), expr@, env_view(bindings@), span, fuel as nat) == Ok::<Seq<SpecSExpr>, SpecDiag>(sexprs_view(l@)),
                Err(d) => spec_eval_list(self.view(), expr@, env_view(bindings@), span, fuel as nat) == Err::<Seq<SpecSExpr>, SpecDiag>(d@),
            },
        decreases fuel, 2int, 0int,
    {
        let expanded = match self.expand_sexpr(expr, bindings, span, fuel) {
            Ok(e) => e,
            Err(d) => {
                return Err(d);
            },
        };
        match expanded {
            SExpr::List(list, lsp) => {
                proof {
                    lemma_list_view(list, lsp);
                }
                Ok(list)
            },
            SExpr::Atom(..) => Err(self.err("Expected list", span)),
        }
    }
}

} // verus!

verus! {

/// Flattens each top-level S-expression.
fn flatten_sexprs(sexprs: &Vec<SExpr>) -> (r: Vec<SExpr>)
    ensures
        sexprs_view(r@) == Seq::new(sexprs@.len(), |i: int| spec_flatten(sexprs@[i]@)),
{
    let mut r: Vec<SExpr> = Vec::new();
    let mut i: usize = 0;
    while i < sexprs.len()
        invariant
            i <= sexprs.len(),
            r.len() == i,
            forall|j: int| 0 <= j < i ==> (#[trigger] r@[j])@ == spec_flatten(sexprs@[j]@),
        decreases sexprs.len() - i,
    {
        r.push(flatten_sexpr(&sexprs[i]));
        i += 1;
    }
    assert(sexprs_view(r@) =~= Seq::new(sexprs@.len(), |i: int| spec_flatten(sexprs@[i]@)));
    r
}

/// Flattens the body of a module definition, and the items of any other list.
#[verifier::loop_isolation(false)]
fn flatten_sexpr(sexpr: &SExpr) -> (r: SExpr)
    ensures
        r@ == spec_flatten(sexpr@),
    decreases sexpr, 1int,
{
    match sexpr {
        SExpr::List(list, span) => {
            let ghost l = sexprs_view(list@);
            proof {
                lemma_list_view(*list, *span);
                assert(*sexpr == SExpr::List(*list, *span));
            }
            if list.len() >= 3 && atom_is(&list[0], "module") {
                assert(l[0] == list@[0]@);
                assert(l[1] == list@[1]@);
                let mut new_list: Vec<SExpr> = Vec::new();
                new_list.push(copy_sexpr(&list[0]));
                new_list.push(copy_sexpr(&list[1]));
                assert(sexprs_view(new_list@) =~= seq![l[0], l[1]]);
                flatten_module_body(list, 2, &mut new_list);
                proof {
                    lemma_list_view(new_list, *span);
                }
                return SExpr::List(new_list, *span);
            }
            let mut new_list: Vec<SExpr> = Vec::new();
            let mut i: usize = 0;
            assert(sexprs_view(new_list@) =~= Seq::<SpecSExpr>::empty());
            let ghost target = spec_flatten_all(l, 0, Seq::empty());
            while i < list.len()
                invariant
                    i <= list.len(),
                    spec_flatten_all(l, i as int, sexprs_view(new_list@)) == target,
                decreases list.len() - i,
            {
                let ghost acc = sexprs_view(new_list@);
                assert(l[i as int] == list@[i as int]@);
                let f = flatten_sexpr(&list[i]);
                new_list.push(f);
                assert(sexprs_view(new_list@) =~= acc.push(f@));
                i += 1;
            }
            proof {
                lemma_list_view(new_list, *span);
            }
            SExpr::List(new_list, *span)
        },
        SExpr::Atom(s, span) => SExpr::Atom(s.clone(), *span),
    }
}

/// Appends the flattened items of `body[start..]` to `out`.
#[verifier::loop_isolation(false)]
fn flatten_module_body(body: &Vec<SExpr>, start: usize, out: &mut Vec<SExpr>)
    ensures
        sexprs_view(final(out)@) == spec_flatten_body(
            sexprs_view(body@),
            start as int,
            sexprs_view(old(out)@),
        ),
    decreases body,
{
    let ghost b = sexprs_view(body@);
    let ghost target = spec_flatten_body(b, start as int, sexprs_view(out@));
    let mut i: usize = start;
    while i < body.len()
        invariant
            start <= i <= body.len() || i == start,
            b == sexprs_view(body@),
            spec_flatten_body(b, i as int, sexprs_view(out@)) == target,
        decreases body.len() - i,
    {
        let ghost acc = sexprs_view(out@);
        assert(b[i as int] == body@[i as int]@);
        match &body[i] {
            SExpr::List(inner, isp) => {
                proof {
                    lemma_list_view(*inner, *isp);
                    assert(body@[i as int] == SExpr::List(*inner, *isp));
                }
                if inner.len() > 0 {
                    assert(sexprs_view(inner@)[0] == inner@[0]@);
                    let first_is_atom = match &inner[0] {
                        SExpr::Atom(..) => true,
                        SExpr::List(..) => false,
                    };
                    if first_is_atom {
                        let c = copy_sexpr(&body[i]);
                        out.push(c);
                        assert(sexprs_view(out@) =~= acc.push(c@));
                    } else {
                        flatten_module_body(inner, 0, out);
                    }
                }
            },
            SExpr::Atom(..) => {
                let c = copy_sexpr(&body[i]);
                out.push(c);
                assert(sexprs_view(out@) =~= acc.push(c@));
            },
        }
        i += 1;
    }
}

/// Expands the macros of a program: collects the top-level macro
/// definitions, expands every other top-level form with them, and flattens
/// module bodies.
#[verifier::loop_isolation(false)]
pub fn expand(sexprs: Vec<SExpr>, file_name: &str) -> (r: Result<Vec<SExpr>, Diagnostic>)
    ensures
        sexprs_result_view(r) == spec_expand_program(sexprs_view(sexprs@), file_name@),
{
    let ghost l = sexprs_view(sexprs@);
    let mut context = MacroContext::new(file_name);
    let mut remaining: Vec<SExpr> = Vec::new();
    let ghost target = spec_collect_macros(l, 0, file_name@, Seq::empty(), Seq::empty());
    assert(sexprs_view(remaining@) =~= Seq::<SpecSExpr>::empty());
    let mut i: usize = 0;
    while i < sexprs.len()
        invariant
            i <= sexprs.len(),
            context.view().file == file_name@,
            context.view().ports == Seq::<Seq<char>>::empty(),
            spec_collect_macros(
                l,
                i as int,
                file_name@,
                context.view().macros,
                sexprs_view(remaining@),
            ) == target,
        decreases sexprs.len() - i,
    {
        let ghost rest0 = sexprs_view(remaining@);
        assert(l[i as int] == sexprs@[i as int]@);
        let mut is_macro_def = false;
        match &sexprs[i] {
            SExpr::List(list, span) => {
                proof {
                    lemma_list_view(*list, *span);
                    assert(sexprs@[i as int] == SExpr::List(*list, *span));
                }
                if list.len() > 0 && atom_is(&list[0], "macro") {
                    is_macro_def = true;
                    let ghost ll = sexprs_view(list@);
                    if list.len() < 4 {
                        return Err(diag_owned(string_of("Invalid macro definition"), file_name, *span));
                    }
                    assert(ll[1] == list@[1]@);
                    assert(ll[2] == list@[2]@);
                    assert(ll[3] == list@[3]@);
                    let name = match &list[1] {
                        SExpr::Atom(s, _) => s,
                        SExpr::List(..) => {
                            return Err(
                                diag_owned(string_of("Macro name must be an atom"), file_name, *span),
                            );
                        },
                    };
                    let params = match &list[2] {
                        SExpr::List(p, psp) => {
                            proof {
                                lemma_list_view(*p, *psp);
                                assert(list@[2] == SExpr::List(*p, *psp));
                            }
                            let ghost pv = sexprs_view(p@);
                            let mut params_vec: Vec<String> = Vec::new();
                            let mut k: usize = 0;
                            while k < p.len()
                                invariant
                                    k <= p.len(),
                                    pv == sexprs_view(p@),
                                    params_vec.len() == k,
                                    forall|j: int| 0 <= j < k ==> (#[trigger] pv[j]) is Atom,
                                    forall|j: int|
                                        0 <= j < k ==> (#[trigger] params_vec@[j])@ == pv[j]->Atom_0,
                                decreases p.len() - k,
                            {
                                assert(pv[k as int] == p@[k as int]@);
                                match &p[k] {
                                    SExpr::Atom(s, _) => {
                                        params_vec.push(s.clone());
                                    },
                                    SExpr::List(..) => {
                                        return Err(
                                            diag_owned(
                                                string_of("Macro parameters must be atoms"),
                                                file_name,
                                                *span,
                                            ),
                                        );
                                    },
                                }
                                k += 1;
                            }
                            assert(texts_view(params_vec@) =~= atom_texts(pv));
                            params_vec
                        },
                        SExpr::Atom(..) => {
                            return Err(
                                diag_owned(
                                    string_of("Macro parameters must be a list"),
                                    file_name,
                                    *span,
                                ),
                            );
                        },
                    };
                    let body = copy_sexpr(&list[3]);
                    context.define_macro(name, params, body);
                }
            },
            SExpr::Atom(..) => {},
        }
        if !is_macro_def {
            let c = copy_sexpr(&sexprs[i]);
            remaining.push(c);
            assert(sexprs_view(remaining@) =~= rest0.push(c@));
        }
        i += 1;
    }
    let ghost c = context.view();
    let ghost rest = sexprs_view(remaining@);
    let ghost target2 = spec_expand_forms(c, rest, 0, Seq::empty());
    let mut result: Vec<SExpr> = Vec::new();
    assert(sexprs_view(result@) =~= Seq::<SpecSExpr>::empty());
    let empty_bindings: Vec<(String, SExpr)> = Vec::new();
    assert(env_view(empty_bindings@) =~= Seq::<(Seq<char>, SpecSExpr)>::empty());
    let mut k: usize = 0;
    while k < remaining.len()
        invariant
            k <= remaining.len(),
            c == context.view(),
            rest == sexprs_view(remaining@),
            env_view(empty_bindings@) == Seq::<(Seq<char>, SpecSExpr)>::empty(),
            spec_expand_forms(c, rest, k as int, sexprs_view(result@)) == target2,
        decreases remaining.len() - k,
    {
        let ghost acc = sexprs_view(result@);
        assert(rest[k as int] == remaining@[k as int]@);
        let default_span = span_of(&remaining[k]);
        let e = match context.expand_sexpr(
            &remaining[k],
            &empty_bindings,
            default_span,
            MAX_EXPANSION_DEPTH,
        ) {
            Ok(e) => e,
            Err(d) => {
                return Err(d);
            },
        };
        result.push(e);
        assert(sexprs_view(result@) =~= acc.push(e@));
        k += 1;
    }
    let flat = flatten_sexprs(&result);
    assert(sexprs_view(flat@) =~= Seq::new(
        sexprs_view(result@).len(),
        |j: int| spec_flatten(sexprs_view(result@)[j]),
    ));
    Ok(flat)
}

} // verus!
