//! Checks on a module: names declared once, assignments to the right kind
//! of signal, and identifiers declared before use.
use vstd::prelude::*;
use crate::ast::{
    exprs_view, lemma_concat_view, lemma_if_view, stmts_view, sens_view, Assign,
    AssignTarget, Expr, Instance, Module, Port, PortDir, PortMap, Process, Sensitivity, Signal,
    SpecAssign, SpecAssignTarget, SpecExpr, SpecInstance, SpecModule, SpecPort, SpecPortMap,
    SpecProcess, SpecSensitivity, SpecSignal, SpecStatement, Statement,
};
use crate::text::{append_names, contains_name, lemma_names_push, names_of, push_str, string_of};

verus! {

broadcast use lemma_concat_view, lemma_if_view;

/// The names collected from the ports: all of them, the inputs, those that a
/// process may assign (`regs`) and those that a continuous assignment may
/// drive (`wires`).
pub struct SpecNames {
    pub ports: Seq<Seq<char>>,
    pub inputs: Seq<Seq<char>>,
    pub regs: Seq<Seq<char>>,
    pub wires: Seq<Seq<char>>,
}

pub open spec fn quoted(prefix: Seq<char>, name: Seq<char>, suffix: Seq<char>) -> Seq<char> {
    prefix + name + suffix
}

/// Collecting the ports `ps[i..]` into `st`; a repeated port name is an error.
pub open spec fn spec_check_ports(ps: Seq<SpecPort>, i: int, st: SpecNames) -> Result<
    SpecNames,
    Seq<char>,
>
    decreases ps.len() - i,
{
    if i < 0 || i >= ps.len() {
        Ok(st)
    } else {
        let name = ps[i].name;
        if st.ports.contains(name) {
            Err("Duplicate port name: "@ + name)
        } else {
            let st1 = SpecNames { ports: st.ports.push(name), ..st };
            let st2 = match ps[i].direction {
                PortDir::Input => SpecNames { inputs: st1.inputs.push(name), ..st1 },
                PortDir::Output => if ps[i].reg {
                    SpecNames { regs: st1.regs.push(name), ..st1 }
                } else {
                    SpecNames { wires: st1.wires.push(name), ..st1 }
                },
                PortDir::Inout => SpecNames { wires: st1.wires.push(name), ..st1 },
            };
            spec_check_ports(ps, i + 1, st2)
        }
    }
}

/// Collecting the wires `ws[i..]`: `seen` are the wire names so far.
pub open spec fn spec_check_wires(
    ws: Seq<SpecSignal>,
    i: int,
    ports: Seq<Seq<char>>,
    seen: Seq<Seq<char>>,
    wires: Seq<Seq<char>>,
) -> Result<Seq<Seq<char>>, Seq<char>>
    decreases ws.len() - i,
{
    if i < 0 || i >= ws.len() {
        Ok(wires)
    } else {
        let name = ws[i].name;
        if ports.contains(name) {
            Err(quoted("Wire '"@, name, "' conflicts with a port of the same name"@))
        } else if seen.contains(name) {
            Err("Duplicate wire: "@ + name)
        } else {
            spec_check_wires(ws, i + 1, ports, seen.push(name), wires.push(name))
        }
    }
}

/// Collecting the registers `rs[i..]`: `seen` are the register names so far.
pub open spec fn spec_check_regs(
    rs: Seq<SpecSignal>,
    i: int,
    ports: Seq<Seq<char>>,
    seen: Seq<Seq<char>>,
    wires: Seq<Seq<char>>,
    regs: Seq<Seq<char>>,
) -> Result<Seq<Seq<char>>, Seq<char>>
    decreases rs.len() - i,
{
    if i < 0 || i >= rs.len() {
        Ok(regs)
    } else {
        let name = rs[i].name;
        if ports.contains(name) {
            Err(quoted("Reg '"@, name, "' conflicts with a port of the same name"@))
        } else if seen.contains(name) {
            Err("Duplicate reg: "@ + name)
        } else if wires.contains(name) {
            Err(quoted("Reg '"@, name, "' already declared as wire"@))
        } else {
            spec_check_regs(rs, i + 1, ports, seen.push(name), wires, regs.push(name))
        }
    }
}

/// The first identifier of `e` (left to right) that `declared` lacks, as an
/// error message.
pub open spec fn spec_check_expr(e: SpecExpr, declared: Seq<Seq<char>>) -> Option<Seq<char>>
    decreases e, 0int,
{
    match e {
        SpecExpr::Literal(_) => None,
        SpecExpr::Ident(name) => if declared.contains(name) {
            None
        } else {
            Some(quoted("Undeclared identifier: '"@, name, "'"@))
        },
        SpecExpr::Slice(b, _, _) => spec_check_expr(*b, declared),
        SpecExpr::Concat(v) => spec_check_exprs(v, 0, declared),
        SpecExpr::UnaryOp(_, b) => spec_check_expr(*b, declared),
        SpecExpr::BinaryOp(_, a, b) => match spec_check_expr(*a, declared) {
            Some(m) => Some(m),
            None => spec_check_expr(*b, declared),
        },
        SpecExpr::Cond(c, t, f) => match spec_check_expr(*c, declared) {
            Some(m) => Some(m),
            None => match spec_check_expr(*t, declared) {
                Some(m) => Some(m),
                None => spec_check_expr(*f, declared),
            },
        },
    }
}

pub open spec fn spec_check_exprs(v: Seq<SpecExpr>, i: int, declared: Seq<Seq<char>>) -> Option<
    Seq<char>,
>
    decreases v, v.len() - i,
{
    if i < 0 || i >= v.len() {
        None
    } else {
        match spec_check_expr(v[i], declared) {
            Some(m) => Some(m),
            None => spec_check_exprs(v, i + 1, declared),
        }
    }
}

pub open spec fn target_name(t: SpecAssignTarget) -> Seq<char> {
    match t {
        SpecAssignTarget::Signal(n, _) => n,
        SpecAssignTarget::Slice(n, _, _) => n,
    }
}

/// An assignment to `t` must not drive an input port, and must drive a name
/// of `allowed` (wires for a continuous assignment, registers in a process).
pub open spec fn spec_check_target(
    t: SpecAssignTarget,
    inputs: Seq<Seq<char>>,
    allowed: Seq<Seq<char>>,
    is_continuous: bool,
) -> Option<Seq<char>> {
    let name = target_name(t);
    if inputs.contains(name) {
        Some(quoted("Cannot assign to input port '"@, name, "'"@))
    } else if !allowed.contains(name) {
        Some(
            quoted("Assignment target '"@, name, "' must be a "@) + (if is_continuous {
                "wire (or non-reg output port)"@
            } else {
                "reg (or output reg port)"@
            }) + " in this context"@,
        )
    } else {
        None
    }
}

pub open spec fn spec_check_stmt(
    s: SpecStatement,
    declared: Seq<Seq<char>>,
    inputs: Seq<Seq<char>>,
    regs: Seq<Seq<char>>,
) -> Option<Seq<char>>
    decreases s, 0int,
{
    match s {
        SpecStatement::BlockWrite(t, e) => match spec_check_target(t, inputs, regs, false) {
            Some(m) => Some(m),
            None => spec_check_expr(e, declared),
        },
        SpecStatement::NonBlockWrite(t, e) => match spec_check_target(t, inputs, regs, false) {
            Some(m) => Some(m),
            None => spec_check_expr(e, declared),
        },
        SpecStatement::If(c, a, b) => match spec_check_expr(c, declared) {
            Some(m) => Some(m),
            None => match spec_check_stmts(a, 0, declared, inputs, regs) {
                Some(m) => Some(m),
                None => spec_check_stmts(b, 0, declared, inputs, regs),
            },
        },
    }
}

pub open spec fn spec_check_stmts(
    v: Seq<SpecStatement>,
    i: int,
    declared: Seq<Seq<char>>,
    inputs: Seq<Seq<char>>,
    regs: Seq<Seq<char>>,
) -> Option<Seq<char>>
    decreases v, v.len() - i,
{
    if i < 0 || i >= v.len() {
        None
    } else {
        match spec_check_stmt(v[i], declared, inputs, regs) {
            Some(m) => Some(m),
            None => spec_check_stmts(v, i + 1, declared, inputs, regs),
        }
    }
}

pub open spec fn sens_name(s: SpecSensitivity) -> Seq<char> {
    match s {
        SpecSensitivity::PosEdge(n) => n,
        SpecSensitivity::NegEdge(n) => n,
        SpecSensitivity::Level(n) => n,
    }
}

/// The first sensitivity signal of `ss[i..]` that is not declared.
pub open spec fn spec_check_sens(ss: Seq<SpecSensitivity>, i: int, declared: Seq<Seq<char>>) -> Option<
    Seq<char>,
>
    decreases ss.len() - i,
{
    if i < 0 || i >= ss.len() {
        None
    } else if !declared.contains(sens_name(ss[i])) {
        Some(quoted("Undeclared signal in sensitivity list: '"@, sens_name(ss[i]), "'"@))
    } else {
        spec_check_sens(ss, i + 1, declared)
    }
}

pub open spec fn port_map_exprs(pm: SpecPortMap) -> Seq<SpecExpr> {
    match pm {
        SpecPortMap::ByName(v) => Seq::new(v.len(), |i: int| v[i].1),
        SpecPortMap::ByPosition(v) => v,
    }
}

/// The first error among the continuous assignments `asg[i..]`: a target
/// that is not a wire, or an undeclared identifier on the right.
pub open spec fn spec_check_assigns(
    asg: Seq<SpecAssign>,
    i: int,
    declared: Seq<Seq<char>>,
    inputs: Seq<Seq<char>>,
    wires: Seq<Seq<char>>,
) -> Option<Seq<char>>
    decreases asg.len() - i,
{
    if i < 0 || i >= asg.len() {
        None
    } else {
        match spec_check_target(asg[i].target, inputs, wires, true) {
            Some(e) => Some(e),
            None => match spec_check_expr(asg[i].expr, declared) {
                Some(e) => Some(e),
                None => spec_check_assigns(asg, i + 1, declared, inputs, wires),
            },
        }
    }
}

/// The first error among the processes `ps[i..]`: an undeclared signal in a
/// sensitivity list, or an error in a statement of the body.
pub open spec fn spec_check_processes(
    ps: Seq<SpecProcess>,
    i: int,
    declared: Seq<Seq<char>>,
    inputs: Seq<Seq<char>>,
    regs: Seq<Seq<char>>,
) -> Option<Seq<char>>
    decreases ps.len() - i,
{
    if i < 0 || i >= ps.len() {
        None
    } else {
        match spec_check_sens(ps[i].sensitivity, 0, declared) {
            Some(e) => Some(e),
            None => match spec_check_stmts(ps[i].body, 0, declared, inputs, regs) {
                Some(e) => Some(e),
                None => spec_check_processes(ps, i + 1, declared, inputs, regs),
            },
        }
    }
}

/// The first undeclared identifier in the port connections of the instances
/// `ins[i..]`.
pub open spec fn spec_check_instances(ins: Seq<SpecInstance>, i: int, declared: Seq<Seq<char>>) -> Option<
    Seq<char>,
>
    decreases ins.len() - i,
{
    if i < 0 || i >= ins.len() {
        None
    } else {
        match spec_check_exprs(port_map_exprs(ins[i].port_map), 0, declared) {
            Some(e) => Some(e),
            None => spec_check_instances(ins, i + 1, declared),
        }
    }
}

/// The first error among the continuous assignments, the processes and the
/// instances of `m`, in that order.
pub open spec fn spec_check_body(
    m: SpecModule,
    declared: Seq<Seq<char>>,
    inputs: Seq<Seq<char>>,
    wires: Seq<Seq<char>>,
    regs: Seq<Seq<char>>,
) -> Option<Seq<char>> {
    match spec_check_assigns(m.assigns, 0, declared, inputs, wires) {
        Some(e) => Some(e),
        None => match spec_check_processes(m.processes, 0, declared, inputs, regs) {
            Some(e) => Some(e),
            None => spec_check_instances(m.instances, 0, declared),
        },
    }
}

pub open spec fn no_names() -> SpecNames {
    SpecNames {
        ports: Seq::empty(),
        inputs: Seq::empty(),
        regs: Seq::empty(),
        wires: Seq::empty(),
    }
}

/// What `check_module` answers for the module `m`.
pub open spec fn spec_check_module(m: SpecModule) -> Result<(), Seq<char>> {
    match spec_check_ports(m.ports, 0, no_names()) {
        Err(e) => Err(e),
        Ok(st) => match spec_check_wires(m.wires, 0, st.ports, Seq::empty(), st.wires) {
            Err(e) => Err(e),
            Ok(wires) => match spec_check_regs(m.regs, 0, st.ports, Seq::empty(), wires, st.regs) {
                Err(e) => Err(e),
                Ok(regs) => {
                    let declared = wires + regs + st.ports;
                    match spec_check_body(m, declared, st.inputs, wires, regs) {
                        Some(e) => Err(e),
                        None => Ok(()),
                    }
                },
            },
        },
    }
}


// ---------------------------------------------------------------------------
// What an accepted module satisfies
// ---------------------------------------------------------------------------

pub open spec fn port_names(ps: Seq<SpecPort>, n: int) -> Seq<Seq<char>> {
    Seq::new(n as nat, |k: int| ps[k].name)
}

pub open spec fn signal_names(ss: Seq<SpecSignal>, from: int, to: int) -> Seq<Seq<char>> {
    Seq::new((to - from) as nat, |k: int| ss[from + k].name)
}

proof fn lemma_ports_accepted(ps: Seq<SpecPort>, i: int, st: SpecNames)
    requires
        0 <= i <= ps.len(),
        st.ports == port_names(ps, i),
        forall|a: int, b: int| 0 <= a < b < i ==> ps[a].name != ps[b].name,
    ensures
        spec_check_ports(ps, i, st) matches Ok(r) ==> (forall|a: int, b: int|
            0 <= a < b < ps.len() ==> ps[a].name != ps[b].name) && r.ports == port_names(
            ps,
            ps.len() as int,
        ),
    decreases ps.len() - i,
{
    if i < ps.len() {
        let name = ps[i].name;
        if !st.ports.contains(name) {
            assert forall|a: int| 0 <= a < i implies ps[a].name != name by {
                assert(st.ports[a] == ps[a].name);
            }
            let st1 = SpecNames { ports: st.ports.push(name), ..st };
            let st2 = match ps[i].direction {
                PortDir::Input => SpecNames { inputs: st1.inputs.push(name), ..st1 },
                PortDir::Output => if ps[i].reg {
                    SpecNames { regs: st1.regs.push(name), ..st1 }
                } else {
                    SpecNames { wires: st1.wires.push(name), ..st1 }
                },
                PortDir::Inout => SpecNames { wires: st1.wires.push(name), ..st1 },
            };
            assert(st2.ports =~= port_names(ps, i + 1));
            lemma_ports_accepted(ps, i + 1, st2);
        }
    } else {
        assert(st.ports =~= port_names(ps, ps.len() as int));
    }
}

proof fn lemma_wires_accepted(
    ws: Seq<SpecSignal>,
    i: int,
    ports: Seq<Seq<char>>,
    seen: Seq<Seq<char>>,
    wires: Seq<Seq<char>>,
    base: Seq<Seq<char>>,
)
    requires
        0 <= i <= ws.len(),
        seen == signal_names(ws, 0, i),
        wires == base + seen,
        forall|a: int, b: int| 0 <= a < b < i ==> ws[a].name != ws[b].name,
        forall|a: int| 0 <= a < i ==> !ports.contains(#[trigger] ws[a].name),
    ensures
        spec_check_wires(ws, i, ports, seen, wires) matches Ok(r) ==> (forall|a: int, b: int|
            0 <= a < b < ws.len() ==> ws[a].name != ws[b].name) && (forall|a: int|
            0 <= a < ws.len() ==> !ports.contains(#[trigger] ws[a].name)) && r == base
            + signal_names(ws, 0, ws.len() as int),
    decreases ws.len() - i,
{
    if i < ws.len() {
        let name = ws[i].name;
        if !ports.contains(name) && !seen.contains(name) {
            assert forall|a: int| 0 <= a < i implies ws[a].name != name by {
                assert(seen[a] == ws[a].name);
            }
            assert(seen.push(name) =~= signal_names(ws, 0, i + 1));
            assert(wires.push(name) =~= base + seen.push(name));
            lemma_wires_accepted(ws, i + 1, ports, seen.push(name), wires.push(name), base);
        }
    } else {
        assert(seen =~= signal_names(ws, 0, ws.len() as int));
    }
}

proof fn lemma_regs_accepted(
    rs: Seq<SpecSignal>,
    i: int,
    ports: Seq<Seq<char>>,
    seen: Seq<Seq<char>>,
    wires: Seq<Seq<char>>,
    regs: Seq<Seq<char>>,
    base: Seq<Seq<char>>,
)
    requires
        0 <= i <= rs.len(),
        seen == signal_names(rs, 0, i),
        forall|a: int, b: int| 0 <= a < b < i ==> rs[a].name != rs[b].name,
        forall|a: int| 0 <= a < i ==> !ports.contains(#[trigger] rs[a].name),
        forall|a: int| 0 <= a < i ==> !wires.contains(#[trigger] rs[a].name),
        regs == base + seen,
    ensures
        spec_check_regs(rs, i, ports, seen, wires, regs) matches Ok(r) ==> (forall|a: int, b: int|
            0 <= a < b < rs.len() ==> rs[a].name != rs[b].name) && (forall|a: int|
            0 <= a < rs.len() ==> !ports.contains(#[trigger] rs[a].name)) && (forall|a: int|
            0 <= a < rs.len() ==> !wires.contains(#[trigger] rs[a].name)) && r == base
            + signal_names(rs, 0, rs.len() as int),
    decreases rs.len() - i,
{
    if i < rs.len() {
        let name = rs[i].name;
        if !ports.contains(name) && !seen.contains(name) && !wires.contains(name) {
            assert forall|a: int| 0 <= a < i implies rs[a].name != name by {
                assert(seen[a] == rs[a].name);
            }
            assert(seen.push(name) =~= signal_names(rs, 0, i + 1));
            assert(regs.push(name) =~= base + seen.push(name));
            lemma_regs_accepted(rs, i + 1, ports, seen.push(name), wires, regs.push(name), base);
        }
    } else {
        assert(seen =~= signal_names(rs, 0, rs.len() as int));
    }
}

/// A module that `check_module` accepts declares each name once: its ports,
/// internal wires and registers have pairwise distinct names, within each
/// kind and across kinds.
pub proof fn lemma_accepted_names_distinct(m: SpecModule)
    requires
        spec_check_module(m) is Ok,
    ensures
        forall|a: int, b: int|
            0 <= a < b < m.ports.len() ==> m.ports[a].name != m.ports[b].name,
        forall|a: int, b: int|
            0 <= a < b < m.wires.len() ==> m.wires[a].name != m.wires[b].name,
        forall|a: int, b: int| 0 <= a < b < m.regs.len() ==> m.regs[a].name != m.regs[b].name,
        forall|a: int, b: int|
            0 <= a < m.wires.len() && 0 <= b < m.ports.len() ==> m.wires[a].name
                != m.ports[b].name,
        forall|a: int, b: int|
            0 <= a < m.regs.len() && 0 <= b < m.ports.len() ==> m.regs[a].name
                != m.ports[b].name,
        forall|a: int, b: int|
            0 <= a < m.regs.len() && 0 <= b < m.wires.len() ==> m.regs[a].name
                != m.wires[b].name,
{
    let st0 = no_names();
    assert(st0.ports =~= port_names(m.ports, 0));
    lemma_ports_accepted(m.ports, 0, st0);
    let st = spec_check_ports(m.ports, 0, st0)->Ok_0;
    let e: Seq<Seq<char>> = Seq::empty();
    assert(e =~= signal_names(m.wires, 0, 0));
    assert(st.wires =~= st.wires + e);
    lemma_wires_accepted(m.wires, 0, st.ports, e, st.wires, st.wires);
    let wires = spec_check_wires(m.wires, 0, st.ports, e, st.wires)->Ok_0;
    assert(e =~= signal_names(m.regs, 0, 0));
    assert(st.regs =~= st.regs + e);
    lemma_regs_accepted(m.regs, 0, st.ports, e, wires, st.regs, st.regs);
    assert forall|a: int, b: int|
        0 <= a < m.wires.len() && 0 <= b < m.ports.len() implies m.wires[a].name
            != m.ports[b].name by {
        assert(!st.ports.contains(m.wires[a].name));
        assert(st.ports[b] == m.ports[b].name);
    }
    assert forall|a: int, b: int|
        0 <= a < m.regs.len() && 0 <= b < m.ports.len() implies m.regs[a].name
            != m.ports[b].name by {
        assert(!st.ports.contains(m.regs[a].name));
        assert(st.ports[b] == m.ports[b].name);
    }
    assert forall|a: int, b: int|
        0 <= a < m.regs.len() && 0 <= b < m.wires.len() implies m.regs[a].name
            != m.wires[b].name by {
        assert(!wires.contains(m.regs[a].name));
        assert(wires[st.wires.len() + b] == m.wires[b].name);
    }
}

/// The names of the first `n` ports that `keep` selects, in order.
pub open spec fn ports_where(ps: Seq<SpecPort>, n: int, keep: spec_fn(SpecPort) -> bool) -> Seq<
    Seq<char>,
>
    decreases n,
{
    if n <= 0 || n > ps.len() {
        Seq::empty()
    } else if keep(ps[n - 1]) {
        ports_where(ps, n - 1, keep).push(ps[n - 1].name)
    } else {
        ports_where(ps, n - 1, keep)
    }
}

pub open spec fn is_input(p: SpecPort) -> bool {
    p.direction == PortDir::Input
}

/// A port that a continuous assignment may drive.
pub open spec fn is_net_port(p: SpecPort) -> bool {
    (p.direction == PortDir::Output && !p.reg) || p.direction == PortDir::Inout
}

/// A port that a process may assign.
pub open spec fn is_reg_port(p: SpecPort) -> bool {
    p.direction == PortDir::Output && p.reg
}

/// The names of the input ports of `m`.
pub open spec fn input_ports(m: SpecModule) -> Seq<Seq<char>> {
    ports_where(m.ports, m.ports.len() as int, |p: SpecPort| is_input(p))
}

/// What a continuous assignment of `m` may drive: outputs that are not
/// registers, inouts and internal wires.
pub open spec fn nets(m: SpecModule) -> Seq<Seq<char>> {
    ports_where(m.ports, m.ports.len() as int, |p: SpecPort| is_net_port(p)) + signal_names(
        m.wires,
        0,
        m.wires.len() as int,
    )
}

/// What a process of `m` may assign: output registers and internal
/// registers.
pub open spec fn registers(m: SpecModule) -> Seq<Seq<char>> {
    ports_where(m.ports, m.ports.len() as int, |p: SpecPort| is_reg_port(p)) + signal_names(
        m.regs,
        0,
        m.regs.len() as int,
    )
}

proof fn lemma_ports_kinds(ps: Seq<SpecPort>, i: int, st: SpecNames)
    requires
        0 <= i <= ps.len(),
        st.inputs == ports_where(ps, i, |p: SpecPort| is_input(p)),
        st.wires == ports_where(ps, i, |p: SpecPort| is_net_port(p)),
        st.regs == ports_where(ps, i, |p: SpecPort| is_reg_port(p)),
    ensures
        spec_check_ports(ps, i, st) matches Ok(r) ==> r.inputs == ports_where(
            ps,
            ps.len() as int,
            |p: SpecPort| is_input(p),
        ) && r.wires == ports_where(ps, ps.len() as int, |p: SpecPort| is_net_port(p)) && r.regs
            == ports_where(ps, ps.len() as int, |p: SpecPort| is_reg_port(p)),
    decreases ps.len() - i,
{
    if i < ps.len() {
        let name = ps[i].name;
        if !st.ports.contains(name) {
            let st1 = SpecNames { ports: st.ports.push(name), ..st };
            let st2 = match ps[i].direction {
                PortDir::Input => SpecNames { inputs: st1.inputs.push(name), ..st1 },
                PortDir::Output => if ps[i].reg {
                    SpecNames { regs: st1.regs.push(name), ..st1 }
                } else {
                    SpecNames { wires: st1.wires.push(name), ..st1 }
                },
                PortDir::Inout => SpecNames { wires: st1.wires.push(name), ..st1 },
            };
            lemma_ports_kinds(ps, i + 1, st2);
        }
    }
}

/// The targets that a statement writes, nested ones included.
pub open spec fn stmt_targets(s: SpecStatement) -> Seq<SpecAssignTarget>
    decreases s, 0int,
{
    match s {
        SpecStatement::BlockWrite(t, _) => seq![t],
        SpecStatement::NonBlockWrite(t, _) => seq![t],
        SpecStatement::If(_, a, b) => stmts_targets(a, a.len() as int) + stmts_targets(
            b,
            b.len() as int,
        ),
    }
}

/// The targets that the first `n` statements of `v` write.
pub open spec fn stmts_targets(v: Seq<SpecStatement>, n: int) -> Seq<SpecAssignTarget>
    decreases v, n,
{
    if n <= 0 || n > v.len() {
        Seq::empty()
    } else {
        stmts_targets(v, n - 1) + stmt_targets(v[n - 1])
    }
}

/// Every target of `ts` names one of `allowed` and none of `inputs`.
pub open spec fn targets_ok(
    ts: Seq<SpecAssignTarget>,
    inputs: Seq<Seq<char>>,
    allowed: Seq<Seq<char>>,
) -> bool {
    forall|k: int|
        0 <= k < ts.len() ==> !inputs.contains(target_name(#[trigger] ts[k])) && allowed.contains(
            target_name(ts[k]),
        )
}

proof fn lemma_targets_ok_concat(
    a: Seq<SpecAssignTarget>,
    b: Seq<SpecAssignTarget>,
    inputs: Seq<Seq<char>>,
    allowed: Seq<Seq<char>>,
)
    requires
        targets_ok(a, inputs, allowed),
        targets_ok(b, inputs, allowed),
    ensures
        targets_ok(a + b, inputs, allowed),
{
    assert forall|k: int| 0 <= k < (a + b).len() implies !inputs.contains(
        target_name(#[trigger] (a + b)[k]),
    ) && allowed.contains(target_name((a + b)[k])) by {
        if k < a.len() {
            assert((a + b)[k] == a[k]);
        } else {
            assert((a + b)[k] == b[k - a.len()]);
        }
    }
}

proof fn lemma_stmt_targets(
    s: SpecStatement,
    declared: Seq<Seq<char>>,
    inputs: Seq<Seq<char>>,
    regs: Seq<Seq<char>>,
)
    requires
        spec_check_stmt(s, declared, inputs, regs) is None,
    ensures
        targets_ok(stmt_targets(s), inputs, regs),
    decreases s, 0int,
{
    match s {
        SpecStatement::If(_, a, b) => {
            lemma_stmts_checked(a, 0, declared, inputs, regs);
            lemma_stmts_checked(b, 0, declared, inputs, regs);
            lemma_stmts_targets(a, a.len() as int, declared, inputs, regs);
            lemma_stmts_targets(b, b.len() as int, declared, inputs, regs);
            lemma_targets_ok_concat(
                stmts_targets(a, a.len() as int),
                stmts_targets(b, b.len() as int),
                inputs,
                regs,
            );
        },
        _ => {},
    }
}

proof fn lemma_stmts_targets(
    v: Seq<SpecStatement>,
    n: int,
    declared: Seq<Seq<char>>,
    inputs: Seq<Seq<char>>,
    regs: Seq<Seq<char>>,
)
    requires
        forall|j: int|
            0 <= j < v.len() ==> (#[trigger] spec_check_stmt(v[j], declared, inputs, regs)) is None,
    ensures
        targets_ok(stmts_targets(v, n), inputs, regs),
    decreases v, n,
{
    if n > 0 && n <= v.len() {
        lemma_stmts_targets(v, n - 1, declared, inputs, regs);
        assert(spec_check_stmt(v[n - 1], declared, inputs, regs) is None);
        lemma_stmt_targets(v[n - 1], declared, inputs, regs);
        lemma_targets_ok_concat(stmts_targets(v, n - 1), stmt_targets(v[n - 1]), inputs, regs);
    }
}

proof fn lemma_stmts_checked(
    v: Seq<SpecStatement>,
    i: int,
    declared: Seq<Seq<char>>,
    inputs: Seq<Seq<char>>,
    regs: Seq<Seq<char>>,
)
    requires
        0 <= i,
        spec_check_stmts(v, i, declared, inputs, regs) is None,
    ensures
        forall|j: int|
            i <= j < v.len() ==> (#[trigger] spec_check_stmt(v[j], declared, inputs, regs)) is None,
    decreases v.len() - i,
{
    if i < v.len() {
        lemma_stmts_checked(v, i + 1, declared, inputs, regs);
    }
}

proof fn lemma_assigns_checked(
    asg: Seq<SpecAssign>,
    i: int,
    declared: Seq<Seq<char>>,
    inputs: Seq<Seq<char>>,
    wires: Seq<Seq<char>>,
)
    requires
        0 <= i,
        spec_check_assigns(asg, i, declared, inputs, wires) is None,
    ensures
        forall|j: int|
            i <= j < asg.len() ==> !inputs.contains(target_name(#[trigger] asg[j].target))
                && wires.contains(target_name(asg[j].target)),
    decreases asg.len() - i,
{
    if i < asg.len() {
        lemma_assigns_checked(asg, i + 1, declared, inputs, wires);
    }
}

proof fn lemma_processes_checked(
    ps: Seq<SpecProcess>,
    i: int,
    declared: Seq<Seq<char>>,
    inputs: Seq<Seq<char>>,
    regs: Seq<Seq<char>>,
)
    requires
        0 <= i,
        spec_check_processes(ps, i, declared, inputs, regs) is None,
    ensures
        forall|j: int|
            i <= j < ps.len() ==> (#[trigger] spec_check_stmts(ps[j].body, 0, declared, inputs, regs))
                is None,
    decreases ps.len() - i,
{
    if i < ps.len() {
        lemma_processes_checked(ps, i + 1, declared, inputs, regs);
    }
}

/// In a module that `check_module` accepts, no assignment writes an input
/// port; a continuous assignment drives a net (a non-register output, an
/// inout or an internal wire), and every write in a process, nested ones
/// included, assigns a register (an output `reg` or an internal register).
pub proof fn lemma_accepted_writes(m: SpecModule)
    requires
        spec_check_module(m) is Ok,
    ensures
        forall|i: int|
            0 <= i < m.assigns.len() ==> !input_ports(m).contains(
                target_name(#[trigger] m.assigns[i].target),
            ) && nets(m).contains(target_name(m.assigns[i].target)),
        forall|p: int|
            0 <= p < m.processes.len() ==> targets_ok(
                stmts_targets(#[trigger] m.processes[p].body, m.processes[p].body.len() as int),
                input_ports(m),
                registers(m),
            ),
{
    let st0 = no_names();
    assert(st0.ports =~= port_names(m.ports, 0));
    lemma_ports_accepted(m.ports, 0, st0);
    lemma_ports_kinds(m.ports, 0, st0);
    let st = spec_check_ports(m.ports, 0, st0)->Ok_0;
    let e: Seq<Seq<char>> = Seq::empty();
    assert(e =~= signal_names(m.wires, 0, 0));
    assert(st.wires =~= st.wires + e);
    lemma_wires_accepted(m.wires, 0, st.ports, e, st.wires, st.wires);
    let wires = spec_check_wires(m.wires, 0, st.ports, e, st.wires)->Ok_0;
    assert(e =~= signal_names(m.regs, 0, 0));
    assert(st.regs =~= st.regs + e);
    lemma_regs_accepted(m.regs, 0, st.ports, e, wires, st.regs, st.regs);
    let regs = spec_check_regs(m.regs, 0, st.ports, e, wires, st.regs)->Ok_0;
    assert(wires == nets(m));
    assert(regs == registers(m));
    assert(st.inputs == input_ports(m));
    let declared = wires + regs + st.ports;
    lemma_assigns_checked(m.assigns, 0, declared, st.inputs, wires);
    lemma_processes_checked(m.processes, 0, declared, st.inputs, regs);
    assert forall|p: int| 0 <= p < m.processes.len() implies targets_ok(
        stmts_targets(#[trigger] m.processes[p].body, m.processes[p].body.len() as int),
        input_ports(m),
        registers(m),
    ) by {
        let body = m.processes[p].body;
        assert(spec_check_stmts(body, 0, declared, st.inputs, regs) is None);
        lemma_stmts_checked(body, 0, declared, st.inputs, regs);
        lemma_stmts_targets(body, body.len() as int, declared, st.inputs, regs);
    }
}

/// The identifiers that `e` reads, left to right.
pub open spec fn expr_idents(e: SpecExpr) -> Seq<Seq<char>>
    decreases e, 0int,
{
    match e {
        SpecExpr::Literal(_) => Seq::empty(),
        SpecExpr::Ident(n) => seq![n],
        SpecExpr::Slice(b, _, _) => expr_idents(*b),
        SpecExpr::Concat(v) => exprs_idents(v, v.len() as int),
        SpecExpr::UnaryOp(_, b) => expr_idents(*b),
        SpecExpr::BinaryOp(_, a, b) => expr_idents(*a) + expr_idents(*b),
        SpecExpr::Cond(c, t, f) => expr_idents(*c) + expr_idents(*t) + expr_idents(*f),
    }
}

/// The identifiers that the first `n` expressions of `v` read.
pub open spec fn exprs_idents(v: Seq<SpecExpr>, n: int) -> Seq<Seq<char>>
    decreases v, n,
{
    if n <= 0 || n > v.len() {
        Seq::empty()
    } else {
        exprs_idents(v, n - 1) + expr_idents(v[n - 1])
    }
}

/// The identifiers that a statement reads, nested ones included.
pub open spec fn stmt_reads(s: SpecStatement) -> Seq<Seq<char>>
    decreases s, 0int,
{
    match s {
        SpecStatement::BlockWrite(_, e) => expr_idents(e),
        SpecStatement::NonBlockWrite(_, e) => expr_idents(e),
        SpecStatement::If(c, a, b) => expr_idents(c) + stmts_reads(a, a.len() as int) + stmts_reads(
            b,
            b.len() as int,
        ),
    }
}

/// The identifiers that the first `n` statements of `v` read.
pub open spec fn stmts_reads(v: Seq<SpecStatement>, n: int) -> Seq<Seq<char>>
    decreases v, n,
{
    if n <= 0 || n > v.len() {
        Seq::empty()
    } else {
        stmts_reads(v, n - 1) + stmt_reads(v[n - 1])
    }
}

/// Every name of `xs` is one of `d`.
pub open spec fn all_in(xs: Seq<Seq<char>>, d: Seq<Seq<char>>) -> bool {
    forall|k: int| 0 <= k < xs.len() ==> d.contains(#[trigger] xs[k])
}

/// `x` names a port, an internal wire or an internal register of `m`.
pub open spec fn is_declared(m: SpecModule, x: Seq<char>) -> bool {
    ||| exists|k: int| 0 <= k < m.ports.len() && #[trigger] m.ports[k].name == x
    ||| exists|k: int| 0 <= k < m.wires.len() && #[trigger] m.wires[k].name == x
    ||| exists|k: int| 0 <= k < m.regs.len() && #[trigger] m.regs[k].name == x
}

proof fn lemma_all_in_concat(a: Seq<Seq<char>>, b: Seq<Seq<char>>, d: Seq<Seq<char>>)
    requires
        all_in(a, d),
        all_in(b, d),
    ensures
        all_in(a + b, d),
{
    assert forall|k: int| 0 <= k < (a + b).len() implies d.contains(#[trigger] (a + b)[k]) by {
        if k < a.len() {
            assert((a + b)[k] == a[k]);
        } else {
            assert((a + b)[k] == b[k - a.len()]);
        }
    }
}

proof fn lemma_expr_reads(e: SpecExpr, d: Seq<Seq<char>>)
    requires
        spec_check_expr(e, d) is None,
    ensures
        all_in(expr_idents(e), d),
    decreases e, 0int,
{
    match e {
        SpecExpr::Literal(_) => {},
        SpecExpr::Ident(n) => {
            assert(expr_idents(e)[0] == n);
        },
        SpecExpr::Slice(b, _, _) => {
            lemma_expr_reads(*b, d);
        },
        SpecExpr::Concat(v) => {
            lemma_exprs_checked(v, 0, d);
            lemma_exprs_reads(v, v.len() as int, d);
        },
        SpecExpr::UnaryOp(_, b) => {
            lemma_expr_reads(*b, d);
        },
        SpecExpr::BinaryOp(_, a, b) => {
            lemma_expr_reads(*a, d);
            lemma_expr_reads(*b, d);
            lemma_all_in_concat(expr_idents(*a), expr_idents(*b), d);
        },
        SpecExpr::Cond(c, t, f) => {
            lemma_expr_reads(*c, d);
            lemma_expr_reads(*t, d);
            lemma_expr_reads(*f, d);
            lemma_all_in_concat(expr_idents(*c), expr_idents(*t), d);
            lemma_all_in_concat(expr_idents(*c) + expr_idents(*t), expr_idents(*f), d);
        },
    }
}

proof fn lemma_exprs_reads(v: Seq<SpecExpr>, n: int, d: Seq<Seq<char>>)
    requires
        forall|j: int| 0 <= j < v.len() ==> (#[trigger] spec_check_expr(v[j], d)) is None,
    ensures
        all_in(exprs_idents(v, n), d),
    decreases v, n,
{
    if n > 0 && n <= v.len() {
        lemma_exprs_reads(v, n - 1, d);
        assert(spec_check_expr(v[n - 1], d) is None);
        lemma_expr_reads(v[n - 1], d);
        lemma_all_in_concat(exprs_idents(v, n - 1), expr_idents(v[n - 1]), d);
    }
}

proof fn lemma_exprs_checked(v: Seq<SpecExpr>, i: int, d: Seq<Seq<char>>)
    requires
        0 <= i,
        spec_check_exprs(v, i, d) is None,
    ensures
        forall|j: int| i <= j < v.len() ==> (#[trigger] spec_check_expr(v[j], d)) is None,
    decreases v.len() - i,
{
    if i < v.len() {
        lemma_exprs_checked(v, i + 1, d);
    }
}

proof fn lemma_stmt_reads(
    s: SpecStatement,
    d: Seq<Seq<char>>,
    inputs: Seq<Seq<char>>,
    regs: Seq<Seq<char>>,
)
    requires
        spec_check_stmt(s, d, inputs, regs) is None,
    ensures
        all_in(stmt_reads(s), d),
    decreases s, 0int,
{
    match s {
        SpecStatement::BlockWrite(_, e) => {
            lemma_expr_reads(e, d);
        },
        SpecStatement::NonBlockWrite(_, e) => {
            lemma_expr_reads(e, d);
        },
        SpecStatement::If(c, a, b) => {
            lemma_expr_reads(c, d);
            lemma_stmts_checked(a, 0, d, inputs, regs);
            lemma_stmts_checked(b, 0, d, inputs, regs);
            lemma_stmts_reads(a, a.len() as int, d, inputs, regs);
            lemma_stmts_reads(b, b.len() as int, d, inputs, regs);
            lemma_all_in_concat(expr_idents(c), stmts_reads(a, a.len() as int), d);
            lemma_all_in_concat(
                expr_idents(c) + stmts_reads(a, a.len() as int),
                stmts_reads(b, b.len() as int),
                d,
            );
        },
    }
}

proof fn lemma_stmts_reads(
    v: Seq<SpecStatement>,
    n: int,
    d: Seq<Seq<char>>,
    inputs: Seq<Seq<char>>,
    regs: Seq<Seq<char>>,
)
    requires
        forall|j: int|
            0 <= j < v.len() ==> (#[trigger] spec_check_stmt(v[j], d, inputs, regs)) is None,
    ensures
        all_in(stmts_reads(v, n), d),
    decreases v, n,
{
    if n > 0 && n <= v.len() {
        lemma_stmts_reads(v, n - 1, d, inputs, regs);
        assert(spec_check_stmt(v[n - 1], d, inputs, regs) is None);
        lemma_stmt_reads(v[n - 1], d, inputs, regs);
        lemma_all_in_concat(stmts_reads(v, n - 1), stmt_reads(v[n - 1]), d);
    }
}

proof fn lemma_sens_checked(ss: Seq<SpecSensitivity>, i: int, d: Seq<Seq<char>>)
    requires
        0 <= i,
        spec_check_sens(ss, i, d) is None,
    ensures
        forall|j: int| i <= j < ss.len() ==> d.contains(sens_name(#[trigger] ss[j])),
    decreases ss.len() - i,
{
    if i < ss.len() {
        lemma_sens_checked(ss, i + 1, d);
    }
}

proof fn lemma_processes_sens(
    ps: Seq<SpecProcess>,
    i: int,
    d: Seq<Seq<char>>,
    inputs: Seq<Seq<char>>,
    regs: Seq<Seq<char>>,
)
    requires
        0 <= i,
        spec_check_processes(ps, i, d, inputs, regs) is None,
    ensures
        forall|j: int| i <= j < ps.len() ==> (#[trigger] spec_check_sens(ps[j].sensitivity, 0, d)) is None,
    decreases ps.len() - i,
{
    if i < ps.len() {
        lemma_processes_sens(ps, i + 1, d, inputs, regs);
    }
}

proof fn lemma_instances_checked(ins: Seq<SpecInstance>, i: int, d: Seq<Seq<char>>)
    requires
        0 <= i,
        spec_check_instances(ins, i, d) is None,
    ensures
        forall|j: int|
            i <= j < ins.len() ==> (#[trigger] spec_check_exprs(port_map_exprs(ins[j].port_map), 0, d))
                is None,
    decreases ins.len() - i,
{
    if i < ins.len() {
        lemma_instances_checked(ins, i + 1, d);
    }
}

proof fn lemma_assigns_reads(
    asg: Seq<SpecAssign>,
    i: int,
    d: Seq<Seq<char>>,
    inputs: Seq<Seq<char>>,
    wires: Seq<Seq<char>>,
)
    requires
        0 <= i,
        spec_check_assigns(asg, i, d, inputs, wires) is None,
    ensures
        forall|j: int| i <= j < asg.len() ==> (#[trigger] spec_check_expr(asg[j].expr, d)) is None,
    decreases asg.len() - i,
{
    if i < asg.len() {
        lemma_assigns_reads(asg, i + 1, d, inputs, wires);
    }
}

proof fn lemma_ports_where_named(ps: Seq<SpecPort>, n: int, keep: spec_fn(SpecPort) -> bool, x: Seq<char>)
    requires
        ports_where(ps, n, keep).contains(x),
    ensures
        exists|k: int| 0 <= k < ps.len() && #[trigger] ps[k].name == x,
    decreases n,
{
    if n > 0 && n <= ps.len() {
        if keep(ps[n - 1]) && x == ps[n - 1].name {
            assert(ps[n - 1].name == x);
        } else if keep(ps[n - 1]) {
            let w = ports_where(ps, n - 1, keep);
            let wp = w.push(ps[n - 1].name);
            assert(wp.contains(x));
            let k = choose|k: int| 0 <= k < wp.len() && #[trigger] wp[k] == x;
            assert(k < w.len());
            assert(w[k] == x);
            assert(w.contains(x));
            lemma_ports_where_named(ps, n - 1, keep, x);
        } else {
            lemma_ports_where_named(ps, n - 1, keep, x);
        }
    }
}

proof fn lemma_signal_named(ss: Seq<SpecSignal>, x: Seq<char>)
    requires
        signal_names(ss, 0, ss.len() as int).contains(x),
    ensures
        exists|k: int| 0 <= k < ss.len() && #[trigger] ss[k].name == x,
{
    let names = signal_names(ss, 0, ss.len() as int);
    let k = choose|k: int| 0 <= k < names.len() && names[k] == x;
    assert(ss[k].name == x);
}

/// Everything that `declared` holds in an accepted module is declared.
proof fn lemma_declared_names(m: SpecModule, x: Seq<char>, st_ports: Seq<Seq<char>>)
    requires
        st_ports == port_names(m.ports, m.ports.len() as int),
        (nets(m) + registers(m) + st_ports).contains(x),
    ensures
        is_declared(m, x),
{
    let a = nets(m);
    let b = registers(m);
    let all = a + b + st_ports;
    let k = choose|k: int| 0 <= k < all.len() && all[k] == x;
    if k < a.len() {
        let pw = ports_where(m.ports, m.ports.len() as int, |p: SpecPort| is_net_port(p));
        let wn = signal_names(m.wires, 0, m.wires.len() as int);
        assert(a[k] == x);
        if k < pw.len() {
            assert(pw[k] == x);
            lemma_ports_where_named(m.ports, m.ports.len() as int, |p: SpecPort| is_net_port(p), x);
        } else {
            assert(wn[k - pw.len()] == x);
            lemma_signal_named(m.wires, x);
        }
    } else if k < a.len() + b.len() {
        let pr = ports_where(m.ports, m.ports.len() as int, |p: SpecPort| is_reg_port(p));
        let rn = signal_names(m.regs, 0, m.regs.len() as int);
        let k2 = k - a.len();
        assert(b[k2] == x);
        if k2 < pr.len() {
            assert(pr[k2] == x);
            lemma_ports_where_named(m.ports, m.ports.len() as int, |p: SpecPort| is_reg_port(p), x);
        } else {
            assert(rn[k2 - pr.len()] == x);
            lemma_signal_named(m.regs, x);
        }
    } else {
        let k3 = k - a.len() - b.len();
        assert(st_ports[k3] == x);
        assert(m.ports[k3].name == x);
    }
}

/// In a module that `check_module` accepts, every identifier read is
/// declared, as a port, an internal wire or an internal register: in the
/// right-hand sides of continuous assignments, in sensitivity lists, in the
/// conditions and right-hand sides of process statements (nested ones
/// included) and in the connections of instances.
pub proof fn lemma_accepted_reads(m: SpecModule)
    requires
        spec_check_module(m) is Ok,
    ensures
        forall|i: int, k: int|
            0 <= i < m.assigns.len() && 0 <= k < expr_idents(m.assigns[i].expr).len() ==> is_declared(
                m,
                #[trigger] expr_idents(m.assigns[i].expr)[k],
            ),
        forall|p: int, k: int|
            0 <= p < m.processes.len() && 0 <= k < m.processes[p].sensitivity.len() ==> is_declared(
                m,
                sens_name(#[trigger] m.processes[p].sensitivity[k]),
            ),
        forall|p: int, k: int|
            0 <= p < m.processes.len() && 0 <= k < stmts_reads(
                m.processes[p].body,
                m.processes[p].body.len() as int,
            ).len() ==> is_declared(
                m,
                #[trigger] stmts_reads(m.processes[p].body, m.processes[p].body.len() as int)[k],
            ),
        forall|i: int, k: int|
            0 <= i < m.instances.len() && 0 <= k < exprs_idents(
                port_map_exprs(m.instances[i].port_map),
                port_map_exprs(m.instances[i].port_map).len() as int,
            ).len() ==> is_declared(
                m,
                #[trigger] exprs_idents(
                    port_map_exprs(m.instances[i].port_map),
                    port_map_exprs(m.instances[i].port_map).len() as int,
                )[k],
            ),
{
    let st0 = no_names();
    assert(st0.ports =~= port_names(m.ports, 0));
    lemma_ports_accepted(m.ports, 0, st0);
    lemma_ports_kinds(m.ports, 0, st0);
    let st = spec_check_ports(m.ports, 0, st0)->Ok_0;
    let e: Seq<Seq<char>> = Seq::empty();
    assert(e =~= signal_names(m.wires, 0, 0));
    assert(st.wires =~= st.wires + e);
    lemma_wires_accepted(m.wires, 0, st.ports, e, st.wires, st.wires);
    let wires = spec_check_wires(m.wires, 0, st.ports, e, st.wires)->Ok_0;
    assert(e =~= signal_names(m.regs, 0, 0));
    assert(st.regs =~= st.regs + e);
    lemma_regs_accepted(m.regs, 0, st.ports, e, wires, st.regs, st.regs);
    let regs = spec_check_regs(m.regs, 0, st.ports, e, wires, st.regs)->Ok_0;
    let d = wires + regs + st.ports;
    assert(d == nets(m) + registers(m) + st.ports);
    lemma_assigns_reads(m.assigns, 0, d, st.inputs, wires);
    lemma_processes_checked(m.processes, 0, d, st.inputs, regs);
    lemma_processes_sens(m.processes, 0, d, st.inputs, regs);
    lemma_instances_checked(m.instances, 0, d);
    assert forall|i: int, k: int|
        0 <= i < m.assigns.len() && 0 <= k < expr_idents(m.assigns[i].expr).len() implies is_declared(
        m,
        #[trigger] expr_idents(m.assigns[i].expr)[k],
    ) by {
        assert(spec_check_expr(m.assigns[i].expr, d) is None);
        lemma_expr_reads(m.assigns[i].expr, d);
        lemma_declared_names(m, expr_idents(m.assigns[i].expr)[k], st.ports);
    }
    assert forall|p: int, k: int|
        0 <= p < m.processes.len() && 0 <= k < m.processes[p].sensitivity.len() implies is_declared(
        m,
        sens_name(#[trigger] m.processes[p].sensitivity[k]),
    ) by {
        assert(spec_check_sens(m.processes[p].sensitivity, 0, d) is None);
        lemma_sens_checked(m.processes[p].sensitivity, 0, d);
        lemma_declared_names(m, sens_name(m.processes[p].sensitivity[k]), st.ports);
    }
    assert forall|p: int, k: int|
        0 <= p < m.processes.len() && 0 <= k < stmts_reads(
            m.processes[p].body,
            m.processes[p].body.len() as int,
        ).len() implies is_declared(
        m,
        #[trigger] stmts_reads(m.processes[p].body, m.processes[p].body.len() as int)[k],
    ) by {
        let body = m.processes[p].body;
        assert(spec_check_stmts(body, 0, d, st.inputs, regs) is None);
        lemma_stmts_checked(body, 0, d, st.inputs, regs);
        lemma_stmts_reads(body, body.len() as int, d, st.inputs, regs);
        lemma_declared_names(m, stmts_reads(body, body.len() as int)[k], st.ports);
    }
    assert forall|i: int, k: int|
        0 <= i < m.instances.len() && 0 <= k < exprs_idents(
            port_map_exprs(m.instances[i].port_map),
            port_map_exprs(m.instances[i].port_map).len() as int,
        ).len() implies is_declared(
        m,
        #[trigger] exprs_idents(
            port_map_exprs(m.instances[i].port_map),
            port_map_exprs(m.instances[i].port_map).len() as int,
        )[k],
    ) by {
        let v = port_map_exprs(m.instances[i].port_map);
        assert(spec_check_exprs(v, 0, d) is None);
        lemma_exprs_checked(v, 0, d);
        lemma_exprs_reads(v, v.len() as int, d);
        lemma_declared_names(m, exprs_idents(v, v.len() as int)[k], st.ports);
    }
}

// ---------------------------------------------------------------------------
// What makes a module accepted
// ---------------------------------------------------------------------------

proof fn lemma_all_in_split(a: Seq<Seq<char>>, b: Seq<Seq<char>>, d: Seq<Seq<char>>)
    requires
        all_in(a + b, d),
    ensures
        all_in(a, d),
        all_in(b, d),
{
    assert forall|k: int| 0 <= k < a.len() implies d.contains(#[trigger] a[k]) by {
        assert((a + b)[k] == a[k]);
    }
    assert forall|k: int| 0 <= k < b.len() implies d.contains(#[trigger] b[k]) by {
        assert((a + b)[a.len() + k] == b[k]);
    }
}

proof fn lemma_targets_ok_split(
    a: Seq<SpecAssignTarget>,
    b: Seq<SpecAssignTarget>,
    inputs: Seq<Seq<char>>,
    allowed: Seq<Seq<char>>,
)
    requires
        targets_ok(a + b, inputs, allowed),
    ensures
        targets_ok(a, inputs, allowed),
        targets_ok(b, inputs, allowed),
{
    assert forall|k: int| 0 <= k < a.len() implies !inputs.contains(target_name(#[trigger] a[k]))
        && allowed.contains(target_name(a[k])) by {
        assert((a + b)[k] == a[k]);
    }
    assert forall|k: int| 0 <= k < b.len() implies !inputs.contains(target_name(#[trigger] b[k]))
        && allowed.contains(target_name(b[k])) by {
        assert((a + b)[a.len() + k] == b[k]);
    }
}

proof fn lemma_exprs_idents_each(v: Seq<SpecExpr>, n: int, d: Seq<Seq<char>>)
    requires
        0 <= n <= v.len(),
        all_in(exprs_idents(v, n), d),
    ensures
        forall|j: int| 0 <= j < n ==> all_in(expr_idents(#[trigger] v[j]), d),
    decreases n,
{
    if n > 0 {
        lemma_all_in_split(exprs_idents(v, n - 1), expr_idents(v[n - 1]), d);
        lemma_exprs_idents_each(v, n - 1, d);
    }
}

proof fn lemma_exprs_none(v: Seq<SpecExpr>, i: int, d: Seq<Seq<char>>)
    requires
        0 <= i,
        forall|j: int| 0 <= j < v.len() ==> (#[trigger] spec_check_expr(v[j], d)) is None,
    ensures
        spec_check_exprs(v, i, d) is None,
    decreases v.len() - i,
{
    if i < v.len() {
        assert(spec_check_expr(v[i], d) is None);
        lemma_exprs_none(v, i + 1, d);
    }
}

proof fn lemma_expr_complete(e: SpecExpr, d: Seq<Seq<char>>)
    requires
        all_in(expr_idents(e), d),
    ensures
        spec_check_expr(e, d) is None,
    decreases e,
{
    match e {
        SpecExpr::Literal(_) => {},
        SpecExpr::Ident(n) => {
            assert(expr_idents(e)[0] == n);
        },
        SpecExpr::Slice(b, _, _) => {
            lemma_expr_complete(*b, d);
        },
        SpecExpr::Concat(v) => {
            lemma_exprs_idents_each(v, v.len() as int, d);
            assert forall|j: int| 0 <= j < v.len() implies (#[trigger] spec_check_expr(v[j], d))
                is None by {
                lemma_expr_complete(v[j], d);
            }
            lemma_exprs_none(v, 0, d);
        },
        SpecExpr::UnaryOp(_, b) => {
            lemma_expr_complete(*b, d);
        },
        SpecExpr::BinaryOp(_, a, b) => {
            lemma_all_in_split(expr_idents(*a), expr_idents(*b), d);
            lemma_expr_complete(*a, d);
            lemma_expr_complete(*b, d);
        },
        SpecExpr::Cond(c, t, f) => {
            lemma_all_in_split(expr_idents(*c) + expr_idents(*t), expr_idents(*f), d);
            lemma_all_in_split(expr_idents(*c), expr_idents(*t), d);
            lemma_expr_complete(*c, d);
            lemma_expr_complete(*t, d);
            lemma_expr_complete(*f, d);
        },
    }
}

proof fn lemma_stmts_each(
    v: Seq<SpecStatement>,
    n: int,
    d: Seq<Seq<char>>,
    inputs: Seq<Seq<char>>,
    regs: Seq<Seq<char>>,
)
    requires
        0 <= n <= v.len(),
        all_in(stmts_reads(v, n), d),
        targets_ok(stmts_targets(v, n), inputs, regs),
    ensures
        forall|j: int|
            0 <= j < n ==> all_in(stmt_reads(#[trigger] v[j]), d) && targets_ok(
                stmt_targets(v[j]),
                inputs,
                regs,
            ),
    decreases n,
{
    if n > 0 {
        lemma_all_in_split(stmts_reads(v, n - 1), stmt_reads(v[n - 1]), d);
        lemma_targets_ok_split(stmts_targets(v, n - 1), stmt_targets(v[n - 1]), inputs, regs);
        lemma_stmts_each(v, n - 1, d, inputs, regs);
    }
}

proof fn lemma_stmts_none(
    v: Seq<SpecStatement>,
    i: int,
    d: Seq<Seq<char>>,
    inputs: Seq<Seq<char>>,
    regs: Seq<Seq<char>>,
)
    requires
        0 <= i,
        forall|j: int|
            0 <= j < v.len() ==> (#[trigger] spec_check_stmt(v[j], d, inputs, regs)) is None,
    ensures
        spec_check_stmts(v, i, d, inputs, regs) is None,
    decreases v.len() - i,
{
    if i < v.len() {
        assert(spec_check_stmt(v[i], d, inputs, regs) is None);
        lemma_stmts_none(v, i + 1, d, inputs, regs);
    }
}

proof fn lemma_stmt_complete(
    s: SpecStatement,
    d: Seq<Seq<char>>,
    inputs: Seq<Seq<char>>,
    regs: Seq<Seq<char>>,
)
    requires
        all_in(stmt_reads(s), d),
        targets_ok(stmt_targets(s), inputs, regs),
    ensures
        spec_check_stmt(s, d, inputs, regs) is None,
    decreases s,
{
    match s {
        SpecStatement::BlockWrite(t, e) => {
            assert(stmt_targets(s)[0] == t);
            lemma_expr_complete(e, d);
        },
        SpecStatement::NonBlockWrite(t, e) => {
            assert(stmt_targets(s)[0] == t);
            lemma_expr_complete(e, d);
        },
        SpecStatement::If(c, a, b) => {
            lemma_all_in_split(
                expr_idents(c) + stmts_reads(a, a.len() as int),
                stmts_reads(b, b.len() as int),
                d,
            );
            lemma_all_in_split(expr_idents(c), stmts_reads(a, a.len() as int), d);
            lemma_targets_ok_split(
                stmts_targets(a, a.len() as int),
                stmts_targets(b, b.len() as int),
                inputs,
                regs,
            );
            lemma_expr_complete(c, d);
            lemma_stmts_each(a, a.len() as int, d, inputs, regs);
            lemma_stmts_each(b, b.len() as int, d, inputs, regs);
            assert forall|j: int| 0 <= j < a.len() implies (#[trigger] spec_check_stmt(
                a[j],
                d,
                inputs,
                regs,
            )) is None by {
                lemma_stmt_complete(a[j], d, inputs, regs);
            }
            assert forall|j: int| 0 <= j < b.len() implies (#[trigger] spec_check_stmt(
                b[j],
                d,
                inputs,
                regs,
            )) is None by {
                lemma_stmt_complete(b[j], d, inputs, regs);
            }
            lemma_stmts_none(a, 0, d, inputs, regs);
            lemma_stmts_none(b, 0, d, inputs, regs);
        },
    }
}

proof fn lemma_ports_complete(ps: Seq<SpecPort>, i: int, st: SpecNames)
    requires
        0 <= i <= ps.len(),
        st.ports == port_names(ps, i),
        forall|a: int, b: int| 0 <= a < b < ps.len() ==> ps[a].name != ps[b].name,
    ensures
        spec_check_ports(ps, i, st) is Ok,
    decreases ps.len() - i,
{
    if i < ps.len() {
        let name = ps[i].name;
        if st.ports.contains(name) {
            let k = choose|k: int| 0 <= k < st.ports.len() && st.ports[k] == name;
            assert(ps[k].name == name);
        }
        let st1 = SpecNames { ports: st.ports.push(name), ..st };
        let st2 = match ps[i].direction {
            PortDir::Input => SpecNames { inputs: st1.inputs.push(name), ..st1 },
            PortDir::Output => if ps[i].reg {
                SpecNames { regs: st1.regs.push(name), ..st1 }
            } else {
                SpecNames { wires: st1.wires.push(name), ..st1 }
            },
            PortDir::Inout => SpecNames { wires: st1.wires.push(name), ..st1 },
        };
        assert(st2.ports =~= port_names(ps, i + 1));
        lemma_ports_complete(ps, i + 1, st2);
    }
}

proof fn lemma_wires_complete(
    ws: Seq<SpecSignal>,
    i: int,
    ports: Seq<Seq<char>>,
    seen: Seq<Seq<char>>,
    wires: Seq<Seq<char>>,
)
    requires
        0 <= i <= ws.len(),
        seen == signal_names(ws, 0, i),
        forall|a: int, b: int| 0 <= a < b < ws.len() ==> ws[a].name != ws[b].name,
        forall|a: int| 0 <= a < ws.len() ==> !ports.contains(#[trigger] ws[a].name),
    ensures
        spec_check_wires(ws, i, ports, seen, wires) is Ok,
    decreases ws.len() - i,
{
    if i < ws.len() {
        let name = ws[i].name;
        assert(!ports.contains(ws[i].name));
        if seen.contains(name) {
            let k = choose|k: int| 0 <= k < seen.len() && seen[k] == name;
            assert(ws[k].name == name);
        }
        assert(seen.push(name) =~= signal_names(ws, 0, i + 1));
        lemma_wires_complete(ws, i + 1, ports, seen.push(name), wires.push(name));
    }
}

proof fn lemma_regs_complete(
    rs: Seq<SpecSignal>,
    i: int,
    ports: Seq<Seq<char>>,
    seen: Seq<Seq<char>>,
    wires: Seq<Seq<char>>,
    regs: Seq<Seq<char>>,
)
    requires
        0 <= i <= rs.len(),
        seen == signal_names(rs, 0, i),
        forall|a: int, b: int| 0 <= a < b < rs.len() ==> rs[a].name != rs[b].name,
        forall|a: int| 0 <= a < rs.len() ==> !ports.contains(#[trigger] rs[a].name),
        forall|a: int| 0 <= a < rs.len() ==> !wires.contains(#[trigger] rs[a].name),
    ensures
        spec_check_regs(rs, i, ports, seen, wires, regs) is Ok,
    decreases rs.len() - i,
{
    if i < rs.len() {
        let name = rs[i].name;
        assert(!ports.contains(rs[i].name));
        assert(!wires.contains(rs[i].name));
        if seen.contains(name) {
            let k = choose|k: int| 0 <= k < seen.len() && seen[k] == name;
            assert(rs[k].name == name);
        }
        assert(seen.push(name) =~= signal_names(rs, 0, i + 1));
        lemma_regs_complete(rs, i + 1, ports, seen.push(name), wires, regs.push(name));
    }
}

proof fn lemma_sens_none(ss: Seq<SpecSensitivity>, i: int, d: Seq<Seq<char>>)
    requires
        0 <= i,
        forall|j: int| 0 <= j < ss.len() ==> d.contains(sens_name(#[trigger] ss[j])),
    ensures
        spec_check_sens(ss, i, d) is None,
    decreases ss.len() - i,
{
    if i < ss.len() {
        assert(d.contains(sens_name(ss[i])));
        lemma_sens_none(ss, i + 1, d);
    }
}

proof fn lemma_assigns_none(
    asg: Seq<SpecAssign>,
    i: int,
    d: Seq<Seq<char>>,
    inputs: Seq<Seq<char>>,
    wires: Seq<Seq<char>>,
)
    requires
        0 <= i,
        forall|j: int|
            0 <= j < asg.len() ==> !inputs.contains(target_name(#[trigger] asg[j].target))
                && wires.contains(target_name(asg[j].target)) && spec_check_expr(asg[j].expr, d)
                is None,
    ensures
        spec_check_assigns(asg, i, d, inputs, wires) is None,
    decreases asg.len() - i,
{
    if i < asg.len() {
        assert(!inputs.contains(target_name(asg[i].target)));
        lemma_assigns_none(asg, i + 1, d, inputs, wires);
    }
}

proof fn lemma_processes_none(
    ps: Seq<SpecProcess>,
    i: int,
    d: Seq<Seq<char>>,
    inputs: Seq<Seq<char>>,
    regs: Seq<Seq<char>>,
)
    requires
        0 <= i,
        forall|j: int|
            0 <= j < ps.len() ==> (#[trigger] spec_check_sens(ps[j].sensitivity, 0, d)) is None
                && spec_check_stmts(ps[j].body, 0, d, inputs, regs) is None,
    ensures
        spec_check_processes(ps, i, d, inputs, regs) is None,
    decreases ps.len() - i,
{
    if i < ps.len() {
        assert(spec_check_sens(ps[i].sensitivity, 0, d) is None);
        lemma_processes_none(ps, i + 1, d, inputs, regs);
    }
}

proof fn lemma_instances_none(ins: Seq<SpecInstance>, i: int, d: Seq<Seq<char>>)
    requires
        0 <= i,
        forall|j: int|
            0 <= j < ins.len() ==> (#[trigger] spec_check_exprs(port_map_exprs(ins[j].port_map), 0, d))
                is None,
    ensures
        spec_check_instances(ins, i, d) is None,
    decreases ins.len() - i,
{
    if i < ins.len() {
        assert(spec_check_exprs(port_map_exprs(ins[i].port_map), 0, d) is None);
        lemma_instances_none(ins, i + 1, d);
    }
}

/// Every name that `m` declares is among the names that the check collects.
proof fn lemma_declared_collected(m: SpecModule, x: Seq<char>)
    requires
        is_declared(m, x),
    ensures
        (nets(m) + registers(m) + port_names(m.ports, m.ports.len() as int)).contains(x),
{
    let a = nets(m);
    let b = registers(m);
    let c = port_names(m.ports, m.ports.len() as int);
    let all = a + b + c;
    let pw = ports_where(m.ports, m.ports.len() as int, |p: SpecPort| is_net_port(p));
    let pr = ports_where(m.ports, m.ports.len() as int, |p: SpecPort| is_reg_port(p));
    if exists|k: int| 0 <= k < m.ports.len() && #[trigger] m.ports[k].name == x {
        let k = choose|k: int| 0 <= k < m.ports.len() && #[trigger] m.ports[k].name == x;
        assert(all[a.len() + b.len() + k] == x);
    } else if exists|k: int| 0 <= k < m.wires.len() && #[trigger] m.wires[k].name == x {
        let k = choose|k: int| 0 <= k < m.wires.len() && #[trigger] m.wires[k].name == x;
        assert(a[pw.len() + k] == x);
        assert(all[pw.len() + k] == x);
    } else {
        let k = choose|k: int| 0 <= k < m.regs.len() && #[trigger] m.regs[k].name == x;
        assert(b[pr.len() + k] == x);
        assert(all[a.len() + pr.len() + k] == x);
    }
}

/// `check_module` accepts every module that declares each name once (ports,
/// internal wires and registers pairwise distinct, within each kind and
/// across kinds), whose continuous assignments drive nets and no input,
/// whose process writes (blocking and non-blocking, nested ones included)
/// assign registers and no input, and whose every identifier read (in
/// assignments, sensitivity lists, process statements and instance
/// connections) is declared. With `lemma_accepted_names_distinct`,
/// `lemma_accepted_writes` and `lemma_accepted_reads`, these conditions are
/// exactly the modules that it accepts.
pub proof fn lemma_accepts_well_formed(m: SpecModule)
    requires
        forall|a: int, b: int|
            0 <= a < b < m.ports.len() ==> m.ports[a].name != m.ports[b].name,
        forall|a: int, b: int|
            0 <= a < b < m.wires.len() ==> m.wires[a].name != m.wires[b].name,
        forall|a: int, b: int| 0 <= a < b < m.regs.len() ==> m.regs[a].name != m.regs[b].name,
        forall|a: int, b: int|
            0 <= a < m.wires.len() && 0 <= b < m.ports.len() ==> m.wires[a].name
                != m.ports[b].name,
        forall|a: int, b: int|
            0 <= a < m.regs.len() && 0 <= b < m.ports.len() ==> m.regs[a].name
                != m.ports[b].name,
        forall|a: int, b: int|
            0 <= a < m.regs.len() && 0 <= b < m.wires.len() ==> m.regs[a].name
                != m.wires[b].name,
        forall|i: int|
            0 <= i < m.assigns.len() ==> !input_ports(m).contains(
                target_name(#[trigger] m.assigns[i].target),
            ) && nets(m).contains(target_name(m.assigns[i].target)),
        forall|p: int|
            0 <= p < m.processes.len() ==> targets_ok(
                stmts_targets(#[trigger] m.processes[p].body, m.processes[p].body.len() as int),
                input_ports(m),
                registers(m),
            ),
        forall|i: int, k: int|
            0 <= i < m.assigns.len() && 0 <= k < expr_idents(m.assigns[i].expr).len() ==> is_declared(
                m,
                #[trigger] expr_idents(m.assigns[i].expr)[k],
            ),
        forall|p: int, k: int|
            0 <= p < m.processes.len() && 0 <= k < m.processes[p].sensitivity.len() ==> is_declared(
                m,
                sens_name(#[trigger] m.processes[p].sensitivity[k]),
            ),
        forall|p: int, k: int|
            0 <= p < m.processes.len() && 0 <= k < stmts_reads(
                m.processes[p].body,
                m.processes[p].body.len() as int,
            ).len() ==> is_declared(
                m,
                #[trigger] stmts_reads(m.processes[p].body, m.processes[p].body.len() as int)[k],
            ),
        forall|i: int, k: int|
            0 <= i < m.instances.len() && 0 <= k < exprs_idents(
                port_map_exprs(m.instances[i].port_map),
                port_map_exprs(m.instances[i].port_map).len() as int,
            ).len() ==> is_declared(
                m,
                #[trigger] exprs_idents(
                    port_map_exprs(m.instances[i].port_map),
                    port_map_exprs(m.instances[i].port_map).len() as int,
                )[k],
            ),
    ensures
        spec_check_module(m) is Ok,
{
    let st0 = no_names();
    assert(st0.ports =~= port_names(m.ports, 0));
    lemma_ports_complete(m.ports, 0, st0);
    lemma_ports_accepted(m.ports, 0, st0);
    lemma_ports_kinds(m.ports, 0, st0);
    let st = spec_check_ports(m.ports, 0, st0)->Ok_0;
    assert(st.inputs == input_ports(m));
    let e: Seq<Seq<char>> = Seq::empty();
    assert forall|a: int| 0 <= a < m.wires.len() implies !st.ports.contains(#[trigger] m.wires[a].name) by {
        if st.ports.contains(m.wires[a].name) {
            let k = choose|k: int| 0 <= k < st.ports.len() && st.ports[k] == m.wires[a].name;
            assert(m.ports[k].name == m.wires[a].name);
        }
    }
    assert(e =~= signal_names(m.wires, 0, 0));
    assert(st.wires =~= st.wires + e);
    lemma_wires_complete(m.wires, 0, st.ports, e, st.wires);
    lemma_wires_accepted(m.wires, 0, st.ports, e, st.wires, st.wires);
    let wires = spec_check_wires(m.wires, 0, st.ports, e, st.wires)->Ok_0;
    assert(wires == nets(m));
    assert forall|a: int| 0 <= a < m.regs.len() implies !st.ports.contains(#[trigger] m.regs[a].name) by {
        if st.ports.contains(m.regs[a].name) {
            let k = choose|k: int| 0 <= k < st.ports.len() && st.ports[k] == m.regs[a].name;
            assert(m.ports[k].name == m.regs[a].name);
        }
    }
    assert forall|a: int| 0 <= a < m.regs.len() implies !wires.contains(#[trigger] m.regs[a].name) by {
        let x = m.regs[a].name;
        let pw = ports_where(m.ports, m.ports.len() as int, |p: SpecPort| is_net_port(p));
        let wn = signal_names(m.wires, 0, m.wires.len() as int);
        if wires.contains(x) {
            let k = choose|k: int| 0 <= k < wires.len() && wires[k] == x;
            if k < pw.len() {
                assert(pw[k] == x);
                assert(pw.contains(x));
                lemma_ports_where_named(m.ports, m.ports.len() as int, |p: SpecPort| is_net_port(p), x);
                let j = choose|j: int| 0 <= j < m.ports.len() && #[trigger] m.ports[j].name == x;
                assert(m.regs[a].name != m.ports[j].name);
            } else {
                assert(wn[k - pw.len()] == x);
                assert(m.wires[k - pw.len()].name == x);
                assert(m.regs[a].name != m.wires[k - pw.len()].name);
            }
        }
    }
    assert(e =~= signal_names(m.regs, 0, 0));
    assert(st.regs =~= st.regs + e);
    lemma_regs_complete(m.regs, 0, st.ports, e, wires, st.regs);
    lemma_regs_accepted(m.regs, 0, st.ports, e, wires, st.regs, st.regs);
    let regs = spec_check_regs(m.regs, 0, st.ports, e, wires, st.regs)->Ok_0;
    assert(regs == registers(m));
    let d = wires + regs + st.ports;
    assert(st.ports == port_names(m.ports, m.ports.len() as int));
    assert forall|i: int| 0 <= i < m.assigns.len() implies !st.inputs.contains(
        target_name(#[trigger] m.assigns[i].target),
    ) && wires.contains(target_name(m.assigns[i].target)) && spec_check_expr(m.assigns[i].expr, d)
        is None by {
        let ex = m.assigns[i].expr;
        assert forall|k: int| 0 <= k < expr_idents(ex).len() implies d.contains(
            #[trigger] expr_idents(ex)[k],
        ) by {
            lemma_declared_collected(m, expr_idents(ex)[k]);
        }
        lemma_expr_complete(ex, d);
    }
    lemma_assigns_none(m.assigns, 0, d, st.inputs, wires);
    assert forall|p: int| 0 <= p < m.processes.len() implies (#[trigger] spec_check_sens(
        m.processes[p].sensitivity,
        0,
        d,
    )) is None && spec_check_stmts(m.processes[p].body, 0, d, st.inputs, regs) is None by {
        let ss = m.processes[p].sensitivity;
        assert forall|k: int| 0 <= k < ss.len() implies d.contains(sens_name(#[trigger] ss[k])) by {
            lemma_declared_collected(m, sens_name(ss[k]));
        }
        lemma_sens_none(ss, 0, d);
        let body = m.processes[p].body;
        let rd = stmts_reads(body, body.len() as int);
        assert forall|k: int| 0 <= k < rd.len() implies d.contains(#[trigger] rd[k]) by {
            lemma_declared_collected(m, rd[k]);
        }
        assert(targets_ok(stmts_targets(body, body.len() as int), st.inputs, regs));
        lemma_stmts_each(body, body.len() as int, d, st.inputs, regs);
        assert forall|j: int| 0 <= j < body.len() implies (#[trigger] spec_check_stmt(
            body[j],
            d,
            st.inputs,
            regs,
        )) is None by {
            lemma_stmt_complete(body[j], d, st.inputs, regs);
        }
        lemma_stmts_none(body, 0, d, st.inputs, regs);
    }
    lemma_processes_none(m.processes, 0, d, st.inputs, regs);
    assert forall|i: int| 0 <= i < m.instances.len() implies (#[trigger] spec_check_exprs(
        port_map_exprs(m.instances[i].port_map),
        0,
        d,
    )) is None by {
        let v = port_map_exprs(m.instances[i].port_map);
        let rd = exprs_idents(v, v.len() as int);
        assert forall|k: int| 0 <= k < rd.len() implies d.contains(#[trigger] rd[k]) by {
            lemma_declared_collected(m, rd[k]);
        }
        lemma_exprs_idents_each(v, v.len() as int, d);
        assert forall|j: int| 0 <= j < v.len() implies (#[trigger] spec_check_expr(v[j], d)) is None by {
            lemma_expr_complete(v[j], d);
        }
        lemma_exprs_none(v, 0, d);
    }
    lemma_instances_none(m.instances, 0, d);
}

// ---------------------------------------------------------------------------
// The checks
// ---------------------------------------------------------------------------

/// The error that a check answered, if any.
pub open spec fn err_of(r: Result<(), String>) -> Option<Seq<char>> {
    match r {
        Ok(_) => None,
        Err(m) => Some(m@),
    }
}

/// `prefix`, then `name`, then `suffix`.
fn quote(prefix: &str, name: &String, suffix: &str) -> (r: String)
    ensures
        r@ == quoted(prefix@, name@, suffix@),
{
    let mut r = string_of(prefix);
    push_str(&mut r, name.as_str());
    push_str(&mut r, suffix);
    r
}

/// Checks that every identifier of `expr` is among `declared`; the error
/// names the first one (left to right) that is not.
pub fn check_expr_signals(expr: &Expr, declared: &Vec<String>) -> (r: Result<(), String>)
    ensures
        err_of(r) == spec_check_expr(expr@, names_of(declared@)),
    decreases expr,
{
    match expr {
        Expr::Literal(_) => Ok(()),
        Expr::Ident(name) => {
            if contains_name(declared, name) {
                Ok(())
            } else {
                Err(quote("Undeclared identifier: '", name, "'"))
            }
        },
        Expr::Slice(e, _, _) => check_expr_signals(e, declared),
        Expr::Concat(v) => {
            proof {
                lemma_concat_view(*v);
            }
            check_exprs_signals(v, declared)
        },
        Expr::UnaryOp(_, e) => check_expr_signals(e, declared),
        Expr::BinaryOp(_, a, b) => {
            let r = check_expr_signals(a, declared);
            if r.is_err() {
                return r;
            }
            check_expr_signals(b, declared)
        },
        Expr::Cond(c, t, f) => {
            let r = check_expr_signals(c, declared);
            if r.is_err() {
                return r;
            }
            let r = check_expr_signals(t, declared);
            if r.is_err() {
                return r;
            }
            check_expr_signals(f, declared)
        },
    }
}

/// Checks the expressions of `v` in order.
fn check_exprs_signals(v: &Vec<Expr>, declared: &Vec<String>) -> (r: Result<(), String>)
    ensures
        err_of(r) == spec_check_exprs(exprs_view(v@), 0, names_of(declared@)),
    decreases v,
{
    let ghost d = names_of(declared@);
    let ghost es = exprs_view(v@);
    let mut i: usize = 0;
    while i < v.len()
        invariant
            i <= v.len(),
            es == exprs_view(v@),
            d == names_of(declared@),
            spec_check_exprs(es, 0, d) == spec_check_exprs(es, i as int, d),
        decreases v.len() - i,
    {
        let r = check_expr_signals(&v[i], declared);
        if r.is_err() {
            return r;
        }
        i += 1;
    }
    Ok(())
}

/// Checks an assignment target: never an input port, and a name of
/// `allowed` (the wires for a continuous assignment, the registers in a
/// process).
pub fn check_assign_target(
    target: &AssignTarget,
    input_ports: &Vec<String>,
    allowed_set: &Vec<String>,
    is_continuous: bool,
) -> (r: Result<(), String>)
    ensures
        err_of(r) == spec_check_target(
            target@,
            names_of(input_ports@),
            names_of(allowed_set@),
            is_continuous,
        ),
{
    let name = match target {
        AssignTarget::Signal(n, _) => n,
        AssignTarget::Slice(n, _, _) => n,
    };
    if contains_name(input_ports, name) {
        return Err(quote("Cannot assign to input port '", name, "'"));
    }
    if !contains_name(allowed_set, name) {
        let mut m = quote("Assignment target '", name, "' must be a ");
        if is_continuous {
            push_str(&mut m, "wire (or non-reg output port)");
        } else {
            push_str(&mut m, "reg (or output reg port)");
        }
        push_str(&mut m, " in this context");
        return Err(m);
    }
    Ok(())
}

/// Checks a statement of a process body: the targets of its writes must be
/// registers, and its identifiers must be declared.
pub fn check_statement(
    stmt: &Statement,
    declared: &Vec<String>,
    input_ports: &Vec<String>,
    reg_set: &Vec<String>,
) -> (r: Result<(), String>)
    ensures
        err_of(r) == spec_check_stmt(
            stmt@,
            names_of(declared@),
            names_of(input_ports@),
            names_of(reg_set@),
        ),
    decreases stmt,
{
    match stmt {
        Statement::BlockWrite(target, expr) => {
            let r = check_assign_target(target, input_ports, reg_set, false);
            if r.is_err() {
                return r;
            }
            check_expr_signals(expr, declared)
        },
        Statement::NonBlockWrite(target, expr) => {
            let r = check_assign_target(target, input_ports, reg_set, false);
            if r.is_err() {
                return r;
            }
            check_expr_signals(expr, declared)
        },
        Statement::If(cond, then_body, else_body) => {
            proof {
                lemma_if_view(*cond, *then_body, *else_body);
            }
            let r = check_expr_signals(cond, declared);
            if r.is_err() {
                return r;
            }
            let r = check_statements(then_body, declared, input_ports, reg_set);
            if r.is_err() {
                return r;
            }
            check_statements(else_body, declared, input_ports, reg_set)
        },
    }
}

/// Checks the statements of `v` in order.
fn check_statements(
    v: &Vec<Statement>,
    declared: &Vec<String>,
    input_ports: &Vec<String>,
    reg_set: &Vec<String>,
) -> (r: Result<(), String>)
    ensures
        err_of(r) == spec_check_stmts(
            stmts_view(v@),
            0,
            names_of(declared@),
            names_of(input_ports@),
            names_of(reg_set@),
        ),
    decreases v,
{
    let ghost d = names_of(declared@);
    let ghost ins = names_of(input_ports@);
    let ghost rs = names_of(reg_set@);
    let ghost ss = stmts_view(v@);
    let mut i: usize = 0;
    while i < v.len()
        invariant
            i <= v.len(),
            ss == stmts_view(v@),
            d == names_of(declared@),
            ins == names_of(input_ports@),
            rs == names_of(reg_set@),
            spec_check_stmts(ss, 0, d, ins, rs) == spec_check_stmts(ss, i as int, d, ins, rs),
        decreases v.len() - i,
    {
        let r = check_statement(&v[i], declared, input_ports, reg_set);
        if r.is_err() {
            return r;
        }
        i += 1;
    }
    Ok(())
}

/// Checks the sensitivity list `ss`: every signal in it must be declared.
fn check_sensitivity(ss: &Vec<Sensitivity>, declared: &Vec<String>) -> (r: Result<(), String>)
    ensures
        err_of(r) == spec_check_sens(sens_view(ss@), 0, names_of(declared@)),
{
    let ghost d = names_of(declared@);
    let ghost sv = sens_view(ss@);
    let mut i: usize = 0;
    while i < ss.len()
        invariant
            i <= ss.len(),
            sv == sens_view(ss@),
            d == names_of(declared@),
            spec_check_sens(sv, 0, d) == spec_check_sens(sv, i as int, d),
        decreases ss.len() - i,
    {
        let sig = match &ss[i] {
            Sensitivity::PosEdge(s) => s,
            Sensitivity::NegEdge(s) => s,
            Sensitivity::Level(s) => s,
        };
        assert(sens_name(sv[i as int]) == sig@);
        if !contains_name(declared, sig) {
            return Err(quote("Undeclared signal in sensitivity list: '", sig, "'"));
        }
        i += 1;
    }
    Ok(())
}

/// Checks the connections of an instance: every identifier in them must be
/// declared. The port names are those of the instantiated module and are not
/// looked up here.
fn check_port_map(pm: &PortMap, declared: &Vec<String>) -> (r: Result<(), String>)
    ensures
        err_of(r) == spec_check_exprs(port_map_exprs(pm@), 0, names_of(declared@)),
{
    match pm {
        PortMap::ByName(map) => {
            let ghost d = names_of(declared@);
            let ghost es = port_map_exprs(pm@);
            let mut i: usize = 0;
            while i < map.len()
                invariant
                    i <= map.len(),
                    es == port_map_exprs(pm@),
                    *pm == PortMap::ByName(*map),
                    es.len() == map.len(),
                    d == names_of(declared@),
                    spec_check_exprs(es, 0, d) == spec_check_exprs(es, i as int, d),
                decreases map.len() - i,
            {
                assert(es[i as int] == map@[i as int].1@);
                let r = check_expr_signals(&map[i].1, declared);
                if r.is_err() {
                    return r;
                }
                i += 1;
            }
            Ok(())
        },
        PortMap::ByPosition(exprs) => check_exprs_signals(exprs, declared),
    }
}

/// Checks a module: names are declared once and do not clash, continuous
/// assignments drive wires, processes assign registers, no input port is
/// assigned, and every identifier used is declared. The error is that of the
/// first violation, in the order ports, wires, registers, continuous
/// assignments, processes, instances.
#[verifier::loop_isolation(false)]
pub fn check_module(module: &Module) -> (r: Result<(), String>)
    ensures
        match spec_check_module(module@) {
            Ok(_) => r is Ok,
            Err(e) => r matches Err(m) && m@ == e,
        },
{
    let ghost mv = module@;
    // The ports.
    let mut ports: Vec<String> = Vec::new();
    let mut input_ports: Vec<String> = Vec::new();
    let mut reg_set: Vec<String> = Vec::new();
    let mut wire_set: Vec<String> = Vec::new();
    let ghost ps = mv.ports;
    assert(names_of(ports@) =~= Seq::<Seq<char>>::empty());
    assert(names_of(input_ports@) =~= Seq::<Seq<char>>::empty());
    assert(names_of(reg_set@) =~= Seq::<Seq<char>>::empty());
    assert(names_of(wire_set@) =~= Seq::<Seq<char>>::empty());
    let mut i: usize = 0;
    while i < module.ports.len()
        invariant
            i <= module.ports.len(),
            mv == module@,
            ps == mv.ports,
            ps.len() == module.ports.len(),
            spec_check_ports(ps, 0, no_names()) == spec_check_ports(
                ps,
                i as int,
                SpecNames {
                    ports: names_of(ports@),
                    inputs: names_of(input_ports@),
                    regs: names_of(reg_set@),
                    wires: names_of(wire_set@),
                },
            ),
        decreases module.ports.len() - i,
    {
        let port: &Port = &module.ports[i];
        assert(ps[i as int] == port@);
        if contains_name(&ports, &port.name) {
            let mut m = string_of("Duplicate port name: ");
            push_str(&mut m, port.name.as_str());
            return Err(m);
        }
        proof {
            lemma_names_push(ports@, port.name);
            lemma_names_push(input_ports@, port.name);
            lemma_names_push(reg_set@, port.name);
            lemma_names_push(wire_set@, port.name);
        }
        ports.push(port.name.clone());
        match port.direction {
            PortDir::Input => {
                input_ports.push(port.name.clone());
            },
            PortDir::Output => {
                if port.reg {
                    reg_set.push(port.name.clone());
                } else {
                    wire_set.push(port.name.clone());
                }
            },
            PortDir::Inout => {
                wire_set.push(port.name.clone());
            },
        }
        i += 1;
    }
    let ghost st = SpecNames {
        ports: names_of(ports@),
        inputs: names_of(input_ports@),
        regs: names_of(reg_set@),
        wires: names_of(wire_set@),
    };
    assert(spec_check_ports(ps, 0, no_names()) == Ok::<SpecNames, Seq<char>>(st));

    // The internal wires.
    let mut wire_names: Vec<String> = Vec::new();
    let ghost ws = mv.wires;
    assert(names_of(wire_names@) =~= Seq::<Seq<char>>::empty());
    let mut i: usize = 0;
    while i < module.wires.len()
        invariant
            i <= module.wires.len(),
            mv == module@,
            ws == mv.wires,
            ws.len() == module.wires.len(),
            names_of(ports@) == st.ports,
            spec_check_wires(ws, 0, st.ports, Seq::empty(), st.wires) == spec_check_wires(
                ws,
                i as int,
                st.ports,
                names_of(wire_names@),
                names_of(wire_set@),
            ),
        decreases module.wires.len() - i,
    {
        let wire: &Signal = &module.wires[i];
        assert(ws[i as int] == wire@);
        if contains_name(&ports, &wire.name) {
            return Err(quote("Wire '", &wire.name, "' conflicts with a port of the same name"));
        }
        if contains_name(&wire_names, &wire.name) {
            let mut m = string_of("Duplicate wire: ");
            push_str(&mut m, wire.name.as_str());
            return Err(m);
        }
        proof {
            lemma_names_push(wire_names@, wire.name);
            lemma_names_push(wire_set@, wire.name);
        }
        wire_names.push(wire.name.clone());
        wire_set.push(wire.name.clone());
        i += 1;
    }
    let ghost wires_final = names_of(wire_set@);
    assert(spec_check_wires(ws, 0, st.ports, Seq::empty(), st.wires) == Ok::<
        Seq<Seq<char>>,
        Seq<char>,
    >(wires_final));

    // The internal registers.
    let mut reg_names: Vec<String> = Vec::new();
    let ghost rs = mv.regs;
    assert(names_of(reg_names@) =~= Seq::<Seq<char>>::empty());
    let mut i: usize = 0;
    while i < module.regs.len()
        invariant
            i <= module.regs.len(),
            mv == module@,
            rs == mv.regs,
            rs.len() == module.regs.len(),
            names_of(ports@) == st.ports,
            names_of(wire_set@) == wires_final,
            spec_check_regs(rs, 0, st.ports, Seq::empty(), wires_final, st.regs)
                == spec_check_regs(
                rs,
                i as int,
                st.ports,
                names_of(reg_names@),
                wires_final,
                names_of(reg_set@),
            ),
        decreases module.regs.len() - i,
    {
        let reg: &Signal = &module.regs[i];
        assert(rs[i as int] == reg@);
        if contains_name(&ports, &reg.name) {
            return Err(quote("Reg '", &reg.name, "' conflicts with a port of the same name"));
        }
        if contains_name(&reg_names, &reg.name) {
            let mut m = string_of("Duplicate reg: ");
            push_str(&mut m, reg.name.as_str());
            return Err(m);
        }
        if contains_name(&wire_set, &reg.name) {
            return Err(quote("Reg '", &reg.name, "' already declared as wire"));
        }
        proof {
            lemma_names_push(reg_names@, reg.name);
            lemma_names_push(reg_set@, reg.name);
        }
        reg_names.push(reg.name.clone());
        reg_set.push(reg.name.clone());
        i += 1;
    }

    assert(spec_check_regs(rs, 0, st.ports, Seq::empty(), wires_final, st.regs) == Ok::<
        Seq<Seq<char>>,
        Seq<char>,
    >(names_of(reg_set@)));

    // Every declared signal.
    let mut all_signals: Vec<String> = Vec::new();
    append_names(&mut all_signals, &wire_set);
    append_names(&mut all_signals, &reg_set);
    append_names(&mut all_signals, &ports);
    let ghost d = names_of(all_signals@);
    let ghost ins = names_of(input_ports@);
    let ghost wv = names_of(wire_set@);
    let ghost rv = names_of(reg_set@);
    assert(d =~= names_of(wire_set@) + names_of(reg_set@) + names_of(ports@));

    // Continuous assignments.
    let ghost asg = mv.assigns;
    let mut i: usize = 0;
    while i < module.assigns.len()
        invariant
            i <= module.assigns.len(),
            mv == module@,
            asg == mv.assigns,
            asg.len() == module.assigns.len(),
            d == names_of(all_signals@),
            ins == names_of(input_ports@),
            wv == names_of(wire_set@),
            spec_check_assigns(asg, 0, d, ins, wv) == spec_check_assigns(asg, i as int, d, ins, wv),
        decreases module.assigns.len() - i,
    {
        let a: &Assign = &module.assigns[i];
        assert(asg[i as int] == a@);
        let r = check_assign_target(&a.target, &input_ports, &wire_set, true);
        if r.is_err() {
            return r;
        }
        let r = check_expr_signals(&a.expr, &all_signals);
        if r.is_err() {
            return r;
        }
        i += 1;
    }

    // Processes.
    let ghost pr = mv.processes;
    let mut i: usize = 0;
    while i < module.processes.len()
        invariant
            i <= module.processes.len(),
            mv == module@,
            pr == mv.processes,
            pr.len() == module.processes.len(),
            d == names_of(all_signals@),
            ins == names_of(input_ports@),
            rv == names_of(reg_set@),
            spec_check_processes(pr, 0, d, ins, rv) == spec_check_processes(
                pr,
                i as int,
                d,
                ins,
                rv,
            ),
        decreases module.processes.len() - i,
    {
        let p: &Process = &module.processes[i];
        assert(pr[i as int] == p@);
        let r = check_sensitivity(&p.sensitivity, &all_signals);
        if r.is_err() {
            return r;
        }
        let r = check_statements(&p.body, &all_signals, &input_ports, &reg_set);
        if r.is_err() {
            return r;
        }
        i += 1;
    }

    // Instances.
    let ghost inst = mv.instances;
    let mut i: usize = 0;
    while i < module.instances.len()
        invariant
            i <= module.instances.len(),
            mv == module@,
            inst == mv.instances,
            inst.len() == module.instances.len(),
            d == names_of(all_signals@),
            spec_check_instances(inst, 0, d) == spec_check_instances(inst, i as int, d),
        decreases module.instances.len() - i,
    {
        let n: &Instance = &module.instances[i];
        assert(inst[i as int] == n@);
        let r = check_port_map(&n.port_map, &all_signals);
        if r.is_err() {
            return r;
        }
        i += 1;
    }
    Ok(())
}

} // verus!
