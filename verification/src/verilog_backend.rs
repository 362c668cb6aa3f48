//! Verilog output: an ANSI-style port list, declarations, continuous
//! assignments, `always` blocks and instances.
use vstd::prelude::*;
use crate::ast::{
    binary_op_of, exprs_view, lemma_concat_view, lemma_if_view, modules_view, stmts_view, AssignTarget,
    BinaryOp, Expr, Instance, Module, Port, PortDir, PortMap, Process, Sensitivity, Signal,
    SpecAssignTarget, SpecExpr, SpecInstance, SpecModule, SpecPort, SpecPortMap, SpecProcess,
    SpecSensitivity, SpecSignal, SpecStatement, Statement,
};
use crate::backend::Backend;
use crate::text::{
    indent, join, join_strings, lemma_join_ends, lemma_names_push, lines_of, names_of, nat_text,
    parse_usize, push_indented, push_str, push_usize, spec_parse_usize, string_of,
};

verus! {

broadcast use lemma_concat_view, lemma_if_view;

/// The Verilog code generator.
pub struct VerilogBackend;

// ---------------------------------------------------------------------------
// The text, as a function of the modules
// ---------------------------------------------------------------------------

/// The vector range of a width: `[n-1:0]` for a number `n` above 1, nothing
/// for 1, 0 or no width, and `[w-1:0]` for a width `w` that is not a number
/// (a parameter of `w` bits).
pub open spec fn verilog_width(w: Option<Seq<char>>) -> Seq<char> {
    match w {
        None => Seq::empty(),
        Some(t) => match spec_parse_usize(t) {
            Some(n) => if n > 1 {
                "["@ + nat_text((n - 1) as nat) + ":0]"@
            } else {
                Seq::empty()
            },
            None => "["@ + t + "-1:0]"@,
        },
    }
}

/// `[i]`, or `[h:l]` when the bounds differ.
pub open spec fn verilog_range(h: usize, l: usize) -> Seq<char> {
    if h == l {
        "["@ + nat_text(h as nat) + "]"@
    } else {
        "["@ + nat_text(h as nat) + ":"@ + nat_text(l as nat) + "]"@
    }
}

pub open spec fn verilog_target(t: SpecAssignTarget) -> Seq<char> {
    match t {
        SpecAssignTarget::Signal(n, None) => n,
        SpecAssignTarget::Signal(n, Some(i)) => n + "["@ + nat_text(i as nat) + "]"@,
        SpecAssignTarget::Slice(n, h, l) => n + verilog_range(h, l),
    }
}

pub open spec fn verilog_op(op: BinaryOp) -> Seq<char> {
    match op {
        BinaryOp::And => "&"@,
        BinaryOp::Or => "|"@,
        BinaryOp::Xor => "^"@,
        BinaryOp::Add => "+"@,
        BinaryOp::Sub => "-"@,
        BinaryOp::Mul => "*"@,
        BinaryOp::Eq => "=="@,
        BinaryOp::Ne => "!="@,
        BinaryOp::Lt => "<"@,
        BinaryOp::Le => "<="@,
        BinaryOp::Gt => ">"@,
        BinaryOp::Ge => ">="@,
        BinaryOp::Shl => "<<"@,
        BinaryOp::Shr => ">>"@,
    }
}

/// An expression: binary operations and conditionals are parenthesised,
/// a negation is `~` before its operand, a concatenation is in braces.
pub open spec fn verilog_expr(e: SpecExpr) -> Seq<char>
    decreases e, 0int,
{
    match e {
        SpecExpr::Literal(s) => s,
        SpecExpr::Ident(s) => s,
        SpecExpr::Slice(b, h, l) => verilog_expr(*b) + verilog_range(h, l),
        SpecExpr::Concat(v) => "{"@ + join(verilog_exprs(v, v.len() as int), ", "@) + "}"@,
        SpecExpr::UnaryOp(_, b) => "~"@ + verilog_expr(*b),
        SpecExpr::BinaryOp(op, a, b) => "("@ + verilog_expr(*a) + " "@ + verilog_op(op) + " "@
            + verilog_expr(*b) + ")"@,
        SpecExpr::Cond(c, t, f) => "("@ + verilog_expr(*c) + " ? "@ + verilog_expr(*t) + " : "@
            + verilog_expr(*f) + ")"@,
    }
}

/// The first `n` expressions of `v`.
pub open spec fn verilog_exprs(v: Seq<SpecExpr>, n: int) -> Seq<Seq<char>>
    decreases v, n,
{
    if n <= 0 || n > v.len() {
        Seq::empty()
    } else {
        verilog_exprs(v, n - 1).push(verilog_expr(v[n - 1]))
    }
}

/// How many levels of nested blocks are indented; deeper blocks keep the
/// indentation of that level, so the text grows linearly with the design.
pub const MAX_INDENT_DEPTH: usize = 16;

/// What a block nested at `depth` adds in front of each of its lines.
pub open spec fn nested_prefix(depth: int) -> Seq<char> {
    if depth < MAX_INDENT_DEPTH {
        "    "@
    } else {
        ""@
    }
}

/// The nesting depth of a block inside one at `depth`, as far as
/// indentation counts it.
pub open spec fn next_depth(depth: int) -> int {
    if depth < MAX_INDENT_DEPTH {
        depth + 1
    } else {
        depth
    }
}

/// The lines of a statement at nesting depth `depth`; a nested block is
/// indented by four more spaces, up to `MAX_INDENT_DEPTH` levels.
pub open spec fn verilog_stmt_lines(s: SpecStatement, depth: int) -> Seq<Seq<char>>
    decreases s, 0int,
{
    match s {
        SpecStatement::BlockWrite(t, e) => seq![
            verilog_target(t) + " = "@ + verilog_expr(e) + ";"@,
        ],
        SpecStatement::NonBlockWrite(t, e) => seq![
            verilog_target(t) + " <= "@ + verilog_expr(e) + ";"@,
        ],
        SpecStatement::If(c, a, b) => {
            let inner = next_depth(depth);
            let then_part = indent(
                lines_of(join(verilog_stmts_lines(a, a.len() as int, inner), "\n"@)),
                nested_prefix(depth),
            );
            let else_part = if b.len() == 0 {
                Seq::empty()
            } else {
                seq!["end else begin"@] + indent(
                    lines_of(join(verilog_stmts_lines(b, b.len() as int, inner), "\n"@)),
                    nested_prefix(depth),
                )
            };
            seq!["if ("@ + verilog_expr(c) + ") begin"@] + then_part + else_part + seq![
                "end"@,
            ]
        },
    }
}

/// The lines of the first `n` statements of `v`, at nesting depth `depth`.
pub open spec fn verilog_stmts_lines(v: Seq<SpecStatement>, n: int, depth: int) -> Seq<
    Seq<char>,
>
    decreases v, n,
{
    if n <= 0 || n > v.len() {
        Seq::empty()
    } else {
        verilog_stmts_lines(v, n - 1, depth) + verilog_stmt_lines(v[n - 1], depth)
    }
}

/// A block of statements at nesting depth `depth`, one line each, without
/// the indentation of the block itself.
pub open spec fn verilog_statements(v: Seq<SpecStatement>, depth: int) -> Seq<char> {
    join(verilog_stmts_lines(v, v.len() as int, depth), "\n"@)
}

pub open spec fn verilog_sens(s: SpecSensitivity) -> Seq<char> {
    match s {
        SpecSensitivity::PosEdge(n) => "posedge "@ + n,
        SpecSensitivity::NegEdge(n) => "negedge "@ + n,
        SpecSensitivity::Level(n) => n,
    }
}

/// An `always` block: the sensitivity list joined by `or`, then the body
/// indented by eight spaces.
pub open spec fn verilog_process(p: SpecProcess) -> Seq<char> {
    let sens = join(
        Seq::new(p.sensitivity.len(), |i: int| verilog_sens(p.sensitivity[i])),
        " or "@,
    );
    join(
        seq!["    always @("@ + sens + ") begin"@] + indent(
            lines_of(verilog_statements(p.body, 0)),
            "        "@,
        ) + seq!["    end"@],
        "\n"@,
    )
}

/// A comma after each item but the last of `n`.
pub open spec fn comma(i: int, n: int) -> Seq<char> {
    if i == n - 1 {
        Seq::empty()
    } else {
        ","@
    }
}

pub open spec fn verilog_connections(pm: SpecPortMap) -> Seq<Seq<char>> {
    match pm {
        SpecPortMap::ByName(v) => Seq::new(
            v.len(),
            |i: int|
                "        ."@ + v[i].0 + "("@ + verilog_expr(v[i].1) + ")"@ + comma(i, v.len() as int),
        ),
        SpecPortMap::ByPosition(v) => Seq::new(
            v.len(),
            |i: int| "        "@ + verilog_expr(v[i]) + comma(i, v.len() as int),
        ),
    }
}

pub open spec fn verilog_instance(inst: SpecInstance) -> Seq<char> {
    join(
        seq!["    "@ + inst.module_name + " "@ + inst.instance_name + " ("@]
            + verilog_connections(inst.port_map) + seq!["    );"@],
        "\n"@,
    )
}

pub open spec fn dir_text(d: PortDir) -> Seq<char> {
    match d {
        PortDir::Input => "input"@,
        PortDir::Output => "output"@,
        PortDir::Inout => "inout"@,
    }
}

/// A port: direction, `reg` for an output register, range, name.
pub open spec fn verilog_port(p: SpecPort) -> Seq<char> {
    let w = verilog_width(p.width);
    let parts = seq![dir_text(p.direction)] + (if p.direction == PortDir::Output && p.reg {
        seq!["reg"@]
    } else {
        Seq::empty()
    }) + (if w.len() == 0 {
        Seq::empty()
    } else {
        seq![w]
    }) + seq![p.name];
    join(parts, " "@)
}

/// The port list, one port per line.
pub open spec fn verilog_port_list(ports: Seq<SpecPort>) -> Seq<char> {
    if ports.len() == 0 {
        "();"@
    } else {
        "(\n    "@ + join(Seq::new(ports.len(), |i: int| verilog_port(ports[i])), ",\n    "@)
            + "\n);"@
    }
}

/// The declaration of an internal wire or register.
pub open spec fn verilog_decl(keyword: Seq<char>, s: SpecSignal) -> Seq<char> {
    let w = verilog_width(s.width);
    "    "@ + keyword + (if w.len() == 0 {
        " "@
    } else {
        " "@ + w + " "@
    }) + s.name + ";"@
}

pub open spec fn verilog_assign_line(t: SpecAssignTarget, e: SpecExpr) -> Seq<char> {
    "    assign "@ + verilog_target(t) + " = "@ + verilog_expr(e) + ";"@
}

/// The parts of a module, in order: header, wires, registers, continuous
/// assignments, processes, instances, `endmodule`.
pub open spec fn verilog_module_lines(m: SpecModule) -> Seq<Seq<char>> {
    seq!["module "@ + m.name + " "@ + verilog_port_list(m.ports)]
        + Seq::new(m.wires.len(), |i: int| verilog_decl("wire"@, m.wires[i]))
        + Seq::new(m.regs.len(), |i: int| verilog_decl("reg"@, m.regs[i]))
        + Seq::new(
        m.assigns.len(),
        |i: int| verilog_assign_line(m.assigns[i].target, m.assigns[i].expr),
    ) + Seq::new(m.processes.len(), |i: int| verilog_process(m.processes[i]))
        + Seq::new(m.instances.len(), |i: int| verilog_instance(m.instances[i]))
        + seq!["endmodule"@]
}

pub open spec fn verilog_module(m: SpecModule) -> Seq<char> {
    join(verilog_module_lines(m), "\n"@)
}

/// The Verilog text of a list of modules, one after the other.
pub open spec fn verilog_text(ms: Seq<SpecModule>) -> Seq<char> {
    join(Seq::new(ms.len(), |i: int| verilog_module(ms[i])), "\n"@)
}

/// A binary expression is written in Verilog as its two operands around the
/// Verilog operator of the same meaning, in parentheses: the HAL operators
/// `+`, `-`, `*`, `==`, `!=`, `<`, `>`, `<=`, `>=`, `<<` and `>>` keep their
/// spelling, and the bitwise `and`, `or` and `xor` become `&`, `|` and `^`.
/// Different operators are written differently.
pub proof fn lemma_verilog_operators(s: Seq<char>, a: SpecExpr, b: SpecExpr)
    requires
        binary_op_of(s) is Some,
    ensures
        verilog_expr(SpecExpr::BinaryOp(binary_op_of(s)->Some_0, Box::new(a), Box::new(b))) == "("@
            + verilog_expr(a) + " "@ + (if s == "and"@ {
            "&"@
        } else if s == "or"@ {
            "|"@
        } else if s == "xor"@ {
            "^"@
        } else {
            s
        }) + " "@ + verilog_expr(b) + ")"@,
        forall|x: BinaryOp, y: BinaryOp|
            #![trigger verilog_op(x), verilog_op(y)]
            verilog_op(x) == verilog_op(y) ==> x == y,
{
    reveal_strlit("!=");
    reveal_strlit("&");
    reveal_strlit("*");
    reveal_strlit("+");
    reveal_strlit("-");
    reveal_strlit("<");
    reveal_strlit("<<");
    reveal_strlit("<=");
    reveal_strlit("==");
    reveal_strlit(">");
    reveal_strlit(">=");
    reveal_strlit(">>");
    reveal_strlit("^");
    reveal_strlit("and");
    reveal_strlit("or");
    reveal_strlit("xor");
    reveal_strlit("|");
    assert("!="@.len() == 2 && "!="@[0] == '!' && "!="@.last() == '=');
    assert("&"@.len() == 1 && "&"@[0] == '&' && "&"@.last() == '&');
    assert("*"@.len() == 1 && "*"@[0] == '*' && "*"@.last() == '*');
    assert("+"@.len() == 1 && "+"@[0] == '+' && "+"@.last() == '+');
    assert("-"@.len() == 1 && "-"@[0] == '-' && "-"@.last() == '-');
    assert("<"@.len() == 1 && "<"@[0] == '<' && "<"@.last() == '<');
    assert("<<"@.len() == 2 && "<<"@[0] == '<' && "<<"@.last() == '<');
    assert("<="@.len() == 2 && "<="@[0] == '<' && "<="@.last() == '=');
    assert("=="@.len() == 2 && "=="@[0] == '=' && "=="@.last() == '=');
    assert(">"@.len() == 1 && ">"@[0] == '>' && ">"@.last() == '>');
    assert(">="@.len() == 2 && ">="@[0] == '>' && ">="@.last() == '=');
    assert(">>"@.len() == 2 && ">>"@[0] == '>' && ">>"@.last() == '>');
    assert("^"@.len() == 1 && "^"@[0] == '^' && "^"@.last() == '^');
    assert("and"@.len() == 3 && "and"@[0] == 'a' && "and"@.last() == 'd');
    assert("or"@.len() == 2 && "or"@[0] == 'o' && "or"@.last() == 'r');
    assert("xor"@.len() == 3 && "xor"@[0] == 'x' && "xor"@.last() == 'r');
    assert("|"@.len() == 1 && "|"@[0] == '|' && "|"@.last() == '|');
}

/// The Verilog text of a module starts with `module`, its name and a space
/// (then its port list), and ends with `endmodule`.
pub proof fn lemma_verilog_module_frame(m: SpecModule)
    ensures
        verilog_module(m).take(("module "@ + m.name + " "@).len() as int) == "module "@ + m.name
            + " "@,
        verilog_module(m).skip(verilog_module(m).len() - "endmodule"@.len()) == "endmodule"@,
{
    let ls = verilog_module_lines(m);
    lemma_join_ends(ls, "\n"@);
    let head = "module "@ + m.name + " "@;
    assert(ls[0] == head + verilog_port_list(m.ports));
    assert(ls[0].take(head.len() as int) =~= head);
    assert(ls.last() == "endmodule"@);
    let t = verilog_module(m);
    assert(t.take(head.len() as int) =~= t.take(ls[0].len() as int).take(head.len() as int));
}

// ---------------------------------------------------------------------------
// The generator
// ---------------------------------------------------------------------------

/// `[h]`, or `[h:l]` when the bounds differ, appended to `s`.
fn push_range(s: &mut String, h: usize, l: usize)
    ensures
        final(s)@ == old(s)@ + verilog_range(h, l),
{
    push_str(s, "[");
    push_usize(s, h);
    if h != l {
        push_str(s, ":");
        push_usize(s, l);
    }
    push_str(s, "]");
}

fn op_str(op: &BinaryOp) -> (r: &'static str)
    ensures
        r@ == verilog_op(*op),
{
    match op {
        BinaryOp::And => "&",
        BinaryOp::Or => "|",
        BinaryOp::Xor => "^",
        BinaryOp::Add => "+",
        BinaryOp::Sub => "-",
        BinaryOp::Mul => "*",
        BinaryOp::Eq => "==",
        BinaryOp::Ne => "!=",
        BinaryOp::Lt => "<",
        BinaryOp::Le => "<=",
        BinaryOp::Gt => ">",
        BinaryOp::Ge => ">=",
        BinaryOp::Shl => "<<",
        BinaryOp::Shr => ">>",
    }
}

fn dir_str(d: &PortDir) -> (r: &'static str)
    ensures
        r@ == dir_text(*d),
{
    match d {
        PortDir::Input => "input",
        PortDir::Output => "output",
        PortDir::Inout => "inout",
    }
}

/// Pushes `line` at the end of `out`.
fn push_line(out: &mut Vec<String>, line: String)
    ensures
        names_of(final(out)@) == names_of(old(out)@).push(line@),
{
    proof {
        lemma_names_push(out@, line);
    }
    out.push(line);
}

impl VerilogBackend {
    /// A Verilog code generator.
    pub fn new() -> (r: Self) {
        VerilogBackend
    }

    /// The vector range of a declared width.
    fn format_width(width: &Option<String>) -> (r: String)
        ensures
            r@ == verilog_width(crate::ast::opt_text(*width)),
    {
        match width {
            Some(w) => match parse_usize(w) {
                Some(n) => {
                    if n > 1 {
                        let mut r = string_of("[");
                        push_usize(&mut r, n - 1);
                        push_str(&mut r, ":0]");
                        r
                    } else {
                        String::new()
                    }
                },
                None => {
                    let mut r = string_of("[");
                    push_str(&mut r, w.as_str());
                    push_str(&mut r, "-1:0]");
                    r
                },
            },
            None => String::new(),
        }
    }

    fn gen_assign_target(&self, target: &AssignTarget) -> (r: String)
        ensures
            r@ == verilog_target(target@),
    {
        match target {
            AssignTarget::Signal(name, None) => name.clone(),
            AssignTarget::Signal(name, Some(idx)) => {
                let mut r = name.clone();
                push_str(&mut r, "[");
                push_usize(&mut r, *idx);
                push_str(&mut r, "]");
                r
            },
            AssignTarget::Slice(name, high, low) => {
                let mut r = name.clone();
                push_range(&mut r, *high, *low);
                r
            },
        }
    }

    fn gen_expr(&self, expr: &Expr) -> (r: String)
        ensures
            r@ == verilog_expr(expr@),
        decreases expr,
    {
        match expr {
            Expr::Literal(s) => s.clone(),
            Expr::Ident(s) => s.clone(),
            Expr::Slice(e, high, low) => {
                let mut r = self.gen_expr(e);
                push_range(&mut r, *high, *low);
                r
            },
            Expr::Concat(exprs) => {
                let parts = self.gen_exprs(exprs);
                let mut r = string_of("{");
                push_str(&mut r, join_strings(&parts, ", ").as_str());
                push_str(&mut r, "}");
                r
            },
            Expr::UnaryOp(_, e) => {
                let mut r = string_of("~");
                push_str(&mut r, self.gen_expr(e).as_str());
                r
            },
            Expr::BinaryOp(op, e1, e2) => {
                let mut r = string_of("(");
                push_str(&mut r, self.gen_expr(e1).as_str());
                push_str(&mut r, " ");
                push_str(&mut r, op_str(op));
                push_str(&mut r, " ");
                push_str(&mut r, self.gen_expr(e2).as_str());
                push_str(&mut r, ")");
                r
            },
            Expr::Cond(c, t, e) => {
                let mut r = string_of("(");
                push_str(&mut r, self.gen_expr(c).as_str());
                push_str(&mut r, " ? ");
                push_str(&mut r, self.gen_expr(t).as_str());
                push_str(&mut r, " : ");
                push_str(&mut r, self.gen_expr(e).as_str());
                push_str(&mut r, ")");
                r
            },
        }
    }

    /// The texts of the expressions of `v`.
    fn gen_exprs(&self, v: &Vec<Expr>) -> (r: Vec<String>)
        ensures
            names_of(r@) == verilog_exprs(exprs_view(v@), v@.len() as int),
        decreases v,
    {
        let ghost ev = exprs_view(v@);
        let mut out: Vec<String> = Vec::new();
        let mut i: usize = 0;
        assert(names_of(out@) =~= Seq::<Seq<char>>::empty());
        while i < v.len()
            invariant
                i <= v.len(),
                ev == exprs_view(v@),
                names_of(out@) == verilog_exprs(ev, i as int),
            decreases v.len() - i,
        {
            let t = self.gen_expr(&v[i]);
            push_line(&mut out, t);
            i += 1;
        }
        out
    }

    /// Appends the lines of `stmt`, at nesting depth `depth`, to `out`.
    fn push_stmt_lines(&self, stmt: &Statement, depth: usize, out: &mut Vec<String>)
        requires
            depth <= MAX_INDENT_DEPTH,
        ensures
            names_of(final(out)@) == names_of(old(out)@) + verilog_stmt_lines(stmt@, depth as int),
        decreases stmt,
    {
        match stmt {
            Statement::BlockWrite(target, expr) => {
                let mut l = self.gen_assign_target(target);
                push_str(&mut l, " = ");
                push_str(&mut l, self.gen_expr(expr).as_str());
                push_str(&mut l, ";");
                push_line(out, l);
            },
            Statement::NonBlockWrite(target, expr) => {
                let mut l = self.gen_assign_target(target);
                push_str(&mut l, " <= ");
                push_str(&mut l, self.gen_expr(expr).as_str());
                push_str(&mut l, ";");
                push_line(out, l);
            },
            Statement::If(cond, then_body, else_body) => {
                let ghost start = names_of(out@);
                let (prefix, inner): (&str, usize) = if depth < MAX_INDENT_DEPTH {
                    ("    ", depth + 1)
                } else {
                    ("", depth)
                };
                assert(prefix@ == nested_prefix(depth as int));
                assert(inner as int == next_depth(depth as int));
                let mut l = string_of("if (");
                push_str(&mut l, self.gen_expr(cond).as_str());
                push_str(&mut l, ") begin");
                push_line(out, l);
                let t = self.gen_statements(then_body, inner);
                push_indented(out, &t, prefix);
                if else_body.len() > 0 {
                    push_line(out, string_of("end else begin"));
                    let e = self.gen_statements(else_body, inner);
                    push_indented(out, &e, prefix);
                }
                push_line(out, string_of("end"));
                proof {
                    let sv = SpecStatement::If(
                        cond@,
                        stmts_view(then_body@),
                        stmts_view(else_body@),
                    );
                    assert(stmt@ == sv);
                    assert(names_of(out@) =~= start + verilog_stmt_lines(sv, depth as int));
                }
            },
        }
    }

    /// The statements of a block at nesting depth `depth`, one line each,
    /// without the indentation of the block itself.
    fn gen_statements(&self, stmts: &Vec<Statement>, depth: usize) -> (r: String)
        requires
            depth <= MAX_INDENT_DEPTH,
        ensures
            r@ == verilog_statements(stmts_view(stmts@), depth as int),
        decreases stmts,
    {
        let ghost sv = stmts_view(stmts@);
        let mut out: Vec<String> = Vec::new();
        let mut i: usize = 0;
        assert(names_of(out@) =~= Seq::<Seq<char>>::empty());
        while i < stmts.len()
            invariant
                i <= stmts.len(),
                depth <= MAX_INDENT_DEPTH,
                sv == stmts_view(stmts@),
                names_of(out@) == verilog_stmts_lines(sv, i as int, depth as int),
            decreases stmts.len() - i,
        {
            self.push_stmt_lines(&stmts[i], depth, &mut out);
            i += 1;
        }
        join_strings(&out, "\n")
    }

    fn gen_process(&self, proc: &Process) -> (r: Result<String, String>)
        ensures
            r matches Ok(s) && s@ == verilog_process(proc@),
    {
        let ghost pv = proc@;
        let mut items: Vec<String> = Vec::new();
        let mut i: usize = 0;
        assert(names_of(items@) =~= Seq::<Seq<char>>::empty());
        while i < proc.sensitivity.len()
            invariant
                i <= proc.sensitivity.len(),
                pv == proc@,
                names_of(items@) == Seq::new(
                    i as nat,
                    |j: int| verilog_sens(pv.sensitivity[j]),
                ),
            decreases proc.sensitivity.len() - i,
        {
            let item = match &proc.sensitivity[i] {
                Sensitivity::PosEdge(sig) => {
                    let mut t = string_of("posedge ");
                    push_str(&mut t, sig.as_str());
                    t
                },
                Sensitivity::NegEdge(sig) => {
                    let mut t = string_of("negedge ");
                    push_str(&mut t, sig.as_str());
                    t
                },
                Sensitivity::Level(sig) => sig.clone(),
            };
            assert(item@ == verilog_sens(pv.sensitivity[i as int]));
            push_line(&mut items, item);
            assert(names_of(items@) =~= Seq::new(
                (i + 1) as nat,
                |j: int| verilog_sens(pv.sensitivity[j]),
            ));
            i += 1;
        }
        let sens_str = if items.len() == 1 {
            items[0].clone()
        } else {
            join_strings(&items, " or ")
        };
        let body_str = self.gen_statements(&proc.body, 0);
        let mut lines: Vec<String> = Vec::new();
        let mut head = string_of("    always @(");
        push_str(&mut head, sens_str.as_str());
        push_str(&mut head, ") begin");
        push_line(&mut lines, head);
        push_indented(&mut lines, &body_str, "        ");
        push_line(&mut lines, string_of("    end"));
        proof {
            assert(names_of(items@) =~= Seq::new(
                pv.sensitivity.len(),
                |j: int| verilog_sens(pv.sensitivity[j]),
            ));
        }
        let r = join_strings(&lines, "\n");
        proof {
            let sens = join(
                Seq::new(pv.sensitivity.len(), |j: int| verilog_sens(pv.sensitivity[j])),
                " or "@,
            );
            assert(sens_str@ == sens);
            assert(names_of(lines@) =~= seq!["    always @("@ + sens + ") begin"@] + indent(
                lines_of(verilog_statements(pv.body, 0)),
                "        "@,
            ) + seq!["    end"@]);
        }
        Ok(r)
    }

    fn gen_instance(&self, inst: &Instance) -> (r: Result<String, String>)
        ensures
            r matches Ok(s) && s@ == verilog_instance(inst@),
    {
        let ghost iv = inst@;
        let mut lines: Vec<String> = Vec::new();
        let mut head = string_of("    ");
        push_str(&mut head, inst.module_name.as_str());
        push_str(&mut head, " ");
        push_str(&mut head, inst.instance_name.as_str());
        push_str(&mut head, " (");
        push_line(&mut lines, head);
        let ghost base = names_of(lines@);
        let ghost conns = verilog_connections(iv.port_map);
        match &inst.port_map {
            PortMap::ByName(map) => {
                let mut i: usize = 0;
                while i < map.len()
                    invariant
                        i <= map.len(),
                        iv == inst@,
                        inst.port_map == PortMap::ByName(*map),
                        conns == verilog_connections(iv.port_map),
                        conns.len() == map.len(),
                        names_of(lines@) == base + conns.take(i as int),
                    decreases map.len() - i,
                {
                    let mut l = string_of("        .");
                    push_str(&mut l, map[i].0.as_str());
                    push_str(&mut l, "(");
                    push_str(&mut l, self.gen_expr(&map[i].1).as_str());
                    push_str(&mut l, ")");
                    if i + 1 < map.len() {
                        push_str(&mut l, ",");
                    }
                    assert(l@ == conns[i as int]);
                    push_line(&mut lines, l);
                    assert(conns.take(i + 1) =~= conns.take(i as int).push(conns[i as int]));
                    i += 1;
                }
            },
            PortMap::ByPosition(exprs) => {
                let mut i: usize = 0;
                while i < exprs.len()
                    invariant
                        i <= exprs.len(),
                        iv == inst@,
                        inst.port_map == PortMap::ByPosition(*exprs),
                        conns == verilog_connections(iv.port_map),
                        conns.len() == exprs.len(),
                        names_of(lines@) == base + conns.take(i as int),
                    decreases exprs.len() - i,
                {
                    let mut l = string_of("        ");
                    push_str(&mut l, self.gen_expr(&exprs[i]).as_str());
                    if i + 1 < exprs.len() {
                        push_str(&mut l, ",");
                    }
                    assert(l@ == conns[i as int]);
                    push_line(&mut lines, l);
                    assert(conns.take(i + 1) =~= conns.take(i as int).push(conns[i as int]));
                    i += 1;
                }
            },
        }
        assert(conns.take(conns.len() as int) =~= conns);
        push_line(&mut lines, string_of("    );"));
        assert(names_of(lines@) =~= seq![
            "    "@ + iv.module_name + " "@ + iv.instance_name + " ("@,
        ] + conns + seq!["    );"@]);
        Ok(join_strings(&lines, "\n"))
    }

    /// One port of the port list.
    fn gen_port(p: &Port) -> (r: String)
        ensures
            r@ == verilog_port(p@),
    {
        let mut parts: Vec<String> = Vec::new();
        push_line(&mut parts, string_of(dir_str(&p.direction)));
        let ghost a = names_of(parts@);
        if p.direction == PortDir::Output && p.reg {
            push_line(&mut parts, string_of("reg"));
        }
        let ghost b = names_of(parts@);
        let width_str = Self::format_width(&p.width);
        if !width_str.as_str().is_empty() {
            push_line(&mut parts, width_str);
        }
        let ghost c = names_of(parts@);
        push_line(&mut parts, p.name.clone());
        proof {
            let pv = p@;
            let w = verilog_width(pv.width);
            assert(names_of(parts@) =~= seq![dir_text(pv.direction)] + (if pv.direction
                == PortDir::Output && pv.reg {
                seq!["reg"@]
            } else {
                Seq::empty()
            }) + (if w.len() == 0 {
                Seq::empty()
            } else {
                seq![w]
            }) + seq![pv.name]);
        }
        join_strings(&parts, " ")
    }

    /// The ANSI-style port list of `module`, one port per line.
    fn gen_port_list(&self, module: &Module) -> (r: String)
        ensures
            r@ == verilog_port_list(module@.ports),
    {
        if module.ports.len() == 0 {
            return string_of("();");
        }
        let ghost pv = module@.ports;
        let mut strs: Vec<String> = Vec::new();
        let mut i: usize = 0;
        assert(names_of(strs@) =~= Seq::<Seq<char>>::empty());
        while i < module.ports.len()
            invariant
                i <= module.ports.len(),
                pv == module@.ports,
                pv.len() == module.ports.len(),
                names_of(strs@) == Seq::new(i as nat, |j: int| verilog_port(pv[j])),
            decreases module.ports.len() - i,
        {
            let t = Self::gen_port(&module.ports[i]);
            assert(pv[i as int] == module.ports@[i as int]@);
            push_line(&mut strs, t);
            assert(names_of(strs@) =~= Seq::new((i + 1) as nat, |j: int| verilog_port(pv[j])));
            i += 1;
        }
        let mut r = string_of("(\n    ");
        push_str(&mut r, join_strings(&strs, ",\n    ").as_str());
        push_str(&mut r, "\n);");
        r
    }

    /// The declaration of an internal wire or register.
    fn gen_decl(keyword: &str, s: &Signal) -> (r: String)
        ensures
            r@ == verilog_decl(keyword@, s@),
    {
        let width_str = Self::format_width(&s.width);
        let mut r = string_of("    ");
        push_str(&mut r, keyword);
        if width_str.as_str().is_empty() {
            push_str(&mut r, " ");
        } else {
            push_str(&mut r, " ");
            push_str(&mut r, width_str.as_str());
            push_str(&mut r, " ");
        }
        push_str(&mut r, s.name.as_str());
        push_str(&mut r, ";");
        r
    }

    #[verifier::loop_isolation(false)]
    fn gen_module(&self, module: &Module) -> (r: Result<String, String>)
        ensures
            r matches Ok(s) && s@ == verilog_module(module@),
    {
        let ghost m = module@;
        let mut lines: Vec<String> = Vec::new();
        let mut head = string_of("module ");
        push_str(&mut head, module.name.as_str());
        push_str(&mut head, " ");
        push_str(&mut head, self.gen_port_list(module).as_str());
        push_line(&mut lines, head);

        let ghost l0 = names_of(lines@);
        let mut i: usize = 0;
        while i < module.wires.len()
            invariant
                i <= module.wires.len(),
                names_of(lines@) == l0 + Seq::new(
                    i as nat,
                    |j: int| verilog_decl("wire"@, m.wires[j]),
                ),
            decreases module.wires.len() - i,
        {
            push_line(&mut lines, Self::gen_decl("wire", &module.wires[i]));
            assert(Seq::new((i + 1) as nat, |j: int| verilog_decl("wire"@, m.wires[j])) =~= Seq::new(
                i as nat,
                |j: int| verilog_decl("wire"@, m.wires[j]),
            ).push(verilog_decl("wire"@, m.wires[i as int])));
            i += 1;
        }

        let ghost l1 = names_of(lines@);
        let mut i: usize = 0;
        while i < module.regs.len()
            invariant
                i <= module.regs.len(),
                names_of(lines@) == l1 + Seq::new(
                    i as nat,
                    |j: int| verilog_decl("reg"@, m.regs[j]),
                ),
            decreases module.regs.len() - i,
        {
            push_line(&mut lines, Self::gen_decl("reg", &module.regs[i]));
            assert(Seq::new((i + 1) as nat, |j: int| verilog_decl("reg"@, m.regs[j])) =~= Seq::new(
                i as nat,
                |j: int| verilog_decl("reg"@, m.regs[j]),
            ).push(verilog_decl("reg"@, m.regs[i as int])));
            i += 1;
        }

        let ghost l2 = names_of(lines@);
        let mut i: usize = 0;
        while i < module.assigns.len()
            invariant
                i <= module.assigns.len(),
                names_of(lines@) == l2 + Seq::new(
                    i as nat,
                    |j: int| verilog_assign_line(m.assigns[j].target, m.assigns[j].expr),
                ),
            decreases module.assigns.len() - i,
        {
            let a = &module.assigns[i];
            let mut l = string_of("    assign ");
            push_str(&mut l, self.gen_assign_target(&a.target).as_str());
            push_str(&mut l, " = ");
            push_str(&mut l, self.gen_expr(&a.expr).as_str());
            push_str(&mut l, ";");
            push_line(&mut lines, l);
            assert(Seq::new(
                (i + 1) as nat,
                |j: int| verilog_assign_line(m.assigns[j].target, m.assigns[j].expr),
            ) =~= Seq::new(
                i as nat,
                |j: int| verilog_assign_line(m.assigns[j].target, m.assigns[j].expr),
            ).push(verilog_assign_line(m.assigns[i as int].target, m.assigns[i as int].expr)));
            i += 1;
        }

        let ghost l3 = names_of(lines@);
        let mut i: usize = 0;
        while i < module.processes.len()
            invariant
                i <= module.processes.len(),
                names_of(lines@) == l3 + Seq::new(
                    i as nat,
                    |j: int| verilog_process(m.processes[j]),
                ),
            decreases module.processes.len() - i,
        {
            match self.gen_process(&module.processes[i]) {
                Ok(t) => push_line(&mut lines, t),
                Err(e) => return Err(e),
            }
            assert(Seq::new((i + 1) as nat, |j: int| verilog_process(m.processes[j])) =~= Seq::new(
                i as nat,
                |j: int| verilog_process(m.processes[j]),
            ).push(verilog_process(m.processes[i as int])));
            i += 1;
        }

        let ghost l4 = names_of(lines@);
        let mut i: usize = 0;
        while i < module.instances.len()
            invariant
                i <= module.instances.len(),
                names_of(lines@) == l4 + Seq::new(
                    i as nat,
                    |j: int| verilog_instance(m.instances[j]),
                ),
            decreases module.instances.len() - i,
        {
            match self.gen_instance(&module.instances[i]) {
                Ok(t) => push_line(&mut lines, t),
                Err(e) => return Err(e),
            }
            assert(Seq::new((i + 1) as nat, |j: int| verilog_instance(m.instances[j])) =~= Seq::new(
                i as nat,
                |j: int| verilog_instance(m.instances[j]),
            ).push(verilog_instance(m.instances[i as int])));
            i += 1;
        }
        push_line(&mut lines, string_of("endmodule"));
        assert(names_of(lines@) =~= verilog_module_lines(m));
        Ok(join_strings(&lines, "\n"))
    }
}

impl Backend for VerilogBackend {
    /// Every module list can be rendered.
    open spec fn can_generate(&self, modules: Seq<SpecModule>) -> bool {
        true
    }

    /// The modules rendered one after the other, a newline between two.
    fn generate(&self, modules: &[Module]) -> (r: Result<String, String>)
        ensures
            r matches Ok(s) && s@ == verilog_text(modules_view(modules@)),
    {
        let ghost mv = modules_view(modules@);
        let mut output = String::new();
        let mut i: usize = 0;
        while i < modules.len()
            invariant
                i <= modules.len(),
                mv == modules_view(modules@),
                output@ == join(Seq::new(i as nat, |j: int| verilog_module(mv[j])), "\n"@),
            decreases modules.len() - i,
        {
            let ghost before = Seq::new(i as nat, |j: int| verilog_module(mv[j]));
            let ghost after = Seq::new((i + 1) as nat, |j: int| verilog_module(mv[j]));
            assert(after.drop_last() =~= before);
            if i > 0 {
                push_str(&mut output, "\n");
            } else {
                assert(output@ =~= Seq::<char>::empty());
            }
            match self.gen_module(&modules[i]) {
                Ok(t) => push_str(&mut output, t.as_str()),
                Err(e) => return Err(e),
            }
            i += 1;
        }
        Ok(output)
    }
}

} // verus!
