//! VHDL output: an entity and a `Behavioral` architecture per module, with
//! Verilog-style literals converted and clocked processes given the usual
//! `rising_edge` / asynchronous reset template.
use vstd::prelude::*;
use crate::ast::{
    binary_op_of, copy_statements, exprs_view, lemma_concat_view, lemma_if_view, modules_view, named_exprs_view,
    opt_text, stmts_view, AssignTarget, BinaryOp, Expr, Instance, Module, Port, PortDir, PortMap,
    Process, Sensitivity, Signal, SpecAssignTarget, SpecExpr, SpecInstance, SpecModule, SpecPort,
    SpecPortMap, SpecProcess, SpecSensitivity, SpecSignal, SpecStatement, Statement, UnaryOp,
};
use crate::backend::Backend;
use crate::text::{
    append_names, chars_of, contains_name, join, join_strings, lemma_join_ends, lemma_names_push,
    names_of, nat_text, parse_i64, parse_usize, push_char, push_str, push_u64, push_usize, spec_parse_i64,
    spec_parse_usize, string_is, string_of, sub_string,
};

verus! {

broadcast use lemma_concat_view, lemma_if_view;

/// The VHDL code generator.
pub struct VhdlBackend;

// ---------------------------------------------------------------------------
// Types and literals
// ---------------------------------------------------------------------------

/// A width that `get_type` can render: not a number equal to 0.
pub open spec fn width_ok(w: Option<Seq<char>>) -> bool {
    match w {
        Some(t) => spec_parse_usize(t) != Some(0usize),
        None => true,
    }
}

/// `STD_LOGIC` for no width or width 1, else a vector `n-1 downto 0`; a
/// width that is not a number `w` gives `w - 1 downto 0`.
pub open spec fn vhdl_type(w: Option<Seq<char>>) -> Seq<char> {
    match w {
        None => "STD_LOGIC"@,
        Some(t) => match spec_parse_usize(t) {
            Some(n) => if n == 1 {
                "STD_LOGIC"@
            } else {
                "STD_LOGIC_VECTOR("@ + nat_text((n - 1) as nat) + " downto 0)"@
            },
            None => "STD_LOGIC_VECTOR("@ + t + " - 1 downto 0)"@,
        },
    }
}

/// The first index `j >= i` with `s[j] == c`, or `s.len()`.
pub open spec fn find_char(s: Seq<char>, c: char, i: int) -> int
    decreases s.len() - i,
{
    if i < 0 || i >= s.len() {
        s.len() as int
    } else if s[i] == c {
        i
    } else {
        find_char(s, c, i + 1)
    }
}

/// Where the radix quote of a literal such as `8'b1010` is (`s.len()` when
/// it has none).
pub open spec fn quote_at(s: Seq<char>) -> int {
    find_char(s, '\'', 0)
}

/// A literal that the converter can cut: the character right after its
/// first quote, if any, is ASCII.
pub open spec fn literal_ok(s: Seq<char>) -> bool {
    let q = quote_at(s);
    q + 1 < s.len() ==> (s[q + 1] as u32) < 128
}

pub open spec fn all_are(s: Seq<char>, c: char) -> bool {
    forall|i: int| 0 <= i < s.len() ==> s[i] == c
}

/// `digits` with zeros in front up to `width` characters.
pub open spec fn zero_pad(digits: Seq<char>, width: int) -> Seq<char> {
    Seq::new(if width > digits.len() {
        (width - digits.len()) as nat
    } else {
        0
    }, |i: int| '0') + digits
}

pub open spec fn others(bit: Seq<char>) -> Seq<char> {
    "(others => '"@ + bit + "')"@
}

/// A literal in VHDL. With a radix (`<width>'<radix><digits>`, the width
/// 32 when it is not a number): binary becomes a bit or a bit string of the
/// literal's width (zeros added in front of shorter digits), hex `x"..."`,
/// octal `o"..."`, decimal a bit or `to_unsigned`; all-zero values become
/// `(others => '0')`, and binary digits that are all ones across the whole
/// width `(others => '1')`. Without a radix, the integers 0 and 1 become bits.
/// Anything else is kept.
pub open spec fn vhdl_literal(s: Seq<char>) -> Seq<char> {
    let q = quote_at(s);
    if q < s.len() {
        let rv = s.subrange(q + 1, s.len() as int);
        if rv.len() == 0 {
            s
        } else {
            let r = rv[0];
            let val = rv.drop_first();
            let width: usize = match spec_parse_usize(s.subrange(0, q)) {
                Some(n) => n,
                None => 32usize,
            };
            if r == 'b' || r == 'B' {
                if width == 1 {
                    "'"@ + val + "'"@
                } else if all_are(val, '0') {
                    others("0"@)
                } else if all_are(val, '1') && val.len() == width {
                    others("1"@)
                } else {
                    "\""@ + zero_pad(val, width as int) + "\""@
                }
            } else if r == 'h' || r == 'H' {
                if all_are(val, '0') {
                    others("0"@)
                } else {
                    "x\""@ + val + "\""@
                }
            } else if r == 'd' || r == 'D' {
                if width == 1 {
                    "'"@ + val + "'"@
                } else if val == "0"@ {
                    others("0"@)
                } else {
                    "std_logic_vector(to_unsigned("@ + val + ", "@ + nat_text(width as nat) + "))"@
                }
            } else if r == 'o' || r == 'O' {
                if all_are(val, '0') {
                    others("0"@)
                } else {
                    "o\""@ + val + "\""@
                }
            } else {
                s
            }
        }
    } else {
        match spec_parse_i64(s) {
            Some(v) => if v == 0 {
                "'0'"@
            } else if v == 1 {
                "'1'"@
            } else {
                s
            },
            None => s,
        }
    }
}

/// The width of a literal with a radix, when it is a number.
pub open spec fn literal_width(s: Seq<char>) -> Option<usize> {
    let q = quote_at(s);
    if q < s.len() {
        spec_parse_usize(s.subrange(0, q))
    } else {
        None
    }
}

/// The digits of a literal with a radix (`"0"` when there are none), or the
/// whole text without one.
pub open spec fn literal_value(s: Seq<char>) -> Seq<char> {
    let q = quote_at(s);
    if q < s.len() {
        let rv = s.subrange(q + 1, s.len() as int);
        if rv.len() > 1 {
            rv.drop_first()
        } else {
            "0"@
        }
    } else {
        s
    }
}

/// The value of a digit character: `0`-`9`, then `a`-`f` (either case) as
/// 10 to 15; 16 for any other character.
pub open spec fn digit_of(c: char) -> int {
    if '0' <= c && c <= '9' {
        c as int - '0' as int
    } else if 'a' <= c && c <= 'f' {
        c as int - 'a' as int + 10
    } else if 'A' <= c && c <= 'F' {
        c as int - 'A' as int + 10
    } else {
        16
    }
}

/// The base that a radix letter names: binary, octal, decimal, hex; 0 for
/// any other character.
pub open spec fn base_of(r: char) -> int {
    if r == 'b' || r == 'B' {
        2
    } else if r == 'o' || r == 'O' {
        8
    } else if r == 'd' || r == 'D' {
        10
    } else if r == 'h' || r == 'H' {
        16
    } else {
        0
    }
}

/// The number that the digits `d` spell in `base`, or `None` when one of
/// them is not a digit of that base.
pub open spec fn radix_value(d: Seq<char>, base: int) -> Option<int>
    decreases d.len(),
{
    if d.len() == 0 {
        Some(0)
    } else {
        match radix_value(d.drop_last(), base) {
            None => None,
            Some(v) => if digit_of(d.last()) < base {
                Some(v * base + digit_of(d.last()))
            } else {
                None
            },
        }
    }
}

/// The number of a literal with a radix whose digits are digits of that
/// radix and whose value fits in a `u64`.
pub open spec fn literal_number(s: Seq<char>) -> Option<u64> {
    let q = quote_at(s);
    if q < s.len() && q + 1 < s.len() && base_of(s[q + 1]) > 0 {
        match radix_value(s.subrange(q + 2, s.len() as int), base_of(s[q + 1])) {
            Some(v) => if v <= u64::MAX {
                Some(v as u64)
            } else {
                None
            },
            None => None,
        }
    } else {
        None
    }
}

/// The value operand of `to_unsigned` for a literal: the decimal number of a
/// literal with a radix, or else its digits as they are written.
pub open spec fn unsigned_value(s: Seq<char>) -> Seq<char> {
    match literal_number(s) {
        Some(v) => nat_text(v as nat),
        None => literal_value(s),
    }
}

// ---------------------------------------------------------------------------
// Expressions
// ---------------------------------------------------------------------------

/// `(i)`, or `(h downto l)` when the bounds differ.
pub open spec fn vhdl_range(h: usize, l: usize) -> Seq<char> {
    if h == l {
        "("@ + nat_text(h as nat) + ")"@
    } else {
        "("@ + nat_text(h as nat) + " downto "@ + nat_text(l as nat) + ")"@
    }
}

pub open spec fn vhdl_target(t: SpecAssignTarget) -> Seq<char> {
    match t {
        SpecAssignTarget::Signal(n, None) => n,
        SpecAssignTarget::Signal(n, Some(i)) => n + "("@ + nat_text(i as nat) + ")"@,
        SpecAssignTarget::Slice(n, h, l) => n + vhdl_range(h, l),
    }
}

pub open spec fn is_arith(op: BinaryOp) -> bool {
    op == BinaryOp::Add || op == BinaryOp::Sub || op == BinaryOp::Mul
}

pub open spec fn vhdl_op(op: BinaryOp) -> Seq<char> {
    match op {
        BinaryOp::And => "and"@,
        BinaryOp::Or => "or"@,
        BinaryOp::Xor => "xor"@,
        BinaryOp::Add => "+"@,
        BinaryOp::Sub => "-"@,
        BinaryOp::Mul => "*"@,
        BinaryOp::Eq => "="@,
        BinaryOp::Ne => "/="@,
        BinaryOp::Lt => "<"@,
        BinaryOp::Le => "<="@,
        BinaryOp::Gt => ">"@,
        BinaryOp::Ge => ">="@,
        BinaryOp::Shl => "shift_left"@,
        BinaryOp::Shr => "shift_right"@,
    }
}

/// An expression: arithmetic goes through `unsigned` and back, shifts use
/// `shift_left` / `shift_right`, a conditional is `t when c else f`.
pub open spec fn vhdl_expr(e: SpecExpr) -> Seq<char>
    decreases e, 1int, 0int,
{
    match e {
        SpecExpr::Literal(s) => vhdl_literal(s),
        SpecExpr::Ident(s) => s,
        SpecExpr::Slice(b, h, l) => vhdl_expr(*b) + vhdl_range(h, l),
        SpecExpr::Concat(v) => "("@ + join(vhdl_exprs(v, v.len() as int), " & "@) + ")"@,
        SpecExpr::UnaryOp(_, b) => "not "@ + vhdl_expr(*b),
        SpecExpr::BinaryOp(op, a, b) => if is_arith(op) {
            "std_logic_vector("@ + vhdl_unsigned(*a) + " "@ + vhdl_op(op) + " "@ + vhdl_unsigned(*b)
                + ")"@
        } else if op == BinaryOp::Shl || op == BinaryOp::Shr {
            "std_logic_vector("@ + vhdl_op(op) + "(unsigned("@ + vhdl_expr(*a) + "), "@ + vhdl_expr(
                *b,
            ) + "))"@
        } else {
            "("@ + vhdl_expr(*a) + " "@ + vhdl_op(op) + " "@ + vhdl_expr(*b) + ")"@
        },
        SpecExpr::Cond(c, t, f) => vhdl_expr(*t) + " when "@ + vhdl_expr(*c) + " else "@ + vhdl_expr(
            *f,
        ),
    }
}

/// An expression as an `unsigned` operand of arithmetic.
pub open spec fn vhdl_unsigned(e: SpecExpr) -> Seq<char>
    decreases e, 2int, 0int,
{
    match e {
        SpecExpr::Ident(s) => "unsigned("@ + s + ")"@,
        SpecExpr::Literal(s) => "to_unsigned("@ + unsigned_value(s) + ", "@ + nat_text(
            (match literal_width(s) {
                Some(n) => n,
                None => 32usize,
            }) as nat,
        ) + ")"@,
        SpecExpr::BinaryOp(op, a, b) => if is_arith(op) {
            "("@ + vhdl_unsigned(*a) + " "@ + vhdl_op(op) + " "@ + vhdl_unsigned(*b) + ")"@
        } else {
            "unsigned("@ + vhdl_expr(e) + ")"@
        },
        _ => "unsigned("@ + vhdl_expr(e) + ")"@,
    }
}

/// The first `n` expressions of `v`.
pub open spec fn vhdl_exprs(v: Seq<SpecExpr>, n: int) -> Seq<Seq<char>>
    decreases v, 0int, n,
{
    if n <= 0 || n > v.len() {
        Seq::empty()
    } else {
        vhdl_exprs(v, n - 1).push(vhdl_expr(v[n - 1]))
    }
}

/// Every literal of `e` can be converted.
pub open spec fn expr_ok(e: SpecExpr) -> bool
    decreases e, 0int,
{
    match e {
        SpecExpr::Literal(s) => literal_ok(s),
        SpecExpr::Ident(_) => true,
        SpecExpr::Slice(b, _, _) => expr_ok(*b),
        SpecExpr::Concat(v) => exprs_ok(v, v.len() as int),
        SpecExpr::UnaryOp(_, b) => expr_ok(*b),
        SpecExpr::BinaryOp(_, a, b) => expr_ok(*a) && expr_ok(*b),
        SpecExpr::Cond(c, t, f) => expr_ok(*c) && expr_ok(*t) && expr_ok(*f),
    }
}

pub open spec fn exprs_ok(v: Seq<SpecExpr>, n: int) -> bool
    decreases v, n,
{
    if n <= 0 || n > v.len() {
        true
    } else {
        exprs_ok(v, n - 1) && expr_ok(v[n - 1])
    }
}

// ---------------------------------------------------------------------------
// Statements and processes
// ---------------------------------------------------------------------------

/// The lines of a statement at indentation `ind`; a nested block is one
/// more element, indented by four more spaces.
pub open spec fn vhdl_stmt_lines(s: SpecStatement, ind: Seq<char>) -> Seq<Seq<char>>
    decreases s, 0int,
{
    match s {
        SpecStatement::BlockWrite(t, e) => seq![
            ind + vhdl_target(t) + " := "@ + vhdl_expr(e) + ";"@,
        ],
        SpecStatement::NonBlockWrite(t, e) => seq![
            ind + vhdl_target(t) + " <= "@ + vhdl_expr(e) + ";"@,
        ],
        SpecStatement::If(c, a, b) => {
            let inner = ind + "    "@;
            let then_text = block_text(vhdl_stmts_lines(a, a.len() as int, inner));
            let else_part = if b.len() == 0 {
                Seq::empty()
            } else {
                seq![ind + "else"@, block_text(vhdl_stmts_lines(b, b.len() as int, inner))]
            };
            seq![ind + "if "@ + vhdl_expr(c) + " then"@, then_text] + else_part + seq![
                ind + "end if;"@,
            ]
        },
    }
}

/// The lines of the first `n` statements of `v`.
pub open spec fn vhdl_stmts_lines(v: Seq<SpecStatement>, n: int, ind: Seq<char>) -> Seq<
    Seq<char>,
>
    decreases v, n,
{
    if n <= 0 || n > v.len() {
        Seq::empty()
    } else {
        vhdl_stmts_lines(v, n - 1, ind) + vhdl_stmt_lines(v[n - 1], ind)
    }
}

/// Lines joined by newlines, each ending with one; nothing for no lines.
pub open spec fn block_text(lines: Seq<Seq<char>>) -> Seq<char> {
    if lines.len() == 0 {
        Seq::empty()
    } else {
        join(lines, "\n"@) + "\n"@
    }
}

pub open spec fn vhdl_statements(v: Seq<SpecStatement>, ind: Seq<char>) -> Seq<char> {
    block_text(vhdl_stmts_lines(v, v.len() as int, ind))
}

pub open spec fn stmt_ok(s: SpecStatement) -> bool
    decreases s, 0int,
{
    match s {
        SpecStatement::BlockWrite(_, e) => expr_ok(e),
        SpecStatement::NonBlockWrite(_, e) => expr_ok(e),
        SpecStatement::If(c, a, b) => expr_ok(c) && stmts_ok(a, a.len() as int) && stmts_ok(
            b,
            b.len() as int,
        ),
    }
}

pub open spec fn stmts_ok(v: Seq<SpecStatement>, n: int) -> bool
    decreases v, n,
{
    if n <= 0 || n > v.len() {
        true
    } else {
        stmts_ok(v, n - 1) && stmt_ok(v[n - 1])
    }
}

/// Whether `e` tests the reset signal `rst`: `rst`, `not rst`, `rst = 1`,
/// `rst = 0` or `rst /= 0` (either side).
pub open spec fn is_reset(e: SpecExpr, rst: Seq<char>) -> bool {
    match e {
        SpecExpr::Ident(s) => s == rst,
        SpecExpr::UnaryOp(UnaryOp::Not, b) => match *b {
            SpecExpr::Ident(s) => s == rst,
            _ => false,
        },
        SpecExpr::BinaryOp(BinaryOp::Eq, a, b) => match (*a, *b) {
            (SpecExpr::Ident(s), SpecExpr::Literal(lit)) => s == rst && (lit == "1"@ || lit == "0"@),
            (SpecExpr::Literal(lit), SpecExpr::Ident(s)) => s == rst && (lit == "1"@ || lit == "0"@),
            _ => false,
        },
        SpecExpr::BinaryOp(BinaryOp::Ne, a, b) => match (*a, *b) {
            (SpecExpr::Ident(s), SpecExpr::Literal(lit)) => s == rst && lit == "0"@,
            (SpecExpr::Literal(lit), SpecExpr::Ident(s)) => s == rst && lit == "0"@,
            _ => false,
        },
        _ => false,
    }
}

/// The reset branch and the clocked branch of a process body: with a reset
/// signal, a body that is one `if` on the reset gives its two branches;
/// otherwise everything is clocked.
pub open spec fn partition(body: Seq<SpecStatement>, rst: Option<Seq<char>>) -> (
    Seq<SpecStatement>,
    Seq<SpecStatement>,
) {
    match rst {
        None => (Seq::empty(), body),
        Some(r) => if body.len() == 1 {
            match body[0] {
                SpecStatement::If(c, a, b) => if is_reset(c, r) {
                    (a, b)
                } else {
                    (Seq::empty(), body)
                },
                _ => (Seq::empty(), body),
            }
        } else {
            (Seq::empty(), body)
        },
    }
}

/// The signal names of `ss` whose edge kind `kind` picks (0 rising, 1
/// falling, 2 level), in order.
pub open spec fn sens_of_kind(ss: Seq<SpecSensitivity>, kind: int) -> Seq<Seq<char>>
    decreases ss.len(),
{
    if ss.len() == 0 {
        Seq::empty()
    } else {
        let rest = sens_of_kind(ss.drop_last(), kind);
        match ss.last() {
            SpecSensitivity::PosEdge(n) => if kind == 0 {
                rest.push(n)
            } else {
                rest
            },
            SpecSensitivity::NegEdge(n) => if kind == 1 {
                rest.push(n)
            } else {
                rest
            },
            SpecSensitivity::Level(n) => if kind == 2 {
                rest.push(n)
            } else {
                rest
            },
        }
    }
}

/// The body of a clocked process: an `if` on the clock edge, after an `if`
/// on the asynchronous reset when there is one.
pub open spec fn clocked_body(
    pos: Seq<Seq<char>>,
    neg: Seq<Seq<char>>,
    body: Seq<SpecStatement>,
) -> Seq<char> {
    let clk = if pos.len() > 0 {
        pos[0]
    } else {
        neg[0]
    };
    let rst: Option<Seq<char>> = if pos.len() >= 2 {
        Some(pos[1])
    } else if neg.len() > 0 && pos.len() > 0 {
        Some(neg[0])
    } else {
        None
    };
    let clock_cond = if pos.contains(clk) {
        "rising_edge("@ + clk + ")"@
    } else {
        "falling_edge("@ + clk + ")"@
    };
    let parts = partition(body, rst);
    let ind = "        "@;
    let inner = "            "@;
    let head = match rst {
        Some(r) => {
            let rst_cond = if pos.contains(r) {
                r + " = '1'"@
            } else {
                r + " = '0'"@
            };
            seq![ind + "if "@ + rst_cond + " then"@] + (if parts.0.len() > 0 {
                seq![vhdl_statements(parts.0, inner)]
            } else {
                seq![inner + "null; -- reset branch"@]
            }) + seq![ind + "elsif "@ + clock_cond + " then"@]
        },
        None => seq![ind + "if "@ + clock_cond + " then"@],
    };
    join(
        head + (if parts.1.len() > 0 {
            seq![vhdl_statements(parts.1, inner)]
        } else {
            seq![inner + "null; -- clocked branch"@]
        }) + seq![ind + "end if;"@],
        "\n"@,
    )
}

/// A process: its sensitivity list (rising edges, then falling edges, then
/// levels), and a clocked or combinational body.
pub open spec fn vhdl_process(p: SpecProcess) -> Seq<char> {
    let pos = sens_of_kind(p.sensitivity, 0);
    let neg = sens_of_kind(p.sensitivity, 1);
    let lvl = sens_of_kind(p.sensitivity, 2);
    let body = if pos.len() > 0 || neg.len() > 0 {
        clocked_body(pos, neg, p.body)
    } else {
        vhdl_statements(p.body, "        "@)
    };
    "    process("@ + join(pos + neg + lvl, ", "@) + ")\n    begin\n"@ + body + (if body.len()
        == 0 {
        Seq::empty()
    } else {
        "\n"@
    }) + "    end process;"@
}

// ---------------------------------------------------------------------------
// Instances and modules
// ---------------------------------------------------------------------------

/// A comma after each item but the last of `n`.
pub open spec fn comma(i: int, n: int) -> Seq<char> {
    if i == n - 1 {
        Seq::empty()
    } else {
        ","@
    }
}

pub open spec fn vhdl_connections(pm: SpecPortMap) -> Seq<Seq<char>> {
    match pm {
        SpecPortMap::ByName(v) => Seq::new(
            v.len(),
            |i: int| "            "@ + v[i].0 + " => "@ + vhdl_expr(v[i].1) + comma(i, v.len() as int),
        ),
        SpecPortMap::ByPosition(v) => Seq::new(
            v.len(),
            |i: int| "            "@ + vhdl_expr(v[i]) + comma(i, v.len() as int),
        ),
    }
}

pub open spec fn connections_ok(pm: SpecPortMap) -> bool {
    match pm {
        SpecPortMap::ByName(v) => forall|i: int| 0 <= i < v.len() ==> expr_ok(#[trigger] v[i].1),
        SpecPortMap::ByPosition(v) => forall|i: int| 0 <= i < v.len() ==> expr_ok(#[trigger] v[i]),
    }
}

pub open spec fn vhdl_instance(inst: SpecInstance) -> Seq<char> {
    join(
        seq![
            "    "@ + inst.instance_name + ": entity work."@ + inst.module_name,
            "        port map ("@,
        ] + vhdl_connections(inst.port_map) + seq!["        );"@],
        "\n"@,
    )
}

pub open spec fn vhdl_dir(d: PortDir) -> Seq<char> {
    match d {
        PortDir::Input => "in"@,
        PortDir::Output => "out"@,
        PortDir::Inout => "inout"@,
    }
}

/// The entity's port clause, or nothing for a module without ports.
pub open spec fn vhdl_port_lines(ports: Seq<SpecPort>) -> Seq<Seq<char>> {
    if ports.len() == 0 {
        Seq::empty()
    } else {
        seq!["    port ("@] + Seq::new(
            ports.len(),
            |i: int|
                "        "@ + ports[i].name + " : "@ + vhdl_dir(ports[i].direction) + " "@ + vhdl_type(
                    ports[i].width,
                ) + (if i == ports.len() - 1 {
                    Seq::empty()
                } else {
                    ";"@
                }),
        ) + seq!["    );"@]
    }
}

pub open spec fn vhdl_signal(s: SpecSignal) -> Seq<char> {
    "    signal "@ + s.name + " : "@ + vhdl_type(s.width) + ";"@
}

/// The lines of a module: library clauses, the entity, then the
/// architecture with its signals, concurrent assignments, processes and
/// instances.
pub open spec fn vhdl_module_lines(m: SpecModule) -> Seq<Seq<char>> {
    seq![
        "library IEEE;"@,
        "use IEEE.STD_LOGIC_1164.ALL;"@,
        "use IEEE.NUMERIC_STD.ALL;"@,
        Seq::empty(),
        "entity "@ + m.name + " is"@,
    ] + vhdl_port_lines(m.ports) + seq![
        "end "@ + m.name + ";"@,
        Seq::empty(),
        "architecture Behavioral of "@ + m.name + " is"@,
    ] + Seq::new(m.wires.len(), |i: int| vhdl_signal(m.wires[i])) + Seq::new(
        m.regs.len(),
        |i: int| vhdl_signal(m.regs[i]),
    ) + seq!["begin"@] + Seq::new(
        m.assigns.len(),
        |i: int|
            "    "@ + vhdl_target(m.assigns[i].target) + " <= "@ + vhdl_expr(m.assigns[i].expr)
                + ";"@,
    ) + Seq::new(m.processes.len(), |i: int| vhdl_process(m.processes[i])) + Seq::new(
        m.instances.len(),
        |i: int| vhdl_instance(m.instances[i]),
    ) + seq!["end Behavioral;"@]
}

pub open spec fn vhdl_module(m: SpecModule) -> Seq<char> {
    join(vhdl_module_lines(m), "\n"@)
}

/// A module that the generator can render: no width is the number 0 and
/// every literal can be converted.
pub open spec fn module_ok(m: SpecModule) -> bool {
    &&& forall|i: int| 0 <= i < m.ports.len() ==> width_ok(#[trigger] m.ports[i].width)
    &&& forall|i: int| 0 <= i < m.wires.len() ==> width_ok(#[trigger] m.wires[i].width)
    &&& forall|i: int| 0 <= i < m.regs.len() ==> width_ok(#[trigger] m.regs[i].width)
    &&& forall|i: int| 0 <= i < m.assigns.len() ==> expr_ok(#[trigger] m.assigns[i].expr)
    &&& forall|i: int|
        0 <= i < m.processes.len() ==> stmts_ok(
            #[trigger] m.processes[i].body,
            m.processes[i].body.len() as int,
        )
    &&& forall|i: int| 0 <= i < m.instances.len() ==> connections_ok(#[trigger] m.instances[i].port_map)
}

/// The VHDL text of a list of modules, a blank line between two.
pub open spec fn vhdl_text(ms: Seq<SpecModule>) -> Seq<char> {
    join(Seq::new(ms.len(), |i: int| vhdl_module(ms[i])), "\n\n"@)
}

/// A binary expression is written in VHDL with the operator of the same
/// meaning. The bitwise `and`, `or`, `xor` and the comparisons `<`, `>`,
/// `<=`, `>=` keep their HAL spelling, `==` becomes `=` and `!=` becomes
/// `/=`, between the two operands in parentheses; `+`, `-` and `*` act on
/// the operands as `unsigned` numbers and convert back to
/// `std_logic_vector`; `<<` and `>>` become `shift_left` and `shift_right`
/// of the first operand as `unsigned` by the second. Different operators are
/// written differently.
pub proof fn lemma_vhdl_operators(s: Seq<char>, a: SpecExpr, b: SpecExpr)
    requires
        binary_op_of(s) is Some,
    ensures
        (s == "+"@ || s == "-"@ || s == "*"@) ==> vhdl_expr(
            SpecExpr::BinaryOp(binary_op_of(s)->Some_0, Box::new(a), Box::new(b)),
        ) == "std_logic_vector("@ + vhdl_unsigned(a) + " "@ + s + " "@ + vhdl_unsigned(b) + ")"@,
        (s == "<<"@ || s == ">>"@) ==> vhdl_expr(
            SpecExpr::BinaryOp(binary_op_of(s)->Some_0, Box::new(a), Box::new(b)),
        ) == "std_logic_vector("@ + (if s == "<<"@ {
            "shift_left"@
        } else {
            "shift_right"@
        }) + "(unsigned("@ + vhdl_expr(a) + "), "@ + vhdl_expr(b) + "))"@,
        !(s == "+"@ || s == "-"@ || s == "*"@ || s == "<<"@ || s == ">>"@) ==> vhdl_expr(
            SpecExpr::BinaryOp(binary_op_of(s)->Some_0, Box::new(a), Box::new(b)),
        ) == "("@ + vhdl_expr(a) + " "@ + (if s == "=="@ {
            "="@
        } else if s == "!="@ {
            "/="@
        } else {
            s
        }) + " "@ + vhdl_expr(b) + ")"@,
        forall|x: BinaryOp, y: BinaryOp|
            #![trigger vhdl_op(x), vhdl_op(y)]
            vhdl_op(x) == vhdl_op(y) ==> x == y,
{
    reveal_strlit("!=");
    reveal_strlit("*");
    reveal_strlit("+");
    reveal_strlit("-");
    reveal_strlit("/=");
    reveal_strlit("<");
    reveal_strlit("<<");
    reveal_strlit("<=");
    reveal_strlit("=");
    reveal_strlit("==");
    reveal_strlit(">");
    reveal_strlit(">=");
    reveal_strlit(">>");
    reveal_strlit("and");
    reveal_strlit("or");
    reveal_strlit("shift_left");
    reveal_strlit("shift_right");
    reveal_strlit("xor");
    assert("!="@.len() == 2 && "!="@[0] == '!' && "!="@.last() == '=');
    assert("*"@.len() == 1 && "*"@[0] == '*' && "*"@.last() == '*');
    assert("+"@.len() == 1 && "+"@[0] == '+' && "+"@.last() == '+');
    assert("-"@.len() == 1 && "-"@[0] == '-' && "-"@.last() == '-');
    assert("/="@.len() == 2 && "/="@[0] == '/' && "/="@.last() == '=');
    assert("<"@.len() == 1 && "<"@[0] == '<' && "<"@.last() == '<');
    assert("<<"@.len() == 2 && "<<"@[0] == '<' && "<<"@.last() == '<');
    assert("<="@.len() == 2 && "<="@[0] == '<' && "<="@.last() == '=');
    assert("="@.len() == 1 && "="@[0] == '=' && "="@.last() == '=');
    assert("=="@.len() == 2 && "=="@[0] == '=' && "=="@.last() == '=');
    assert(">"@.len() == 1 && ">"@[0] == '>' && ">"@.last() == '>');
    assert(">="@.len() == 2 && ">="@[0] == '>' && ">="@.last() == '=');
    assert(">>"@.len() == 2 && ">>"@[0] == '>' && ">>"@.last() == '>');
    assert("and"@.len() == 3 && "and"@[0] == 'a' && "and"@.last() == 'd');
    assert("or"@.len() == 2 && "or"@[0] == 'o' && "or"@.last() == 'r');
    assert("shift_left"@.len() == 10 && "shift_left"@[0] == 's' && "shift_left"@.last() == 't');
    assert("shift_right"@.len() == 11 && "shift_right"@[0] == 's' && "shift_right"@.last() == 't');
    assert("xor"@.len() == 3 && "xor"@[0] == 'x' && "xor"@.last() == 'r');
}

/// The VHDL text of a module starts with the `library IEEE;` clause and
/// ends with `end Behavioral;`.
pub proof fn lemma_vhdl_module_frame(m: SpecModule)
    ensures
        vhdl_module(m).take("library IEEE;"@.len() as int) == "library IEEE;"@,
        vhdl_module(m).skip(vhdl_module(m).len() - "end Behavioral;"@.len()) == "end Behavioral;"@,
{
    let ls = vhdl_module_lines(m);
    lemma_join_ends(ls, "\n"@);
    assert(ls[0] == "library IEEE;"@);
    assert(ls.last() == "end Behavioral;"@);
}

// ---------------------------------------------------------------------------
// Lemmas on the renderable inputs
// ---------------------------------------------------------------------------

proof fn lemma_exprs_ok(v: Seq<SpecExpr>, n: int, i: int)
    requires
        exprs_ok(v, n),
        0 <= i < n <= v.len(),
    ensures
        expr_ok(v[i]),
    decreases n,
{
    if i < n - 1 {
        lemma_exprs_ok(v, n - 1, i);
    }
}

proof fn lemma_stmts_ok(v: Seq<SpecStatement>, n: int, i: int)
    requires
        stmts_ok(v, n),
        0 <= i < n <= v.len(),
    ensures
        stmt_ok(v[i]),
    decreases n,
{
    if i < n - 1 {
        lemma_stmts_ok(v, n - 1, i);
    }
}

proof fn lemma_partition_ok(body: Seq<SpecStatement>, rst: Option<Seq<char>>)
    requires
        stmts_ok(body, body.len() as int),
    ensures
        stmts_ok(partition(body, rst).0, partition(body, rst).0.len() as int),
        stmts_ok(partition(body, rst).1, partition(body, rst).1.len() as int),
{
    assert(stmts_ok(Seq::<SpecStatement>::empty(), 0));
    if body.len() == 1 {
        lemma_stmts_ok(body, 1, 0);
    }
}

// ---------------------------------------------------------------------------
// The generator
// ---------------------------------------------------------------------------

/// Pushes `line` at the end of `out`.
fn push_line(out: &mut Vec<String>, line: String)
    ensures
        names_of(final(out)@) == names_of(old(out)@).push(line@),
{
    proof {
        lemma_names_push(out@, line);
    }
    out.push(line);
}

/// The index of the first quote of `cs`, or its length.
fn find_quote(cs: &Vec<char>) -> (q: usize)
    ensures
        q == quote_at(cs@),
{
    let mut i: usize = 0;
    while i < cs.len()
        invariant
            i <= cs.len(),
            quote_at(cs@) == find_char(cs@, '\'', i as int),
        decreases cs.len() - i,
    {
        if cs[i] == '\'' {
            return i;
        }
        i += 1;
    }
    i
}

/// Whether every character of `s` is `c`.
fn all_same(s: &String, c: char) -> (b: bool)
    ensures
        b == all_are(s@, c),
{
    let cs = chars_of(s.as_str());
    let mut i: usize = 0;
    while i < cs.len()
        invariant
            i <= cs.len(),
            cs@ == s@,
            forall|j: int| 0 <= j < i ==> s@[j] == c,
        decreases cs.len() - i,
    {
        if cs[i] != c {
            return false;
        }
        i += 1;
    }
    true
}

fn digit_value_of(c: char) -> (d: u64)
    ensures
        d == digit_of(c),
{
    if '0' <= c && c <= '9' {
        (c as u32 - '0' as u32) as u64
    } else if 'a' <= c && c <= 'f' {
        (c as u32 - 'a' as u32 + 10) as u64
    } else if 'A' <= c && c <= 'F' {
        (c as u32 - 'A' as u32 + 10) as u64
    } else {
        16
    }
}

proof fn lemma_radix_value_grows(d: Seq<char>, k: int, base: int)
    requires
        0 <= k <= d.len(),
        base >= 2,
        radix_value(d.take(k), base) is Some,
        radix_value(d, base) is Some,
    ensures
        radix_value(d.take(k), base)->Some_0 <= radix_value(d, base)->Some_0,
        radix_value(d.take(k), base)->Some_0 >= 0,
    decreases d.len() - k,
{
    if k < d.len() {
        let t = d.take(k + 1);
        assert(t.drop_last() =~= d.take(k));
        assert(t.last() == d[k]);
        lemma_radix_value_nonneg(d.take(k), base);
        let v = radix_value(d.take(k), base)->Some_0;
        let dg = digit_of(d[k]);
        assert(0 <= dg);
        assert(v * base + dg >= v) by (nonlinear_arith)
            requires
                v >= 0,
                base >= 2,
                dg >= 0,
        ;
        if radix_value(t, base) is None {
            lemma_none_extends(d, k + 1, base);
        }
        lemma_radix_value_grows(d, k + 1, base);
    } else {
        assert(d.take(k) =~= d);
        lemma_radix_value_nonneg(d, base);
    }
}

proof fn lemma_radix_value_nonneg(d: Seq<char>, base: int)
    requires
        base >= 2,
    ensures
        radix_value(d, base) matches Some(v) ==> v >= 0,
    decreases d.len(),
{
    if d.len() > 0 {
        lemma_radix_value_nonneg(d.drop_last(), base);
        if let Some(v) = radix_value(d.drop_last(), base) {
            let dg = digit_of(d.last());
            assert(0 <= dg);
            assert(v * base + dg >= 0) by (nonlinear_arith)
                requires
                    v >= 0,
                    base >= 2,
                    dg >= 0,
            ;
        }
    }
}

/// The number of a literal with a radix, when its digits are digits of the
/// radix and the value fits in a `u64`.
fn literal_number_of(s: &str) -> (r: Option<u64>)
    ensures
        r == literal_number(s@),
{
    let cs = chars_of(s);
    let q = find_quote(&cs);
    if !(q < cs.len() && q + 1 < cs.len()) {
        return None;
    }
    let r = cs[q + 1];
    let base: u64 = if r == 'b' || r == 'B' {
        2
    } else if r == 'o' || r == 'O' {
        8
    } else if r == 'd' || r == 'D' {
        10
    } else if r == 'h' || r == 'H' {
        16
    } else {
        return None;
    };
    let ghost d = cs@.subrange(q + 2, cs@.len() as int);
    let mut acc: u64 = 0;
    let mut i: usize = q + 2;
    assert(d.take(0) =~= Seq::<char>::empty());
    while i < cs.len()
        invariant
            q + 2 <= i <= cs.len(),
            cs@ == s@,
            q == quote_at(s@),
            q + 1 < cs.len(),
            base as int == base_of(cs@[q + 1]),
            d == cs@.subrange(q + 2, cs@.len() as int),
            base >= 2,
            radix_value(d.take(i - (q + 2)), base as int) == Some(acc as int),
        decreases cs.len() - i,
    {
        let ghost k: int = i - (q + 2);
        let ghost t = d.take(k + 1);
        assert(t.drop_last() =~= d.take(k));
        assert(t.last() == cs@[i as int]);
        let dg = digit_value_of(cs[i]);
        if dg >= base {
            proof {
                assert(radix_value(t, base as int) is None);
                lemma_none_extends(d, k + 1, base as int);
            }
            return None;
        }
        let next = match acc.checked_mul(base) {
            Some(m) => m.checked_add(dg),
            None => None,
        };
        match next {
            Some(n) => {
                acc = n;
            },
            None => {
                proof {
                    assert(acc * base + dg > u64::MAX);
                    assert(radix_value(t, base as int) == Some(acc * base + dg));
                    if radix_value(d, base as int) is Some {
                        lemma_radix_value_grows(d, k + 1, base as int);
                    }
                }
                return None;
            },
        }
        i += 1;
    }
    assert(d.take(i - (q + 2)) =~= d);
    Some(acc)
}

proof fn lemma_none_extends(d: Seq<char>, k: int, base: int)
    requires
        0 <= k <= d.len(),
        radix_value(d.take(k), base) is None,
    ensures
        radix_value(d, base) is None,
    decreases d.len() - k,
{
    if k < d.len() {
        assert(d.take(k + 1).drop_last() =~= d.take(k));
        lemma_none_extends(d, k + 1, base);
    } else {
        assert(d.take(k) =~= d);
    }
}

/// `prefix`, then `mid`, then `suffix`.
fn wrap(prefix: &str, mid: &str, suffix: &str) -> (r: String)
    ensures
        r@ == prefix@ + mid@ + suffix@,
{
    let mut r = string_of(prefix);
    push_str(&mut r, mid);
    push_str(&mut r, suffix);
    r
}

fn is_arith_op(op: &BinaryOp) -> (b: bool)
    ensures
        b == is_arith(*op),
{
    match op {
        BinaryOp::Add => true,
        BinaryOp::Sub => true,
        BinaryOp::Mul => true,
        _ => false,
    }
}

fn op_str(op: &BinaryOp) -> (r: &'static str)
    ensures
        r@ == vhdl_op(*op),
{
    match op {
        BinaryOp::And => "and",
        BinaryOp::Or => "or",
        BinaryOp::Xor => "xor",
        BinaryOp::Add => "+",
        BinaryOp::Sub => "-",
        BinaryOp::Mul => "*",
        BinaryOp::Eq => "=",
        BinaryOp::Ne => "/=",
        BinaryOp::Lt => "<",
        BinaryOp::Le => "<=",
        BinaryOp::Gt => ">",
        BinaryOp::Ge => ">=",
        BinaryOp::Shl => "shift_left",
        BinaryOp::Shr => "shift_right",
    }
}

/// `(h)`, or `(h downto l)` when the bounds differ, appended to `s`.
fn push_range(s: &mut String, h: usize, l: usize)
    ensures
        final(s)@ == old(s)@ + vhdl_range(h, l),
{
    push_str(s, "(");
    push_usize(s, h);
    if h != l {
        push_str(s, " downto ");
        push_usize(s, l);
    }
    push_str(s, ")");
}

impl VhdlBackend {
    /// A VHDL code generator.
    pub fn new() -> (r: Self) {
        VhdlBackend
    }

    /// The VHDL type of a declared width.
    fn get_type(&self, width: &Option<String>) -> (r: String)
        requires
            width_ok(opt_text(*width)),
        ensures
            r@ == vhdl_type(opt_text(*width)),
    {
        match width {
            Some(w_str) => match parse_usize(w_str) {
                Some(w) => {
                    if w == 1 {
                        string_of("STD_LOGIC")
                    } else {
                        let mut r = string_of("STD_LOGIC_VECTOR(");
                        push_usize(&mut r, w - 1);
                        push_str(&mut r, " downto 0)");
                        r
                    }
                },
                None => wrap("STD_LOGIC_VECTOR(", w_str.as_str(), " - 1 downto 0)"),
            },
            None => string_of("STD_LOGIC"),
        }
    }

    /// A Verilog-style literal in VHDL.
    fn convert_literal(&self, s: &str) -> (r: String)
        requires
            literal_ok(s@),
        ensures
            r@ == vhdl_literal(s@),
    {
        let cs = chars_of(s);
        let q = find_quote(&cs);
        if q < cs.len() {
            let ghost rv = s@.subrange(q + 1, s@.len() as int);
            if q + 1 == cs.len() {
                assert(rv.len() == 0);
                return string_of(s);
            }
            let radix = cs[q + 1];
            let val_str = sub_string(&cs, q + 2, cs.len());
            assert(val_str@ =~= rv.drop_first());
            assert(rv[0] == radix);
            let width_str = sub_string(&cs, 0, q);
            let width: usize = match parse_usize(&width_str) {
                Some(n) => n,
                None => 32,
            };
            if radix == 'b' || radix == 'B' {
                if width == 1 {
                    wrap("'", val_str.as_str(), "'")
                } else if all_same(&val_str, '0') {
                    wrap("(others => '", "0", "')")
                } else if all_same(&val_str, '1') && cs.len() - (q + 2) == width {
                    wrap("(others => '", "1", "')")
                } else {
                    let mut r = string_of("\"");
                    let n = cs.len() - (q + 2);
                    let mut k: usize = n;
                    while k < width
                        invariant
                            n <= k,
                            k <= width || k == n,
                            r@ == "\""@ + Seq::new((k - n) as nat, |i: int| '0'),
                        decreases width - k,
                    {
                        push_char(&mut r, '0');
                        assert(Seq::new((k + 1 - n) as nat, |i: int| '0') =~= Seq::new(
                            (k - n) as nat,
                            |i: int| '0',
                        ).push('0'));
                        k += 1;
                    }
                    assert(r@ =~= "\""@ + Seq::new(if width > n {
                        (width - n) as nat
                    } else {
                        0
                    }, |i: int| '0'));
                    push_str(&mut r, val_str.as_str());
                    push_str(&mut r, "\"");
                    r
                }
            } else if radix == 'h' || radix == 'H' {
                if all_same(&val_str, '0') {
                    wrap("(others => '", "0", "')")
                } else {
                    wrap("x\"", val_str.as_str(), "\"")
                }
            } else if radix == 'd' || radix == 'D' {
                if width == 1 {
                    wrap("'", val_str.as_str(), "'")
                } else if string_is(&val_str, "0") {
                    wrap("(others => '", "0", "')")
                } else {
                    let mut r = string_of("std_logic_vector(to_unsigned(");
                    push_str(&mut r, val_str.as_str());
                    push_str(&mut r, ", ");
                    push_usize(&mut r, width);
                    push_str(&mut r, "))");
                    r
                }
            } else if radix == 'o' || radix == 'O' {
                if all_same(&val_str, '0') {
                    wrap("(others => '", "0", "')")
                } else {
                    wrap("o\"", val_str.as_str(), "\"")
                }
            } else {
                string_of(s)
            }
        } else {
            match parse_i64(&string_of(s)) {
                Some(v) => {
                    if v == 0 {
                        string_of("'0'")
                    } else if v == 1 {
                        string_of("'1'")
                    } else {
                        string_of(s)
                    }
                },
                None => string_of(s),
            }
        }
    }

    /// The width of a literal with a radix, when it is a number.
    fn extract_width_from_literal(&self, s: &str) -> (r: Option<usize>)
        ensures
            r == literal_width(s@),
    {
        let cs = chars_of(s);
        let q = find_quote(&cs);
        if q < cs.len() {
            parse_usize(&sub_string(&cs, 0, q))
        } else {
            None
        }
    }

    /// The digits of a literal with a radix.
    fn extract_value_from_literal(&self, s: &str) -> (r: String)
        requires
            literal_ok(s@),
        ensures
            r@ == literal_value(s@),
    {
        let cs = chars_of(s);
        let q = find_quote(&cs);
        if q < cs.len() {
            if cs.len() - (q + 1) > 1 {
                let r = sub_string(&cs, q + 2, cs.len());
                assert(r@ =~= s@.subrange(q + 1, s@.len() as int).drop_first());
                r
            } else {
                string_of("0")
            }
        } else {
            string_of(s)
        }
    }

    fn gen_assign_target(&self, target: &AssignTarget) -> (r: String)
        ensures
            r@ == vhdl_target(target@),
    {
        match target {
            AssignTarget::Signal(name, None) => name.clone(),
            AssignTarget::Signal(name, Some(idx)) => {
                let mut r = name.clone();
                push_str(&mut r, "(");
                push_usize(&mut r, *idx);
                push_str(&mut r, ")");
                r
            },
            AssignTarget::Slice(name, high, low) => {
                let mut r = name.clone();
                push_range(&mut r, *high, *low);
                r
            },
        }
    }

    fn gen_expr(&self, expr: &Expr) -> (r: String)
        requires
            expr_ok(expr@),
        ensures
            r@ == vhdl_expr(expr@),
        decreases expr, 1int,
    {
        match expr {
            Expr::Literal(s) => self.convert_literal(s.as_str()),
            Expr::Ident(s) => s.clone(),
            Expr::Slice(e, high, low) => {
                let mut r = self.gen_expr(e);
                push_range(&mut r, *high, *low);
                r
            },
            Expr::Concat(exprs) => {
                let parts = self.gen_exprs(exprs);
                wrap("(", join_strings(&parts, " & ").as_str(), ")")
            },
            Expr::UnaryOp(_, e) => {
                let mut r = string_of("not ");
                push_str(&mut r, self.gen_expr(e).as_str());
                r
            },
            Expr::BinaryOp(op, e1, e2) => {
                if is_arith_op(op) {
                    let mut r = string_of("std_logic_vector(");
                    push_str(&mut r, self.gen_expr_unsigned(e1).as_str());
                    push_str(&mut r, " ");
                    push_str(&mut r, op_str(op));
                    push_str(&mut r, " ");
                    push_str(&mut r, self.gen_expr_unsigned(e2).as_str());
                    push_str(&mut r, ")");
                    r
                } else {
                    let l = self.gen_expr(e1);
                    let rt = self.gen_expr(e2);
                    match op {
                        BinaryOp::Shl => {
                            let mut r = string_of("std_logic_vector(");
                            push_str(&mut r, "shift_left");
                            push_str(&mut r, "(unsigned(");
                            push_str(&mut r, l.as_str());
                            push_str(&mut r, "), ");
                            push_str(&mut r, rt.as_str());
                            push_str(&mut r, "))");
                            r
                        },
                        BinaryOp::Shr => {
                            let mut r = string_of("std_logic_vector(");
                            push_str(&mut r, "shift_right");
                            push_str(&mut r, "(unsigned(");
                            push_str(&mut r, l.as_str());
                            push_str(&mut r, "), ");
                            push_str(&mut r, rt.as_str());
                            push_str(&mut r, "))");
                            r
                        },
                        _ => {
                            let mut r = string_of("(");
                            push_str(&mut r, l.as_str());
                            push_str(&mut r, " ");
                            push_str(&mut r, op_str(op));
                            push_str(&mut r, " ");
                            push_str(&mut r, rt.as_str());
                            push_str(&mut r, ")");
                            r
                        },
                    }
                }
            },
            Expr::Cond(c, t, e) => {
                let mut r = self.gen_expr(t);
                push_str(&mut r, " when ");
                push_str(&mut r, self.gen_expr(c).as_str());
                push_str(&mut r, " else ");
                push_str(&mut r, self.gen_expr(e).as_str());
                r
            },
        }
    }

    /// An expression as an `unsigned` operand of arithmetic.
    fn gen_expr_unsigned(&self, expr: &Expr) -> (r: String)
        requires
            expr_ok(expr@),
        ensures
            r@ == vhdl_unsigned(expr@),
        decreases expr, 2int,
    {
        match expr {
            Expr::Ident(s) => wrap("unsigned(", s.as_str(), ")"),
            Expr::Literal(s) => {
                let width: usize = match self.extract_width_from_literal(s.as_str()) {
                    Some(n) => n,
                    None => 32,
                };
                let mut r = string_of("to_unsigned(");
                match literal_number_of(s.as_str()) {
                    Some(v) => push_u64(&mut r, v),
                    None => push_str(&mut r, self.extract_value_from_literal(s.as_str()).as_str()),
                }
                push_str(&mut r, ", ");
                push_usize(&mut r, width);
                push_str(&mut r, ")");
                r
            },
            Expr::BinaryOp(op, e1, e2) => {
                if is_arith_op(op) {
                    let mut r = string_of("(");
                    push_str(&mut r, self.gen_expr_unsigned(e1).as_str());
                    push_str(&mut r, " ");
                    push_str(&mut r, op_str(op));
                    push_str(&mut r, " ");
                    push_str(&mut r, self.gen_expr_unsigned(e2).as_str());
                    push_str(&mut r, ")");
                    r
                } else {
                    wrap("unsigned(", self.gen_expr(expr).as_str(), ")")
                }
            },
            _ => wrap("unsigned(", self.gen_expr(expr).as_str(), ")"),
        }
    }

    /// The texts of the expressions of `v`.
    fn gen_exprs(&self, v: &Vec<Expr>) -> (r: Vec<String>)
        requires
            exprs_ok(exprs_view(v@), v@.len() as int),
        ensures
            names_of(r@) == vhdl_exprs(exprs_view(v@), v@.len() as int),
        decreases v, 0int,
    {
        let ghost ev = exprs_view(v@);
        let mut out: Vec<String> = Vec::new();
        let mut i: usize = 0;
        assert(names_of(out@) =~= Seq::<Seq<char>>::empty());
        while i < v.len()
            invariant
                i <= v.len(),
                ev == exprs_view(v@),
                exprs_ok(ev, ev.len() as int),
                names_of(out@) == vhdl_exprs(ev, i as int),
            decreases v.len() - i,
        {
            proof {
                lemma_exprs_ok(ev, ev.len() as int, i as int);
            }
            let t = self.gen_expr(&v[i]);
            push_line(&mut out, t);
            i += 1;
        }
        out
    }

    /// Appends the lines of `stmt`, at indentation `indent`, to `out`.
    fn push_stmt_lines(&self, stmt: &Statement, indent: &str, out: &mut Vec<String>)
        requires
            stmt_ok(stmt@),
        ensures
            names_of(final(out)@) == names_of(old(out)@) + vhdl_stmt_lines(stmt@, indent@),
        decreases stmt,
    {
        match stmt {
            Statement::BlockWrite(target, expr) => {
                let mut l = string_of(indent);
                push_str(&mut l, self.gen_assign_target(target).as_str());
                push_str(&mut l, " := ");
                push_str(&mut l, self.gen_expr(expr).as_str());
                push_str(&mut l, ";");
                push_line(out, l);
            },
            Statement::NonBlockWrite(target, expr) => {
                let mut l = string_of(indent);
                push_str(&mut l, self.gen_assign_target(target).as_str());
                push_str(&mut l, " <= ");
                push_str(&mut l, self.gen_expr(expr).as_str());
                push_str(&mut l, ";");
                push_line(out, l);
            },
            Statement::If(cond, then_body, else_body) => {
                let ghost start = names_of(out@);
                let inner = wrap(indent, "    ", "");
                assert(inner@ =~= indent@ + "    "@) by {
                    reveal_strlit("");
                }
                let mut l = string_of(indent);
                push_str(&mut l, "if ");
                push_str(&mut l, self.gen_expr(cond).as_str());
                push_str(&mut l, " then");
                push_line(out, l);
                push_line(out, self.gen_statements(then_body, inner.as_str()));
                if else_body.len() > 0 {
                    push_line(out, wrap(indent, "else", ""));
                    push_line(out, self.gen_statements(else_body, inner.as_str()));
                }
                push_line(out, wrap(indent, "end if;", ""));
                proof {
                    reveal_strlit("");
                    let sv = SpecStatement::If(
                        cond@,
                        stmts_view(then_body@),
                        stmts_view(else_body@),
                    );
                    assert(stmt@ == sv);
                    assert(names_of(out@) =~= start + vhdl_stmt_lines(sv, indent@));
                }
            },
        }
    }

    /// A block of statements at indentation `indent`, each line ending with
    /// a newline.
    fn gen_statements(&self, stmts: &Vec<Statement>, indent: &str) -> (r: String)
        requires
            stmts_ok(stmts_view(stmts@), stmts@.len() as int),
        ensures
            r@ == vhdl_statements(stmts_view(stmts@), indent@),
        decreases stmts,
    {
        let ghost sv = stmts_view(stmts@);
        let mut lines: Vec<String> = Vec::new();
        let mut i: usize = 0;
        assert(names_of(lines@) =~= Seq::<Seq<char>>::empty());
        while i < stmts.len()
            invariant
                i <= stmts.len(),
                sv == stmts_view(stmts@),
                stmts_ok(sv, sv.len() as int),
                names_of(lines@) == vhdl_stmts_lines(sv, i as int, indent@),
            decreases stmts.len() - i,
        {
            proof {
                lemma_stmts_ok(sv, sv.len() as int, i as int);
            }
            self.push_stmt_lines(&stmts[i], indent, &mut lines);
            i += 1;
        }
        if lines.len() == 0 {
            String::new()
        } else {
            let mut r = join_strings(&lines, "\n");
            push_str(&mut r, "\n");
            r
        }
    }

    /// Whether `expr` tests the reset signal `rst`.
    fn is_reset_condition(&self, expr: &Expr, rst: &str) -> (b: bool)
        ensures
            b == is_reset(expr@, rst@),
    {
        match expr {
            Expr::Ident(s) => string_is(s, rst),
            Expr::UnaryOp(UnaryOp::Not, e) => {
                assert(expr@ == SpecExpr::UnaryOp(UnaryOp::Not, Box::new((**e)@)));
                match &**e {
                    Expr::Ident(s) => string_is(s, rst),
                    _ => false,
                }
            },
            Expr::BinaryOp(BinaryOp::Eq, left, right) => {
                assert(expr@ == SpecExpr::BinaryOp(
                    BinaryOp::Eq,
                    Box::new((**left)@),
                    Box::new((**right)@),
                ));
                match (&**left, &**right) {
                    (Expr::Ident(s), Expr::Literal(lit)) => string_is(s, rst) && (string_is(
                        lit,
                        "1",
                    ) || string_is(lit, "0")),
                    (Expr::Literal(lit), Expr::Ident(s)) => string_is(s, rst) && (string_is(
                        lit,
                        "1",
                    ) || string_is(lit, "0")),
                    _ => false,
                }
            },
            Expr::BinaryOp(BinaryOp::Ne, left, right) => {
                assert(expr@ == SpecExpr::BinaryOp(
                    BinaryOp::Ne,
                    Box::new((**left)@),
                    Box::new((**right)@),
                ));
                match (&**left, &**right) {
                    (Expr::Ident(s), Expr::Literal(lit)) => string_is(s, rst) && string_is(
                        lit,
                        "0",
                    ),
                    (Expr::Literal(lit), Expr::Ident(s)) => string_is(s, rst) && string_is(
                        lit,
                        "0",
                    ),
                    _ => false,
                }
            },
            _ => false,
        }
    }

    /// The reset branch and the clocked branch of a process body.
    fn partition_reset_clock_body(&self, stmts: &Vec<Statement>, rst_sig: Option<&String>) -> (r: (
        Vec<Statement>,
        Vec<Statement>,
    ))
        ensures
            stmts_view(r.0@) == partition(
                stmts_view(stmts@),
                match rst_sig {
                    Some(s) => Some(s@),
                    None => None,
                },
            ).0,
            stmts_view(r.1@) == partition(
                stmts_view(stmts@),
                match rst_sig {
                    Some(s) => Some(s@),
                    None => None,
                },
            ).1,
    {
        let empty: Vec<Statement> = Vec::new();
        assert(stmts_view(empty@) =~= Seq::<SpecStatement>::empty());
        match rst_sig {
            None => (empty, copy_statements(stmts)),
            Some(rst) => {
                if stmts.len() == 1 {
                    match &stmts[0] {
                        Statement::If(cond, then_stmts, else_stmts) => {
                            if self.is_reset_condition(cond, rst.as_str()) {
                                return (copy_statements(then_stmts), copy_statements(else_stmts));
                            }
                        },
                        _ => {},
                    }
                }
                (empty, copy_statements(stmts))
            },
        }
    }

    /// The body of a clocked process, from its rising-edge and
    /// falling-edge signals.
    fn gen_clocked_body(&self, pos: &Vec<String>, neg: &Vec<String>, body: &Vec<Statement>) -> (r:
        String)
        requires
            pos.len() > 0 || neg.len() > 0,
            stmts_ok(stmts_view(body@), body@.len() as int),
        ensures
            r@ == clocked_body(names_of(pos@), names_of(neg@), stmts_view(body@)),
    {
        let ghost pv = names_of(pos@);
        let ghost nv = names_of(neg@);
        let ghost bv = stmts_view(body@);
        let clk: String = if pos.len() > 0 {
            pos[0].clone()
        } else {
            neg[0].clone()
        };
        let rst_sig: Option<String> = if pos.len() >= 2 {
            Some(pos[1].clone())
        } else if neg.len() > 0 && pos.len() > 0 {
            Some(neg[0].clone())
        } else {
            None
        };
        let ghost rst_view: Option<Seq<char>> = match &rst_sig {
            Some(r) => Some(r@),
            None => None,
        };
        assert(rst_view == (if pv.len() >= 2 {
            Some(pv[1])
        } else if nv.len() > 0 && pv.len() > 0 {
            Some(nv[0])
        } else {
            None::<Seq<char>>
        }));
        let clock_cond = if contains_name(pos, &clk) {
            wrap("rising_edge(", clk.as_str(), ")")
        } else {
            wrap("falling_edge(", clk.as_str(), ")")
        };
        let parts = self.partition_reset_clock_body(body, rst_sig.as_ref());
        proof {
            lemma_partition_ok(bv, rst_view);
        }
        let reset_stmts = parts.0;
        let clock_stmts = parts.1;
        let mut lines: Vec<String> = Vec::new();
        match &rst_sig {
            Some(rst) => {
                let rst_cond = if contains_name(pos, rst) {
                    wrap(rst.as_str(), " = '1'", "")
                } else {
                    wrap(rst.as_str(), " = '0'", "")
                };
                let mut l = string_of("        ");
                push_str(&mut l, "if ");
                push_str(&mut l, rst_cond.as_str());
                push_str(&mut l, " then");
                push_line(&mut lines, l);
                if reset_stmts.len() > 0 {
                    push_line(&mut lines, self.gen_statements(&reset_stmts, "            "));
                } else {
                    push_line(&mut lines, wrap("            ", "null; -- reset branch", ""));
                }
                let mut l = string_of("        ");
                push_str(&mut l, "elsif ");
                push_str(&mut l, clock_cond.as_str());
                push_str(&mut l, " then");
                push_line(&mut lines, l);
            },
            None => {
                let mut l = string_of("        ");
                push_str(&mut l, "if ");
                push_str(&mut l, clock_cond.as_str());
                push_str(&mut l, " then");
                push_line(&mut lines, l);
            },
        }
        let ghost head = names_of(lines@);
        proof {
            reveal_strlit("");
            let clk_v = if pv.len() > 0 {
                pv[0]
            } else {
                nv[0]
            };
            assert(clk@ == clk_v);
            let cc = if pv.contains(clk_v) {
                "rising_edge("@ + clk_v + ")"@
            } else {
                "falling_edge("@ + clk_v + ")"@
            };
            assert(clock_cond@ == cc);
            let p = partition(bv, rst_view);
            assert(reset_stmts@.len() == p.0.len());
            let ind = "        "@;
            let inner = "            "@;
            let spec_head = match rst_view {
                Some(rr) => {
                    let rst_cond = if pv.contains(rr) {
                        rr + " = '1'"@
                    } else {
                        rr + " = '0'"@
                    };
                    seq![ind + "if "@ + rst_cond + " then"@] + (if p.0.len() > 0 {
                        seq![vhdl_statements(p.0, inner)]
                    } else {
                        seq![inner + "null; -- reset branch"@]
                    }) + seq![ind + "elsif "@ + cc + " then"@]
                },
                None => seq![ind + "if "@ + cc + " then"@],
            };
            assert(head =~= spec_head);
        }
        if clock_stmts.len() > 0 {
            push_line(&mut lines, self.gen_statements(&clock_stmts, "            "));
        } else {
            push_line(&mut lines, wrap("            ", "null; -- clocked branch", ""));
        }
        push_line(&mut lines, wrap("        ", "end if;", ""));
        proof {
            reveal_strlit("");
            let p = partition(bv, rst_view);
            assert(names_of(lines@) =~= head + (if p.1.len() > 0 {
                seq![vhdl_statements(p.1, "            "@)]
            } else {
                seq!["            "@ + "null; -- clocked branch"@]
            }) + seq!["        "@ + "end if;"@]);
        }
        join_strings(&lines, "\n")
    }

    fn gen_process(&self, proc: &Process) -> (r: Result<String, String>)
        requires
            stmts_ok(proc@.body, proc@.body.len() as int),
        ensures
            r matches Ok(s) && s@ == vhdl_process(proc@),
    {
        let ghost sv = proc@.sensitivity;
        let mut posedge_signals: Vec<String> = Vec::new();
        let mut negedge_signals: Vec<String> = Vec::new();
        let mut level_signals: Vec<String> = Vec::new();
        let mut i: usize = 0;
        assert(sv.take(0) =~= Seq::<SpecSensitivity>::empty());
        assert(names_of(posedge_signals@) =~= Seq::<Seq<char>>::empty());
        assert(names_of(negedge_signals@) =~= Seq::<Seq<char>>::empty());
        assert(names_of(level_signals@) =~= Seq::<Seq<char>>::empty());
        while i < proc.sensitivity.len()
            invariant
                i <= proc.sensitivity.len(),
                sv == proc@.sensitivity,
                sv.len() == proc.sensitivity.len(),
                names_of(posedge_signals@) == sens_of_kind(sv.take(i as int), 0),
                names_of(negedge_signals@) == sens_of_kind(sv.take(i as int), 1),
                names_of(level_signals@) == sens_of_kind(sv.take(i as int), 2),
            decreases proc.sensitivity.len() - i,
        {
            assert(sv.take(i + 1).drop_last() =~= sv.take(i as int));
            assert(sv.take(i + 1).last() == sv[i as int]);
            match &proc.sensitivity[i] {
                Sensitivity::PosEdge(s) => push_line(&mut posedge_signals, s.clone()),
                Sensitivity::NegEdge(s) => push_line(&mut negedge_signals, s.clone()),
                Sensitivity::Level(s) => push_line(&mut level_signals, s.clone()),
            }
            i += 1;
        }
        assert(sv.take(sv.len() as int) =~= sv);
        let mut sens_list: Vec<String> = Vec::new();
        append_names(&mut sens_list, &posedge_signals);
        append_names(&mut sens_list, &negedge_signals);
        append_names(&mut sens_list, &level_signals);
        assert(names_of(sens_list@) =~= names_of(posedge_signals@) + names_of(negedge_signals@)
            + names_of(level_signals@));
        let sens_str = join_strings(&sens_list, ", ");
        let has_edges = posedge_signals.len() > 0 || negedge_signals.len() > 0;
        let body = if has_edges {
            self.gen_clocked_body(&posedge_signals, &negedge_signals, &proc.body)
        } else {
            self.gen_statements(&proc.body, "        ")
        };
        let mut r = string_of("    process(");
        push_str(&mut r, sens_str.as_str());
        push_str(&mut r, ")\n    begin\n");
        push_str(&mut r, body.as_str());
        if !body.as_str().is_empty() {
            push_str(&mut r, "\n");
        }
        push_str(&mut r, "    end process;");
        Ok(r)
    }

    fn gen_instance(&self, inst: &Instance) -> (r: Result<String, String>)
        requires
            connections_ok(inst@.port_map),
        ensures
            r matches Ok(s) && s@ == vhdl_instance(inst@),
    {
        let ghost iv = inst@;
        let mut lines: Vec<String> = Vec::new();
        let mut head = string_of("    ");
        push_str(&mut head, inst.instance_name.as_str());
        push_str(&mut head, ": entity work.");
        push_str(&mut head, inst.module_name.as_str());
        push_line(&mut lines, head);
        push_line(&mut lines, string_of("        port map ("));
        let ghost base = names_of(lines@);
        let ghost conns = vhdl_connections(iv.port_map);
        match &inst.port_map {
            PortMap::ByName(map) => {
                let mut i: usize = 0;
                while i < map.len()
                    invariant
                        i <= map.len(),
                        iv == inst@,
                        inst.port_map == PortMap::ByName(*map),
                        connections_ok(iv.port_map),
                        conns == vhdl_connections(iv.port_map),
                        conns.len() == map.len(),
                        names_of(lines@) == base + conns.take(i as int),
                    decreases map.len() - i,
                {
                    assert(expr_ok(named_exprs_view(map@)[i as int].1));
                    let mut l = string_of("            ");
                    push_str(&mut l, map[i].0.as_str());
                    push_str(&mut l, " => ");
                    push_str(&mut l, self.gen_expr(&map[i].1).as_str());
                    if i + 1 < map.len() {
                        push_str(&mut l, ",");
                    }
                    assert(l@ == conns[i as int]);
                    push_line(&mut lines, l);
                    assert(conns.take(i + 1) =~= conns.take(i as int).push(conns[i as int]));
                    i += 1;
                }
            },
            PortMap::ByPosition(exprs) => {
                let mut i: usize = 0;
                while i < exprs.len()
                    invariant
                        i <= exprs.len(),
                        iv == inst@,
                        inst.port_map == PortMap::ByPosition(*exprs),
                        connections_ok(iv.port_map),
                        conns == vhdl_connections(iv.port_map),
                        conns.len() == exprs.len(),
                        names_of(lines@) == base + conns.take(i as int),
                    decreases exprs.len() - i,
                {
                    assert(expr_ok(exprs_view(exprs@)[i as int]));
                    let mut l = string_of("            ");
                    push_str(&mut l, self.gen_expr(&exprs[i]).as_str());
                    if i + 1 < exprs.len() {
                        push_str(&mut l, ",");
                    }
                    assert(l@ == conns[i as int]);
                    push_line(&mut lines, l);
                    assert(conns.take(i + 1) =~= conns.take(i as int).push(conns[i as int]));
                    i += 1;
                }
            },
        }
        assert(conns.take(conns.len() as int) =~= conns);
        push_line(&mut lines, string_of("        );"));
        assert(names_of(lines@) =~= seq![
            "    "@ + iv.instance_name + ": entity work."@ + iv.module_name,
            "        port map ("@,
        ] + conns + seq!["        );"@]);
        Ok(join_strings(&lines, "\n"))
    }

    fn dir_str(d: &PortDir) -> (r: &'static str)
        ensures
            r@ == vhdl_dir(*d),
    {
        match d {
            PortDir::Input => "in",
            PortDir::Output => "out",
            PortDir::Inout => "inout",
        }
    }

    #[verifier::loop_isolation(false)]
    fn gen_module(&self, module: &Module) -> (r: Result<String, String>)
        requires
            module_ok(module@),
        ensures
            r matches Ok(s) && s@ == vhdl_module(module@),
    {
        let ghost m = module@;
        let mut lines: Vec<String> = Vec::new();
        push_line(&mut lines, string_of("library IEEE;"));
        push_line(&mut lines, string_of("use IEEE.STD_LOGIC_1164.ALL;"));
        push_line(&mut lines, string_of("use IEEE.NUMERIC_STD.ALL;"));
        push_line(&mut lines, String::new());
        push_line(&mut lines, wrap("entity ", module.name.as_str(), " is"));

        let ghost l0 = names_of(lines@);
        let ghost port_line = |i: int|
            "        "@ + m.ports[i].name + " : "@ + vhdl_dir(m.ports[i].direction) + " "@
                + vhdl_type(m.ports[i].width) + (if i == m.ports.len() - 1 {
                Seq::empty()
            } else {
                ";"@
            });
        if module.ports.len() > 0 {
            push_line(&mut lines, string_of("    port ("));
            let ghost l0b = names_of(lines@);
            let mut i: usize = 0;
            while i < module.ports.len()
                invariant
                    i <= module.ports.len(),
                    names_of(lines@) == l0b + Seq::new(i as nat, port_line),
                decreases module.ports.len() - i,
            {
                let port: &Port = &module.ports[i];
                assert(m.ports[i as int] == port@);
                assert(width_ok(m.ports[i as int].width));
                let mut l = string_of("        ");
                push_str(&mut l, port.name.as_str());
                push_str(&mut l, " : ");
                push_str(&mut l, Self::dir_str(&port.direction));
                push_str(&mut l, " ");
                push_str(&mut l, self.get_type(&port.width).as_str());
                if i + 1 < module.ports.len() {
                    push_str(&mut l, ";");
                }
                assert(l@ =~= port_line(i as int));
                push_line(&mut lines, l);
                assert(Seq::new((i + 1) as nat, port_line) =~= Seq::new(i as nat, port_line).push(
                    port_line(i as int),
                ));
                i += 1;
            }
            push_line(&mut lines, string_of("    );"));
            assert(names_of(lines@) =~= l0 + vhdl_port_lines(m.ports));
        } else {
            assert(names_of(lines@) =~= l0 + vhdl_port_lines(m.ports));
        }
        push_line(&mut lines, wrap("end ", module.name.as_str(), ";"));
        push_line(&mut lines, String::new());
        push_line(&mut lines, wrap("architecture Behavioral of ", module.name.as_str(), " is"));

        let ghost l1 = names_of(lines@);
        let mut i: usize = 0;
        while i < module.wires.len()
            invariant
                i <= module.wires.len(),
                names_of(lines@) == l1 + Seq::new(i as nat, |j: int| vhdl_signal(m.wires[j])),
            decreases module.wires.len() - i,
        {
            let w: &Signal = &module.wires[i];
            assert(m.wires[i as int] == w@);
            assert(width_ok(m.wires[i as int].width));
            let mut l = string_of("    signal ");
            push_str(&mut l, w.name.as_str());
            push_str(&mut l, " : ");
            push_str(&mut l, self.get_type(&w.width).as_str());
            push_str(&mut l, ";");
            push_line(&mut lines, l);
            assert(Seq::new((i + 1) as nat, |j: int| vhdl_signal(m.wires[j])) =~= Seq::new(
                i as nat,
                |j: int| vhdl_signal(m.wires[j]),
            ).push(vhdl_signal(m.wires[i as int])));
            i += 1;
        }

        let ghost l2 = names_of(lines@);
        let mut i: usize = 0;
        while i < module.regs.len()
            invariant
                i <= module.regs.len(),
                names_of(lines@) == l2 + Seq::new(i as nat, |j: int| vhdl_signal(m.regs[j])),
            decreases module.regs.len() - i,
        {
            let w: &Signal = &module.regs[i];
            assert(m.regs[i as int] == w@);
            assert(width_ok(m.regs[i as int].width));
            let mut l = string_of("    signal ");
            push_str(&mut l, w.name.as_str());
            push_str(&mut l, " : ");
            push_str(&mut l, self.get_type(&w.width).as_str());
            push_str(&mut l, ";");
            push_line(&mut lines, l);
            assert(Seq::new((i + 1) as nat, |j: int| vhdl_signal(m.regs[j])) =~= Seq::new(
                i as nat,
                |j: int| vhdl_signal(m.regs[j]),
            ).push(vhdl_signal(m.regs[i as int])));
            i += 1;
        }
        push_line(&mut lines, string_of("begin"));

        let ghost l3 = names_of(lines@);
        let ghost assign_line = |j: int|
            "    "@ + vhdl_target(m.assigns[j].target) + " <= "@ + vhdl_expr(m.assigns[j].expr)
                + ";"@;
        let mut i: usize = 0;
        while i < module.assigns.len()
            invariant
                i <= module.assigns.len(),
                names_of(lines@) == l3 + Seq::new(i as nat, assign_line),
            decreases module.assigns.len() - i,
        {
            let a = &module.assigns[i];
            assert(m.assigns[i as int] == a@);
            assert(expr_ok(m.assigns[i as int].expr));
            let mut l = string_of("    ");
            push_str(&mut l, self.gen_assign_target(&a.target).as_str());
            push_str(&mut l, " <= ");
            push_str(&mut l, self.gen_expr(&a.expr).as_str());
            push_str(&mut l, ";");
            push_line(&mut lines, l);
            assert(Seq::new((i + 1) as nat, assign_line) =~= Seq::new(i as nat, assign_line).push(
                assign_line(i as int),
            ));
            i += 1;
        }

        let ghost l4 = names_of(lines@);
        let mut i: usize = 0;
        while i < module.processes.len()
            invariant
                i <= module.processes.len(),
                names_of(lines@) == l4 + Seq::new(i as nat, |j: int| vhdl_process(m.processes[j])),
            decreases module.processes.len() - i,
        {
            assert(m.processes[i as int] == module.processes@[i as int]@);
            assert(stmts_ok(m.processes[i as int].body, m.processes[i as int].body.len() as int));
            match self.gen_process(&module.processes[i]) {
                Ok(t) => push_line(&mut lines, t),
                Err(e) => return Err(e),
            }
            assert(Seq::new((i + 1) as nat, |j: int| vhdl_process(m.processes[j])) =~= Seq::new(
                i as nat,
                |j: int| vhdl_process(m.processes[j]),
            ).push(vhdl_process(m.processes[i as int])));
            i += 1;
        }

        let ghost l5 = names_of(lines@);
        let mut i: usize = 0;
        while i < module.instances.len()
            invariant
                i <= module.instances.len(),
                names_of(lines@) == l5 + Seq::new(
                    i as nat,
                    |j: int| vhdl_instance(m.instances[j]),
                ),
            decreases module.instances.len() - i,
        {
            assert(m.instances[i as int] == module.instances@[i as int]@);
            assert(connections_ok(m.instances[i as int].port_map));
            match self.gen_instance(&module.instances[i]) {
                Ok(t) => push_line(&mut lines, t),
                Err(e) => return Err(e),
            }
            assert(Seq::new((i + 1) as nat, |j: int| vhdl_instance(m.instances[j])) =~= Seq::new(
                i as nat,
                |j: int| vhdl_instance(m.instances[j]),
            ).push(vhdl_instance(m.instances[i as int])));
            i += 1;
        }
        push_line(&mut lines, string_of("end Behavioral;"));
        assert(names_of(lines@) =~= vhdl_module_lines(m));
        Ok(join_strings(&lines, "\n"))
    }
}

// ---------------------------------------------------------------------------
// Testing the modules that can be rendered
// ---------------------------------------------------------------------------

fn literal_convertible(s: &str) -> (b: bool)
    ensures
        b == literal_ok(s@),
{
    let cs = chars_of(s);
    let q = find_quote(&cs);
    if q < cs.len() && q + 1 < cs.len() {
        (cs[q + 1] as u32) < 128
    } else {
        true
    }
}

fn width_renderable(w: &Option<String>) -> (b: bool)
    ensures
        b == width_ok(opt_text(*w)),
{
    match w {
        Some(t) => match parse_usize(t) {
            Some(n) => n != 0,
            None => true,
        },
        None => true,
    }
}

fn expr_convertible(e: &Expr) -> (b: bool)
    ensures
        b == expr_ok(e@),
    decreases e,
{
    match e {
        Expr::Literal(s) => literal_convertible(s.as_str()),
        Expr::Ident(_) => true,
        Expr::Slice(b, _, _) => expr_convertible(b),
        Expr::Concat(v) => exprs_convertible(v),
        Expr::UnaryOp(_, b) => expr_convertible(b),
        Expr::BinaryOp(_, a, b) => expr_convertible(a) && expr_convertible(b),
        Expr::Cond(c, t, f) => expr_convertible(c) && expr_convertible(t) && expr_convertible(f),
    }
}

fn exprs_convertible(v: &Vec<Expr>) -> (b: bool)
    ensures
        b == exprs_ok(exprs_view(v@), v@.len() as int),
    decreases v,
{
    let ghost ev = exprs_view(v@);
    let mut ok = true;
    let mut i: usize = 0;
    while i < v.len()
        invariant
            i <= v.len(),
            ev == exprs_view(v@),
            ok == exprs_ok(ev, i as int),
        decreases v.len() - i,
    {
        ok = ok && expr_convertible(&v[i]);
        i += 1;
    }
    ok
}

fn stmt_convertible(s: &Statement) -> (b: bool)
    ensures
        b == stmt_ok(s@),
    decreases s,
{
    match s {
        Statement::BlockWrite(_, e) => expr_convertible(e),
        Statement::NonBlockWrite(_, e) => expr_convertible(e),
        Statement::If(c, a, b) => {
            proof {
                lemma_if_view(*c, *a, *b);
            }
            expr_convertible(c) && stmts_convertible(a) && stmts_convertible(b)
        },
    }
}

fn stmts_convertible(v: &Vec<Statement>) -> (b: bool)
    ensures
        b == stmts_ok(stmts_view(v@), v@.len() as int),
    decreases v,
{
    let ghost sv = stmts_view(v@);
    let mut ok = true;
    let mut i: usize = 0;
    while i < v.len()
        invariant
            i <= v.len(),
            sv == stmts_view(v@),
            ok == stmts_ok(sv, i as int),
        decreases v.len() - i,
    {
        ok = ok && stmt_convertible(&v[i]);
        i += 1;
    }
    ok
}

fn connections_convertible(pm: &PortMap) -> (b: bool)
    ensures
        b == connections_ok(pm@),
{
    match pm {
        PortMap::ByName(map) => {
            let ghost nv = named_exprs_view(map@);
            let mut i: usize = 0;
            while i < map.len()
                invariant
                    i <= map.len(),
                    nv == named_exprs_view(map@),
                    *pm == PortMap::ByName(*map),
                    forall|j: int| 0 <= j < i ==> expr_ok(#[trigger] nv[j].1),
                decreases map.len() - i,
            {
                if !expr_convertible(&map[i].1) {
                    assert(pm@ == SpecPortMap::ByName(nv));
                    assert(!expr_ok(nv[i as int].1));
                    assert(i < nv.len());
                    proof {
                        if connections_ok(SpecPortMap::ByName(nv)) {
                            assert(SpecPortMap::ByName(nv) matches SpecPortMap::ByName(v) && v
                                == nv);
                            assert(expr_ok(nv[i as int].1));
                        }
                    }
                    return false;
                }
                i += 1;
            }
            assert(pm@ == SpecPortMap::ByName(nv));
            true
        },
        PortMap::ByPosition(exprs) => {
            let ghost ev = exprs_view(exprs@);
            let mut i: usize = 0;
            while i < exprs.len()
                invariant
                    i <= exprs.len(),
                    ev == exprs_view(exprs@),
                    *pm == PortMap::ByPosition(*exprs),
                    forall|j: int| 0 <= j < i ==> expr_ok(#[trigger] ev[j]),
                decreases exprs.len() - i,
            {
                if !expr_convertible(&exprs[i]) {
                    assert(pm@ == SpecPortMap::ByPosition(ev));
                    assert(!expr_ok(ev[i as int]));
                    assert(i < ev.len());
                    proof {
                        if connections_ok(SpecPortMap::ByPosition(ev)) {
                            assert(SpecPortMap::ByPosition(ev) matches SpecPortMap::ByPosition(v)
                                && v == ev);
                            assert(expr_ok(ev[i as int]));
                        }
                    }
                    return false;
                }
                i += 1;
            }
            true
        },
    }
}

#[verifier::loop_isolation(false)]
fn module_convertible(module: &Module) -> (b: bool)
    ensures
        b == module_ok(module@),
{
    let ghost m = module@;
    let mut i: usize = 0;
    while i < module.ports.len()
        invariant
            i <= module.ports.len(),
            forall|j: int| 0 <= j < i ==> width_ok(#[trigger] m.ports[j].width),
        decreases module.ports.len() - i,
    {
        assert(m.ports[i as int] == module.ports@[i as int]@);
        if !width_renderable(&module.ports[i].width) {
            assert(!width_ok(m.ports[i as int].width));
            return false;
        }
        i += 1;
    }
    let mut i: usize = 0;
    while i < module.wires.len()
        invariant
            i <= module.wires.len(),
            forall|j: int| 0 <= j < i ==> width_ok(#[trigger] m.wires[j].width),
        decreases module.wires.len() - i,
    {
        assert(m.wires[i as int] == module.wires@[i as int]@);
        if !width_renderable(&module.wires[i].width) {
            assert(!width_ok(m.wires[i as int].width));
            return false;
        }
        i += 1;
    }
    let mut i: usize = 0;
    while i < module.regs.len()
        invariant
            i <= module.regs.len(),
            forall|j: int| 0 <= j < i ==> width_ok(#[trigger] m.regs[j].width),
        decreases module.regs.len() - i,
    {
        assert(m.regs[i as int] == module.regs@[i as int]@);
        if !width_renderable(&module.regs[i].width) {
            assert(!width_ok(m.regs[i as int].width));
            return false;
        }
        i += 1;
    }
    let mut i: usize = 0;
    while i < module.assigns.len()
        invariant
            i <= module.assigns.len(),
            forall|j: int| 0 <= j < i ==> expr_ok(#[trigger] m.assigns[j].expr),
        decreases module.assigns.len() - i,
    {
        assert(m.assigns[i as int] == module.assigns@[i as int]@);
        if !expr_convertible(&module.assigns[i].expr) {
            assert(!expr_ok(m.assigns[i as int].expr));
            return false;
        }
        i += 1;
    }
    let mut i: usize = 0;
    while i < module.processes.len()
        invariant
            i <= module.processes.len(),
            forall|j: int|
                0 <= j < i ==> stmts_ok(
                    #[trigger] m.processes[j].body,
                    m.processes[j].body.len() as int,
                ),
        decreases module.processes.len() - i,
    {
        assert(m.processes[i as int] == module.processes@[i as int]@);
        if !stmts_convertible(&module.processes[i].body) {
            assert(!stmts_ok(m.processes[i as int].body, m.processes[i as int].body.len() as int));
            return false;
        }
        i += 1;
    }
    let mut i: usize = 0;
    while i < module.instances.len()
        invariant
            i <= module.instances.len(),
            forall|j: int| 0 <= j < i ==> connections_ok(#[trigger] m.instances[j].port_map),
        decreases module.instances.len() - i,
    {
        assert(m.instances[i as int] == module.instances@[i as int]@);
        if !connections_convertible(&module.instances[i].port_map) {
            assert(!connections_ok(m.instances[i as int].port_map));
            return false;
        }
        i += 1;
    }
    true
}

impl VhdlBackend {
    /// Whether `generate` can render `modules`: no width is the number 0
    /// and every literal can be cut after its radix quote.
    pub fn accepts(&self, modules: &[Module]) -> (b: bool)
        ensures
            b == self.can_generate(modules_view(modules@)),
    {
        let ghost mv = modules_view(modules@);
        let mut i: usize = 0;
        while i < modules.len()
            invariant
                i <= modules.len(),
                mv == modules_view(modules@),
                forall|j: int| 0 <= j < i ==> module_ok(#[trigger] mv[j]),
            decreases modules.len() - i,
        {
            if !module_convertible(&modules[i]) {
                assert(!module_ok(mv[i as int]));
                return false;
            }
            i += 1;
        }
        true
    }
}

impl Backend for VhdlBackend {
    /// Modules without a width of 0 and with literals that can be cut.
    open spec fn can_generate(&self, modules: Seq<SpecModule>) -> bool {
        forall|i: int| 0 <= i < modules.len() ==> module_ok(#[trigger] modules[i])
    }

    /// The modules rendered one after the other, a blank line between two.
    fn generate(&self, modules: &[Module]) -> (r: Result<String, String>)
        ensures
            r matches Ok(s) && s@ == vhdl_text(modules_view(modules@)),
    {
        let ghost mv = modules_view(modules@);
        let mut output = String::new();
        let mut i: usize = 0;
        while i < modules.len()
            invariant
                i <= modules.len(),
                mv == modules_view(modules@),
                self.can_generate(mv),
                output@ == join(Seq::new(i as nat, |j: int| vhdl_module(mv[j])), "\n\n"@),
            decreases modules.len() - i,
        {
            let ghost before = Seq::new(i as nat, |j: int| vhdl_module(mv[j]));
            let ghost after = Seq::new((i + 1) as nat, |j: int| vhdl_module(mv[j]));
            assert(after.drop_last() =~= before);
            assert(module_ok(mv[i as int]));
            if i > 0 {
                push_str(&mut output, "\n\n");
            } else {
                assert(output@ =~= Seq::<char>::empty());
            }
            match self.gen_module(&modules[i]) {
                Ok(t) => push_str(&mut output, t.as_str()),
                Err(e) => return Err(e),
            }
            i += 1;
        }
        Ok(output)
    }
}

} // verus!
