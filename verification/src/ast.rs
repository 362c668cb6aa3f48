//! The hardware description: modules with their ports, signals, processes,
//! continuous assignments and instances, read from S-expressions.
use vstd::prelude::*;
use crate::error::{diag, diag_owned, res_view, spec_diag, Diagnostic, Span, SpecDiag};
use crate::parser::{lemma_list_view, sexprs_view, SExpr, SpecSExpr};
use crate::text::{chars_of, is_ascii_digit, parse_usize, push_str, spec_is_digit, spec_parse_usize, string_is, string_of};

verus! {

broadcast use lemma_list_view;

/// A hardware module.
#[derive(Debug, Clone)]
pub struct Module {
    pub name: String,
    pub ports: Vec<Port>,
    pub wires: Vec<Signal>,
    pub regs: Vec<Signal>,
    pub processes: Vec<Process>,
    pub assigns: Vec<Assign>,
    pub instances: Vec<Instance>,
}

/// A port of a module; no width means a width of 1.
#[derive(Debug, Clone)]
pub struct Port {
    pub direction: PortDir,
    pub name: String,
    pub width: Option<String>,
    pub reg: bool,
}

#[derive(Debug, Clone, PartialEq, Eq, Structural)]
pub enum PortDir {
    Input,
    Output,
    Inout,
}

/// An internal wire or register.
#[derive(Debug, Clone)]
pub struct Signal {
    pub name: String,
    pub width: Option<String>,
}

/// A process: statements run on the events of a sensitivity list.
#[derive(Debug, Clone)]
pub struct Process {
    pub sensitivity: Vec<Sensitivity>,
    pub body: Vec<Statement>,
}

#[derive(Debug, Clone)]
pub enum Sensitivity {
    PosEdge(String),
    NegEdge(String),
    Level(String),
}

#[derive(Debug)]
pub enum Statement {
    BlockWrite(AssignTarget, Expr),
    NonBlockWrite(AssignTarget, Expr),
    If(Expr, Vec<Statement>, Vec<Statement>),
}

/// A continuous assignment.
#[derive(Debug, Clone)]
pub struct Assign {
    pub target: AssignTarget,
    pub expr: Expr,
}

/// An instance of another module.
#[derive(Debug, Clone)]
pub struct Instance {
    pub module_name: String,
    pub instance_name: String,
    pub port_map: PortMap,
}

#[derive(Debug, Clone)]
pub enum PortMap {
    ByName(Vec<(String, Expr)>),
    ByPosition(Vec<Expr>),
}

#[derive(Debug, Clone)]
pub enum AssignTarget {
    Signal(String, Option<usize>),
    Slice(String, usize, usize),
}

#[derive(Debug)]
pub enum Expr {
    Literal(String),
    Ident(String),
    Slice(Box<Expr>, usize, usize),
    Concat(Vec<Expr>),
    UnaryOp(UnaryOp, Box<Expr>),
    BinaryOp(BinaryOp, Box<Expr>, Box<Expr>),
    Cond(Box<Expr>, Box<Expr>, Box<Expr>),
}

#[derive(Debug, Clone)]
pub enum UnaryOp {
    Not,
}

#[derive(Debug, Clone)]
pub enum BinaryOp {
    And,
    Or,
    Xor,
    Add,
    Sub,
    Mul,
    Eq,
    Ne,
    Lt,
    Le,
    Gt,
    Ge,
    Shl,
    Shr,
}

// ---------------------------------------------------------------------------
// Mathematical values
// ---------------------------------------------------------------------------

pub struct SpecPort {
    pub direction: PortDir,
    pub name: Seq<char>,
    pub width: Option<Seq<char>>,
    pub reg: bool,
}

pub struct SpecSignal {
    pub name: Seq<char>,
    pub width: Option<Seq<char>>,
}

pub enum SpecSensitivity {
    PosEdge(Seq<char>),
    NegEdge(Seq<char>),
    Level(Seq<char>),
}

pub enum SpecAssignTarget {
    Signal(Seq<char>, Option<usize>),
    Slice(Seq<char>, usize, usize),
}

pub enum SpecExpr {
    Literal(Seq<char>),
    Ident(Seq<char>),
    Slice(Box<SpecExpr>, usize, usize),
    Concat(Seq<SpecExpr>),
    UnaryOp(UnaryOp, Box<SpecExpr>),
    BinaryOp(BinaryOp, Box<SpecExpr>, Box<SpecExpr>),
    Cond(Box<SpecExpr>, Box<SpecExpr>, Box<SpecExpr>),
}

pub enum SpecStatement {
    BlockWrite(SpecAssignTarget, SpecExpr),
    NonBlockWrite(SpecAssignTarget, SpecExpr),
    If(SpecExpr, Seq<SpecStatement>, Seq<SpecStatement>),
}

pub struct SpecAssign {
    pub target: SpecAssignTarget,
    pub expr: SpecExpr,
}

pub enum SpecPortMap {
    ByName(Seq<(Seq<char>, SpecExpr)>),
    ByPosition(Seq<SpecExpr>),
}

pub struct SpecInstance {
    pub module_name: Seq<char>,
    pub instance_name: Seq<char>,
    pub port_map: SpecPortMap,
}

pub struct SpecProcess {
    pub sensitivity: Seq<SpecSensitivity>,
    pub body: Seq<SpecStatement>,
}

pub struct SpecModule {
    pub name: Seq<char>,
    pub ports: Seq<SpecPort>,
    pub wires: Seq<SpecSignal>,
    pub regs: Seq<SpecSignal>,
    pub processes: Seq<SpecProcess>,
    pub assigns: Seq<SpecAssign>,
    pub instances: Seq<SpecInstance>,
}

pub open spec fn opt_text(o: Option<String>) -> Option<Seq<char>> {
    match o {
        Some(s) => Some(s@),
        None => None,
    }
}

impl View for Port {
    type V = SpecPort;

    open spec fn view(&self) -> SpecPort {
        SpecPort {
            direction: self.direction,
            name: self.name@,
            width: opt_text(self.width),
            reg: self.reg,
        }
    }
}

impl View for Signal {
    type V = SpecSignal;

    open spec fn view(&self) -> SpecSignal {
        SpecSignal { name: self.name@, width: opt_text(self.width) }
    }
}

impl View for Sensitivity {
    type V = SpecSensitivity;

    open spec fn view(&self) -> SpecSensitivity {
        match self {
            Sensitivity::PosEdge(s) => SpecSensitivity::PosEdge(s@),
            Sensitivity::NegEdge(s) => SpecSensitivity::NegEdge(s@),
            Sensitivity::Level(s) => SpecSensitivity::Level(s@),
        }
    }
}

impl View for AssignTarget {
    type V = SpecAssignTarget;

    open spec fn view(&self) -> SpecAssignTarget {
        match self {
            AssignTarget::Signal(s, i) => SpecAssignTarget::Signal(s@, *i),
            AssignTarget::Slice(s, h, l) => SpecAssignTarget::Slice(s@, *h, *l),
        }
    }
}

/// The value of an expression.
pub open spec fn expr_value(e: Expr) -> SpecExpr
    decreases e, 0int,
{
    match e {
        Expr::Literal(s) => SpecExpr::Literal(s@),
        Expr::Ident(s) => SpecExpr::Ident(s@),
        Expr::Slice(b, h, l) => SpecExpr::Slice(Box::new(expr_value(*b)), h, l),
        Expr::Concat(v) => SpecExpr::Concat(expr_values(v, v@.len() as int)),
        Expr::UnaryOp(op, b) => SpecExpr::UnaryOp(op, Box::new(expr_value(*b))),
        Expr::BinaryOp(op, a, b) => SpecExpr::BinaryOp(
            op,
            Box::new(expr_value(*a)),
            Box::new(expr_value(*b)),
        ),
        Expr::Cond(c, t, f) => SpecExpr::Cond(
            Box::new(expr_value(*c)),
            Box::new(expr_value(*t)),
            Box::new(expr_value(*f)),
        ),
    }
}

/// The values of the first `n` expressions of `v`.
pub open spec fn expr_values(v: Vec<Expr>, n: int) -> Seq<SpecExpr>
    decreases v, n,
{
    if n <= 0 || n > v@.len() {
        Seq::empty()
    } else {
        expr_values(v, n - 1).push(expr_value(v@[n - 1]))
    }
}

impl View for Expr {
    type V = SpecExpr;

    open spec fn view(&self) -> SpecExpr {
        expr_value(*self)
    }
}

pub open spec fn exprs_view(s: Seq<Expr>) -> Seq<SpecExpr> {
    Seq::new(s.len(), |i: int| s[i]@)
}

proof fn lemma_expr_values(v: Vec<Expr>, n: int)
    requires
        0 <= n <= v@.len(),
    ensures
        expr_values(v, n) =~= exprs_view(v@.take(n)),
    decreases n,
{
    if n > 0 {
        lemma_expr_values(v, n - 1);
    }
}

pub broadcast proof fn lemma_concat_view(v: Vec<Expr>)
    ensures
        #[trigger] Expr::Concat(v)@ == SpecExpr::Concat(exprs_view(v@)),
{
    lemma_expr_values(v, v@.len() as int);
    assert(v@.take(v@.len() as int) =~= v@);
}

/// The value of a statement.
pub open spec fn stmt_value(s: Statement) -> SpecStatement
    decreases s, 0int,
{
    match s {
        Statement::BlockWrite(t, e) => SpecStatement::BlockWrite(t@, e@),
        Statement::NonBlockWrite(t, e) => SpecStatement::NonBlockWrite(t@, e@),
        Statement::If(c, a, b) => SpecStatement::If(
            c@,
            stmt_values(a, a@.len() as int),
            stmt_values(b, b@.len() as int),
        ),
    }
}

/// The values of the first `n` statements of `v`.
pub open spec fn stmt_values(v: Vec<Statement>, n: int) -> Seq<SpecStatement>
    decreases v, n,
{
    if n <= 0 || n > v@.len() {
        Seq::empty()
    } else {
        stmt_values(v, n - 1).push(stmt_value(v@[n - 1]))
    }
}

impl View for Statement {
    type V = SpecStatement;

    open spec fn view(&self) -> SpecStatement {
        stmt_value(*self)
    }
}

pub open spec fn stmts_view(s: Seq<Statement>) -> Seq<SpecStatement> {
    Seq::new(s.len(), |i: int| s[i]@)
}

proof fn lemma_stmt_values(v: Vec<Statement>, n: int)
    requires
        0 <= n <= v@.len(),
    ensures
        stmt_values(v, n) =~= stmts_view(v@.take(n)),
    decreases n,
{
    if n > 0 {
        lemma_stmt_values(v, n - 1);
    }
}

pub broadcast proof fn lemma_if_view(c: Expr, a: Vec<Statement>, b: Vec<Statement>)
    ensures
        #[trigger] Statement::If(c, a, b)@ == SpecStatement::If(
            c@,
            stmts_view(a@),
            stmts_view(b@),
        ),
{
    lemma_stmt_values(a, a@.len() as int);
    assert(a@.take(a@.len() as int) =~= a@);
    lemma_stmt_values(b, b@.len() as int);
    assert(b@.take(b@.len() as int) =~= b@);
}

impl View for Assign {
    type V = SpecAssign;

    open spec fn view(&self) -> SpecAssign {
        SpecAssign { target: self.target@, expr: self.expr@ }
    }
}

pub open spec fn named_exprs_view(s: Seq<(String, Expr)>) -> Seq<(Seq<char>, SpecExpr)> {
    Seq::new(s.len(), |i: int| (s[i].0@, s[i].1@))
}

impl View for PortMap {
    type V = SpecPortMap;

    open spec fn view(&self) -> SpecPortMap {
        match self {
            PortMap::ByName(v) => SpecPortMap::ByName(named_exprs_view(v@)),
            PortMap::ByPosition(v) => SpecPortMap::ByPosition(exprs_view(v@)),
        }
    }
}

impl View for Instance {
    type V = SpecInstance;

    open spec fn view(&self) -> SpecInstance {
        SpecInstance {
            module_name: self.module_name@,
            instance_name: self.instance_name@,
            port_map: self.port_map@,
        }
    }
}

pub open spec fn sens_view(s: Seq<Sensitivity>) -> Seq<SpecSensitivity> {
    Seq::new(s.len(), |i: int| s[i]@)
}

impl View for Process {
    type V = SpecProcess;

    open spec fn view(&self) -> SpecProcess {
        SpecProcess { sensitivity: sens_view(self.sensitivity@), body: stmts_view(self.body@) }
    }
}

pub open spec fn ports_view(s: Seq<Port>) -> Seq<SpecPort> {
    Seq::new(s.len(), |i: int| s[i]@)
}

pub open spec fn signals_view(s: Seq<Signal>) -> Seq<SpecSignal> {
    Seq::new(s.len(), |i: int| s[i]@)
}

pub open spec fn processes_view(s: Seq<Process>) -> Seq<SpecProcess> {
    Seq::new(s.len(), |i: int| s[i]@)
}

pub open spec fn assigns_view(s: Seq<Assign>) -> Seq<SpecAssign> {
    Seq::new(s.len(), |i: int| s[i]@)
}

pub open spec fn instances_view(s: Seq<Instance>) -> Seq<SpecInstance> {
    Seq::new(s.len(), |i: int| s[i]@)
}

impl View for Module {
    type V = SpecModule;

    open spec fn view(&self) -> SpecModule {
        SpecModule {
            name: self.name@,
            ports: ports_view(self.ports@),
            wires: signals_view(self.wires@),
            regs: signals_view(self.regs@),
            processes: processes_view(self.processes@),
            assigns: assigns_view(self.assigns@),
            instances: instances_view(self.instances@),
        }
    }
}

pub open spec fn modules_view(s: Seq<Module>) -> Seq<SpecModule> {
    Seq::new(s.len(), |i: int| s[i]@)
}

// ---------------------------------------------------------------------------
// Copies
// ---------------------------------------------------------------------------

pub fn copy_unary(op: &UnaryOp) -> (r: UnaryOp)
    ensures
        r == *op,
{
    match op {
        UnaryOp::Not => UnaryOp::Not,
    }
}

pub fn copy_binary(op: &BinaryOp) -> (r: BinaryOp)
    ensures
        r == *op,
{
    match op {
        BinaryOp::And => BinaryOp::And,
        BinaryOp::Or => BinaryOp::Or,
        BinaryOp::Xor => BinaryOp::Xor,
        BinaryOp::Add => BinaryOp::Add,
        BinaryOp::Sub => BinaryOp::Sub,
        BinaryOp::Mul => BinaryOp::Mul,
        BinaryOp::Eq => BinaryOp::Eq,
        BinaryOp::Ne => BinaryOp::Ne,
        BinaryOp::Lt => BinaryOp::Lt,
        BinaryOp::Le => BinaryOp::Le,
        BinaryOp::Gt => BinaryOp::Gt,
        BinaryOp::Ge => BinaryOp::Ge,
        BinaryOp::Shl => BinaryOp::Shl,
        BinaryOp::Shr => BinaryOp::Shr,
    }
}

pub fn copy_target(t: &AssignTarget) -> (r: AssignTarget)
    ensures
        r@ == t@,
{
    match t {
        AssignTarget::Signal(s, i) => AssignTarget::Signal(s.clone(), *i),
        AssignTarget::Slice(s, h, l) => AssignTarget::Slice(s.clone(), *h, *l),
    }
}

/// A copy of `e`.
pub fn copy_expr(e: &Expr) -> (r: Expr)
    ensures
        r@ == e@,
    decreases e,
{
    match e {
        Expr::Literal(s) => Expr::Literal(s.clone()),
        Expr::Ident(s) => Expr::Ident(s.clone()),
        Expr::Slice(b, h, l) => Expr::Slice(Box::new(copy_expr(b)), *h, *l),
        Expr::Concat(v) => {
            let r = copy_exprs(v);
            proof {
                lemma_concat_view(r);
                lemma_concat_view(*v);
            }
            Expr::Concat(r)
        },
        Expr::UnaryOp(op, b) => Expr::UnaryOp(copy_unary(op), Box::new(copy_expr(b))),
        Expr::BinaryOp(op, a, b) => Expr::BinaryOp(
            copy_binary(op),
            Box::new(copy_expr(a)),
            Box::new(copy_expr(b)),
        ),
        Expr::Cond(c, t, f) => Expr::Cond(
            Box::new(copy_expr(c)),
            Box::new(copy_expr(t)),
            Box::new(copy_expr(f)),
        ),
    }
}

/// Copies of the expressions of `v`.
pub fn copy_exprs(v: &Vec<Expr>) -> (r: Vec<Expr>)
    ensures
        exprs_view(r@) == exprs_view(v@),
    decreases v,
{
    let mut r: Vec<Expr> = Vec::new();
    let mut i: usize = 0;
    while i < v.len()
        invariant
            i <= v.len(),
            r.len() == i,
            forall|j: int| 0 <= j < i ==> (#[trigger] r@[j])@ == v@[j]@,
        decreases v.len() - i,
    {
        let c = copy_expr(&v[i]);
        r.push(c);
        i += 1;
    }
    assert(exprs_view(r@) =~= exprs_view(v@));
    r
}

impl Clone for Expr {
    fn clone(&self) -> (r: Self)
        ensures
            r@ == self@,
    {
        copy_expr(self)
    }
}

/// A copy of `s`.
pub fn copy_statement(s: &Statement) -> (r: Statement)
    ensures
        r@ == s@,
    decreases s,
{
    match s {
        Statement::BlockWrite(t, e) => Statement::BlockWrite(copy_target(t), copy_expr(e)),
        Statement::NonBlockWrite(t, e) => Statement::NonBlockWrite(copy_target(t), copy_expr(e)),
        Statement::If(c, a, b) => {
            let a2 = copy_statements(a);
            let b2 = copy_statements(b);
            let c2 = copy_expr(c);
            proof {
                lemma_if_view(c2, a2, b2);
                lemma_if_view(*c, *a, *b);
            }
            Statement::If(c2, a2, b2)
        },
    }
}

/// Copies of the statements of `v`.
pub fn copy_statements(v: &Vec<Statement>) -> (r: Vec<Statement>)
    ensures
        stmts_view(r@) == stmts_view(v@),
    decreases v,
{
    let mut r: Vec<Statement> = Vec::new();
    let mut i: usize = 0;
    while i < v.len()
        invariant
            i <= v.len(),
            r.len() == i,
            forall|j: int| 0 <= j < i ==> (#[trigger] r@[j])@ == v@[j]@,
        decreases v.len() - i,
    {
        let c = copy_statement(&v[i]);
        r.push(c);
        i += 1;
    }
    assert(stmts_view(r@) =~= stmts_view(v@));
    r
}

impl Clone for Statement {
    fn clone(&self) -> (r: Self)
        ensures
            r@ == self@,
    {
        copy_statement(self)
    }
}

} // verus!

verus! {

// ---------------------------------------------------------------------------
// Reading the description from S-expressions
// ---------------------------------------------------------------------------

pub open spec fn ports_res(r: Result<Vec<Port>, Diagnostic>) -> Result<Seq<SpecPort>, SpecDiag> {
    match r {
        Ok(v) => Ok(ports_view(v@)),
        Err(d) => Err(d@),
    }
}

pub open spec fn sens_res(r: Result<Vec<Sensitivity>, Diagnostic>) -> Result<
    Seq<SpecSensitivity>,
    SpecDiag,
> {
    match r {
        Ok(v) => Ok(sens_view(v@)),
        Err(d) => Err(d@),
    }
}

pub open spec fn modules_res(r: Result<Vec<Module>, Diagnostic>) -> Result<
    Seq<SpecModule>,
    SpecDiag,
> {
    match r {
        Ok(v) => Ok(modules_view(v@)),
        Err(d) => Err(d@),
    }
}

/// `s` is the atom `lit`.
pub open spec fn is_atom(s: SpecSExpr, lit: Seq<char>) -> bool {
    s matches SpecSExpr::Atom(t, _) && t == lit
}

/// An atom is a literal (or a width) when it starts with a digit or holds a
/// quote, as `8'b1010` does.
pub open spec fn is_literal_text(t: Seq<char>) -> bool {
    (t.len() > 0 && spec_is_digit(t[0])) || t.contains('\'')
}

pub open spec fn port_dir_of(s: Seq<char>) -> Option<PortDir> {
    if s == "input"@ {
        Some(PortDir::Input)
    } else if s == "output"@ {
        Some(PortDir::Output)
    } else if s == "inout"@ {
        Some(PortDir::Inout)
    } else {
        None
    }
}

pub open spec fn binary_op_of(s: Seq<char>) -> Option<BinaryOp> {
    if s == "and"@ {
        Some(BinaryOp::And)
    } else if s == "or"@ {
        Some(BinaryOp::Or)
    } else if s == "xor"@ {
        Some(BinaryOp::Xor)
    } else if s == "+"@ {
        Some(BinaryOp::Add)
    } else if s == "-"@ {
        Some(BinaryOp::Sub)
    } else if s == "*"@ {
        Some(BinaryOp::Mul)
    } else if s == "=="@ {
        Some(BinaryOp::Eq)
    } else if s == "!="@ {
        Some(BinaryOp::Ne)
    } else if s == ">"@ {
        Some(BinaryOp::Gt)
    } else if s == "<"@ {
        Some(BinaryOp::Lt)
    } else if s == ">="@ {
        Some(BinaryOp::Ge)
    } else if s == "<="@ {
        Some(BinaryOp::Le)
    } else if s == "<<"@ {
        Some(BinaryOp::Shl)
    } else if s == ">>"@ {
        Some(BinaryOp::Shr)
    } else {
        None
    }
}

/// The operator names of expressions: `and`, `or`, `xor`, `+`, `-`, `*`,
/// `==`, `!=`, `>`, `<`, `>=`, `<=`, `<<` and `>>` name the bitwise
/// conjunction, disjunction and exclusive or, addition, subtraction,
/// multiplication, equality, inequality, greater, less, greater-or-equal,
/// less-or-equal, left and right shift; different names name different
/// operators.
pub proof fn lemma_operator_names()
    ensures
        binary_op_of("and"@) == Some(BinaryOp::And),
        binary_op_of("or"@) == Some(BinaryOp::Or),
        binary_op_of("xor"@) == Some(BinaryOp::Xor),
        binary_op_of("+"@) == Some(BinaryOp::Add),
        binary_op_of("-"@) == Some(BinaryOp::Sub),
        binary_op_of("*"@) == Some(BinaryOp::Mul),
        binary_op_of("=="@) == Some(BinaryOp::Eq),
        binary_op_of("!="@) == Some(BinaryOp::Ne),
        binary_op_of(">"@) == Some(BinaryOp::Gt),
        binary_op_of("<"@) == Some(BinaryOp::Lt),
        binary_op_of(">="@) == Some(BinaryOp::Ge),
        binary_op_of("<="@) == Some(BinaryOp::Le),
        binary_op_of("<<"@) == Some(BinaryOp::Shl),
        binary_op_of(">>"@) == Some(BinaryOp::Shr),
        forall|s: Seq<char>, t: Seq<char>|
            #![trigger binary_op_of(s), binary_op_of(t)]
            binary_op_of(s) is Some && binary_op_of(s) == binary_op_of(t) ==> s == t,
{
    reveal_strlit("and");
    reveal_strlit("or");
    reveal_strlit("xor");
    reveal_strlit("+");
    reveal_strlit("-");
    reveal_strlit("*");
    reveal_strlit("==");
    reveal_strlit("!=");
    reveal_strlit(">");
    reveal_strlit("<");
    reveal_strlit(">=");
    reveal_strlit("<=");
    reveal_strlit("<<");
    reveal_strlit(">>");
    assert("and"@.len() == 3 && "and"@[0] == 'a' && "and"@.last() == 'd');
    assert("or"@.len() == 2 && "or"@[0] == 'o' && "or"@.last() == 'r');
    assert("xor"@.len() == 3 && "xor"@[0] == 'x' && "xor"@.last() == 'r');
    assert("+"@.len() == 1 && "+"@[0] == '+' && "+"@.last() == '+');
    assert("-"@.len() == 1 && "-"@[0] == '-' && "-"@.last() == '-');
    assert("*"@.len() == 1 && "*"@[0] == '*' && "*"@.last() == '*');
    assert("=="@.len() == 2 && "=="@[0] == '=' && "=="@.last() == '=');
    assert("!="@.len() == 2 && "!="@[0] == '!' && "!="@.last() == '=');
    assert(">"@.len() == 1 && ">"@[0] == '>' && ">"@.last() == '>');
    assert("<"@.len() == 1 && "<"@[0] == '<' && "<"@.last() == '<');
    assert(">="@.len() == 2 && ">="@[0] == '>' && ">="@.last() == '=');
    assert("<="@.len() == 2 && "<="@[0] == '<' && "<="@.last() == '=');
    assert("<<"@.len() == 2 && "<<"@[0] == '<' && "<<"@.last() == '<');
    assert(">>"@.len() == 2 && ">>"@[0] == '>' && ">>"@.last() == '>');
}

/// Every element of `l` is an atom.
pub open spec fn all_atoms(l: Seq<SpecSExpr>) -> bool {
    forall|i: int| 0 <= i < l.len() ==> (#[trigger] l[i]) is Atom
}

/// The texts of the atoms `l`.
pub open spec fn atom_texts(l: Seq<SpecSExpr>) -> Seq<Seq<char>> {
    Seq::new(l.len(), |i: int| l[i]->Atom_0)
}

pub open spec fn spec_parse_port(p: Seq<SpecSExpr>, span: Span, file: Seq<char>) -> Result<
    Seq<SpecPort>,
    SpecDiag,
> {
    if p.len() < 2 {
        Err(spec_diag("Invalid port declaration"@, file, span))
    } else {
        match p[0] {
            SpecSExpr::Atom(s, _) => match port_dir_of(s) {
                None => Err(spec_diag("Unknown port direction: "@ + s, file, span)),
                Some(dir) => {
                    let reg = is_atom(p[1], "reg"@);
                    let rest = if reg {
                        p.skip(2)
                    } else {
                        p.skip(1)
                    };
                    if !all_atoms(rest) {
                        Err(spec_diag("Expected port name"@, file, span))
                    } else {
                        let all = atom_texts(rest);
                        let has_width = all.len() > 0 && is_literal_text(all.last());
                        let names = if has_width {
                            all.drop_last()
                        } else {
                            all
                        };
                        let width = if has_width {
                            Some(all.last())
                        } else {
                            None
                        };
                        Ok(
                            Seq::new(
                                names.len(),
                                |i: int|
                                    SpecPort { direction: dir, name: names[i], width, reg },
                            ),
                        )
                    }
                },
            },
            SpecSExpr::List(..) => Err(spec_diag("Expected direction keyword"@, file, span)),
        }
    }
}

/// `p` declares ports: its first element is a direction keyword.
pub open spec fn is_port_decl(p: Seq<SpecSExpr>) -> bool {
    p.len() > 0 && p[0] is Atom && port_dir_of(p[0]->Atom_0) is Some
}

/// The ports declared in `l[i..]`, at any depth of nesting, after `acc`.
pub open spec fn spec_collect_ports(
    l: Seq<SpecSExpr>,
    i: int,
    file: Seq<char>,
    acc: Seq<SpecPort>,
) -> Result<Seq<SpecPort>, SpecDiag>
    decreases l, l.len() - i,
{
    if i < 0 || i >= l.len() {
        Ok(acc)
    } else {
        match l[i] {
            SpecSExpr::List(p, sp) => {
                let r = if is_port_decl(p) {
                    spec_parse_port(p, sp, file)
                } else {
                    spec_collect_ports(p, 0, file, Seq::empty())
                };
                match r {
                    Ok(ps) => spec_collect_ports(l, i + 1, file, acc + ps),
                    Err(e) => Err(e),
                }
            },
            SpecSExpr::Atom(..) => spec_collect_ports(l, i + 1, file, acc),
        }
    }
}

pub open spec fn spec_parse_signal(items: Seq<SpecSExpr>, span: Span, file: Seq<char>) -> Result<
    SpecSignal,
    SpecDiag,
> {
    if items.len() < 2 {
        Err(spec_diag("Missing signal name"@, file, span))
    } else {
        match items[1] {
            SpecSExpr::Atom(name, _) => if items.len() >= 3 {
                match items[2] {
                    SpecSExpr::Atom(w, _) => Ok(SpecSignal { name, width: Some(w) }),
                    SpecSExpr::List(..) => Err(spec_diag("Width must be atom"@, file, span)),
                }
            } else {
                Ok(SpecSignal { name, width: None })
            },
            SpecSExpr::List(..) => Err(spec_diag("Signal name must be atom"@, file, span)),
        }
    }
}

/// The events of `items[i..]` after `acc`.
pub open spec fn spec_sens_items(
    items: Seq<SpecSExpr>,
    i: int,
    file: Seq<char>,
    acc: Seq<SpecSensitivity>,
) -> Result<Seq<SpecSensitivity>, SpecDiag>
    decreases items.len() - i,
{
    if i < 0 || i >= items.len() {
        Ok(acc)
    } else {
        match items[i] {
            SpecSExpr::List(sub, ssp) => if sub.len() != 2 {
                Err(spec_diag("Invalid sensitivity event"@, file, ssp))
            } else {
                match sub[0] {
                    SpecSExpr::Atom(k, _) => if k == "posedge"@ {
                        match sub[1] {
                            SpecSExpr::Atom(sig, _) => spec_sens_items(
                                items,
                                i + 1,
                                file,
                                acc.push(SpecSensitivity::PosEdge(sig)),
                            ),
                            SpecSExpr::List(..) => Err(
                                spec_diag("Expected signal name"@, file, ssp),
                            ),
                        }
                    } else if k == "negedge"@ {
                        match sub[1] {
                            SpecSExpr::Atom(sig, _) => spec_sens_items(
                                items,
                                i + 1,
                                file,
                                acc.push(SpecSensitivity::NegEdge(sig)),
                            ),
                            SpecSExpr::List(..) => Err(
                                spec_diag("Expected signal name"@, file, ssp),
                            ),
                        }
                    } else {
                        Err(spec_diag("Unknown event type: "@ + k, file, ssp))
                    },
                    SpecSExpr::List(..) => Err(spec_diag("Expected event type"@, file, ssp)),
                }
            },
            SpecSExpr::Atom(sig, _) => spec_sens_items(
                items,
                i + 1,
                file,
                acc.push(SpecSensitivity::Level(sig)),
            ),
        }
    }
}

pub open spec fn spec_parse_sensitivity(s: SpecSExpr, file: Seq<char>) -> Result<
    Seq<SpecSensitivity>,
    SpecDiag,
> {
    match s {
        SpecSExpr::List(list, _) => {
            let start = if list.len() > 0 && is_atom(list[0], "or"@) {
                1int
            } else {
                0int
            };
            spec_sens_items(list, start, file, Seq::empty())
        },
        SpecSExpr::Atom(_, span) => Err(spec_diag("Sensitivity list must be a list"@, file, span)),
    }
}

/// The index that an atom spells, as `str::parse::<usize>` reads it.
pub open spec fn atom_index(s: SpecSExpr) -> Option<usize> {
    spec_parse_usize(s->Atom_0)
}

pub open spec fn spec_parse_assign_target(s: SpecSExpr, file: Seq<char>) -> Result<
    SpecAssignTarget,
    SpecDiag,
> {
    match s {
        SpecSExpr::List(list, span) => if list.len() >= 2 {
            if is_atom(list[0], "signal"@) {
                match list[1] {
                    SpecSExpr::Atom(n, _) => if list.len() >= 3 && list[2] is Atom {
                        match atom_index(list[2]) {
                            Some(idx) => Ok(SpecAssignTarget::Signal(n, Some(idx))),
                            None => Err(spec_diag("Invalid index"@, file, span)),
                        }
                    } else {
                        Ok(SpecAssignTarget::Signal(n, None))
                    },
                    SpecSExpr::List(..) => Err(spec_diag("Expected signal name"@, file, span)),
                }
            } else if is_atom(list[0], "slice"@) {
                if list.len() != 4 {
                    Err(spec_diag("Invalid slice: (slice sig high low)"@, file, span))
                } else if !(list[1] is Atom) {
                    Err(spec_diag("Expected signal name"@, file, span))
                } else if !(list[2] is Atom) {
                    Err(spec_diag("Expected high index"@, file, span))
                } else if atom_index(list[2]) is None {
                    Err(spec_diag("Invalid high"@, file, span))
                } else if !(list[3] is Atom) {
                    Err(spec_diag("Expected low index"@, file, span))
                } else if atom_index(list[3]) is None {
                    Err(spec_diag("Invalid low"@, file, span))
                } else {
                    Ok(
                        SpecAssignTarget::Slice(
                            list[1]->Atom_0,
                            atom_index(list[2])->0,
                            atom_index(list[3])->0,
                        ),
                    )
                }
            } else {
                Err(spec_diag("Unknown assign target"@, file, span))
            }
        } else {
            Err(spec_diag("Invalid assign target"@, file, span))
        },
        SpecSExpr::Atom(s, _) => Ok(SpecAssignTarget::Signal(s, None)),
    }
}

pub open spec fn spec_parse_expr(s: SpecSExpr, file: Seq<char>) -> Result<SpecExpr, SpecDiag>
    decreases s, 0int,
{
    match s {
        SpecSExpr::Atom(t, _) => if is_literal_text(t) {
            Ok(SpecExpr::Literal(t))
        } else {
            Ok(SpecExpr::Ident(t))
        },
        SpecSExpr::List(list, span) => if list.len() == 0 {
            Err(spec_diag("Empty expression"@, file, span))
        } else {
            match list[0] {
                SpecSExpr::Atom(op, _) => if op == "slice"@ {
                    if list.len() != 4 {
                        Err(spec_diag("Invalid slice expression"@, file, span))
                    } else {
                        match spec_parse_expr(list[1], file) {
                            Err(e) => Err(e),
                            Ok(e) => if !(list[2] is Atom) {
                                Err(spec_diag("Expected high index"@, file, span))
                            } else if atom_index(list[2]) is None {
                                Err(spec_diag("Invalid high"@, file, span))
                            } else if !(list[3] is Atom) {
                                Err(spec_diag("Expected low index"@, file, span))
                            } else if atom_index(list[3]) is None {
                                Err(spec_diag("Invalid low"@, file, span))
                            } else {
                                Ok(
                                    SpecExpr::Slice(
                                        Box::new(e),
                                        atom_index(list[2])->0,
                                        atom_index(list[3])->0,
                                    ),
                                )
                            },
                        }
                    }
                } else if op == "concat"@ {
                    match spec_parse_exprs(list, 1, file, Seq::empty()) {
                        Ok(v) => Ok(SpecExpr::Concat(v)),
                        Err(e) => Err(e),
                    }
                } else if op == "signal"@ {
                    if list.len() < 2 {
                        Err(spec_diag("signal requires at least a name"@, file, span))
                    } else {
                        match list[1] {
                            SpecSExpr::Atom(name, _) => if list.len() >= 3 {
                                if !(list[2] is Atom) {
                                    Err(spec_diag("index must be a number"@, file, span))
                                } else {
                                    match atom_index(list[2]) {
                                        Some(idx) => Ok(
                                            SpecExpr::Slice(
                                                Box::new(SpecExpr::Ident(name)),
                                                idx,
                                                idx,
                                            ),
                                        ),
                                        None => Err(spec_diag("Invalid index"@, file, span)),
                                    }
                                }
                            } else {
                                Ok(SpecExpr::Ident(name))
                            },
                            SpecSExpr::List(..) => Err(
                                spec_diag("signal name must be an atom"@, file, span),
                            ),
                        }
                    }
                } else if op == "not"@ {
                    if list.len() != 2 {
                        Err(spec_diag("not requires one argument"@, file, span))
                    } else {
                        match spec_parse_expr(list[1], file) {
                            Ok(e) => Ok(SpecExpr::UnaryOp(UnaryOp::Not, Box::new(e))),
                            Err(e) => Err(e),
                        }
                    }
                } else if binary_op_of(op) is Some {
                    if list.len() != 3 {
                        Err(spec_diag("Binary operator requires two arguments"@, file, span))
                    } else {
                        match spec_parse_expr(list[1], file) {
                            Err(e) => Err(e),
                            Ok(a) => match spec_parse_expr(list[2], file) {
                                Err(e) => Err(e),
                                Ok(b) => Ok(
                                    SpecExpr::BinaryOp(
                                        binary_op_of(op)->0,
                                        Box::new(a),
                                        Box::new(b),
                                    ),
                                ),
                            },
                        }
                    }
                } else if op == "cond"@ {
                    if list.len() != 3 {
                        Err(spec_diag("cond requires two branches"@, file, span))
                    } else if !(list[1] is List && list[1]->List_0.len() == 2) {
                        Err(spec_diag("Invalid condition branch"@, file, span))
                    } else {
                        let l = list[1]->List_0;
                        match spec_parse_expr(l[0], file) {
                            Err(e) => Err(e),
                            Ok(c) => match spec_parse_expr(l[1], file) {
                                Err(e) => Err(e),
                                Ok(t) => if !(list[2] is List && list[2]->List_0.len() == 2
                                    && is_atom(list[2]->List_0[0], "else"@)) {
                                    Err(spec_diag("Invalid else branch"@, file, span))
                                } else {
                                    match spec_parse_expr(list[2]->List_0[1], file) {
                                        Err(e) => Err(e),
                                        Ok(f) => Ok(
                                            SpecExpr::Cond(Box::new(c), Box::new(t), Box::new(f)),
                                        ),
                                    }
                                },
                            },
                        }
                    }
                } else {
                    Err(spec_diag("Unknown operator: "@ + op, file, span))
                },
                SpecSExpr::List(..) => Err(spec_diag("Expected operator"@, file, span)),
            }
        },
    }
}

/// The expressions of `l[i..]`, after `acc`.
pub open spec fn spec_parse_exprs(
    l: Seq<SpecSExpr>,
    i: int,
    file: Seq<char>,
    acc: Seq<SpecExpr>,
) -> Result<Seq<SpecExpr>, SpecDiag>
    decreases l, l.len() - i,
{
    if i < 0 || i >= l.len() {
        Ok(acc)
    } else {
        match spec_parse_expr(l[i], file) {
            Ok(e) => spec_parse_exprs(l, i + 1, file, acc.push(e)),
            Err(e) => Err(e),
        }
    }
}

/// Reading the statement `s` after the statements `acc` (a `begin` block
/// adds its statements in order).
pub open spec fn spec_stmt_into(s: SpecSExpr, file: Seq<char>, acc: Seq<SpecStatement>) -> Result<
    Seq<SpecStatement>,
    SpecDiag,
>
    decreases s, 0int,
{
    match s {
        SpecSExpr::List(list, span) => if list.len() == 0 {
            Ok(acc)
        } else {
            match list[0] {
                SpecSExpr::Atom(k, _) => if k == "block-write"@ || k == "nb-write"@ {
                    if list.len() != 3 {
                        Err(
                            spec_diag(
                                if k == "block-write"@ {
                                    "Invalid block-write"@
                                } else {
                                    "Invalid nb-write"@
                                },
                                file,
                                span,
                            ),
                        )
                    } else {
                        match spec_parse_assign_target(list[1], file) {
                            Err(e) => Err(e),
                            Ok(t) => match spec_parse_expr(list[2], file) {
                                Err(e) => Err(e),
                                Ok(e) => Ok(
                                    acc.push(
                                        if k == "block-write"@ {
                                            SpecStatement::BlockWrite(t, e)
                                        } else {
                                            SpecStatement::NonBlockWrite(t, e)
                                        },
                                    ),
                                ),
                            },
                        }
                    }
                } else if k == "if"@ {
                    if list.len() < 3 {
                        Err(spec_diag("Invalid if statement"@, file, span))
                    } else {
                        match spec_parse_expr(list[1], file) {
                            Err(e) => Err(e),
                            Ok(c) => match spec_stmt_into(list[2], file, Seq::empty()) {
                                Err(e) => Err(e),
                                Ok(th) => if list.len() >= 4 {
                                    match spec_stmt_into(list[3], file, Seq::empty()) {
                                        Err(e) => Err(e),
                                        Ok(el) => Ok(acc.push(SpecStatement::If(c, th, el))),
                                    }
                                } else {
                                    Ok(acc.push(SpecStatement::If(c, th, Seq::empty())))
                                },
                            },
                        }
                    }
                } else if k == "begin"@ {
                    spec_stmts_from(list, 1, file, acc)
                } else {
                    Err(spec_diag("Unknown statement: "@ + k, file, span))
                },
                SpecSExpr::List(..) => Err(spec_diag("Expected statement keyword"@, file, span)),
            }
        },
        SpecSExpr::Atom(_, span) => Err(spec_diag("Statement must be a list"@, file, span)),
    }
}

/// Reading the statements `l[i..]` after the statements `acc`.
pub open spec fn spec_stmts_from(
    l: Seq<SpecSExpr>,
    i: int,
    file: Seq<char>,
    acc: Seq<SpecStatement>,
) -> Result<Seq<SpecStatement>, SpecDiag>
    decreases l, l.len() - i,
{
    if i < 0 || i >= l.len() {
        Ok(acc)
    } else {
        match spec_stmt_into(l[i], file, acc) {
            Ok(a) => spec_stmts_from(l, i + 1, file, a),
            Err(e) => Err(e),
        }
    }
}

pub open spec fn spec_parse_assign(items: Seq<SpecSExpr>, span: Span, file: Seq<char>) -> Result<
    SpecAssign,
    SpecDiag,
> {
    if items.len() != 3 {
        Err(spec_diag("Invalid assign"@, file, span))
    } else {
        match spec_parse_assign_target(items[1], file) {
            Err(e) => Err(e),
            Ok(target) => match spec_parse_expr(items[2], file) {
                Err(e) => Err(e),
                Ok(expr) => Ok(SpecAssign { target, expr }),
            },
        }
    }
}

pub open spec fn spec_parse_process(items: Seq<SpecSExpr>, span: Span, file: Seq<char>) -> Result<
    SpecProcess,
    SpecDiag,
> {
    if items.len() < 3 {
        Err(spec_diag("Invalid process"@, file, span))
    } else {
        match spec_parse_sensitivity(items[1], file) {
            Err(e) => Err(e),
            Ok(sensitivity) => match spec_stmts_from(items, 2, file, Seq::empty()) {
                Err(e) => Err(e),
                Ok(body) => Ok(SpecProcess { sensitivity, body }),
            },
        }
    }
}

/// The port mappings `l[i..]` after `acc`.
pub open spec fn spec_port_mappings(
    l: Seq<SpecSExpr>,
    i: int,
    span: Span,
    file: Seq<char>,
    acc: Seq<(Seq<char>, SpecExpr)>,
) -> Result<Seq<(Seq<char>, SpecExpr)>, SpecDiag>
    decreases l.len() - i,
{
    if i < 0 || i >= l.len() {
        Ok(acc)
    } else {
        match l[i] {
            SpecSExpr::List(m, sub_span) => if m.len() != 2 {
                Err(spec_diag("Invalid port mapping"@, file, sub_span))
            } else {
                match m[0] {
                    SpecSExpr::Atom(port, _) => match spec_parse_expr(m[1], file) {
                        Err(e) => Err(e),
                        Ok(e) => spec_port_mappings(l, i + 1, span, file, acc.push((port, e))),
                    },
                    SpecSExpr::List(..) => Err(
                        spec_diag("Port name must be atom"@, file, sub_span),
                    ),
                }
            },
            SpecSExpr::Atom(..) => Err(spec_diag("Port map must be list of pairs"@, file, span)),
        }
    }
}

pub open spec fn spec_parse_instance(items: Seq<SpecSExpr>, span: Span, file: Seq<char>) -> Result<
    SpecInstance,
    SpecDiag,
> {
    if items.len() < 4 {
        Err(spec_diag("Invalid instance"@, file, span))
    } else if !(items[1] is Atom) {
        Err(spec_diag("Module name must be atom"@, file, span))
    } else if !(items[2] is Atom) {
        Err(spec_diag("Instance name must be atom"@, file, span))
    } else {
        match items[3] {
            SpecSExpr::List(list, _) => {
                let start = if list.len() > 0 && is_atom(list[0], "port-map"@) {
                    1int
                } else {
                    0int
                };
                match spec_port_mappings(list, start, span, file, Seq::empty()) {
                    Err(e) => Err(e),
                    Ok(m) => Ok(
                        SpecInstance {
                            module_name: items[1]->Atom_0,
                            instance_name: items[2]->Atom_0,
                            port_map: SpecPortMap::ByName(m),
                        },
                    ),
                }
            },
            SpecSExpr::Atom(..) => Err(spec_diag("Port map must be a list"@, file, span)),
        }
    }
}

/// Reading the forms `forms[i..]` of a module into the module `m`.
pub open spec fn spec_module_forms(
    forms: Seq<SpecSExpr>,
    i: int,
    file: Seq<char>,
    m: SpecModule,
) -> Result<SpecModule, SpecDiag>
    decreases forms.len() - i,
{
    if i < 0 || i >= forms.len() {
        Ok(m)
    } else {
        match forms[i] {
            SpecSExpr::List(items, isp) => if items.len() == 0 {
                spec_module_forms(forms, i + 1, file, m)
            } else {
                match items[0] {
                    SpecSExpr::Atom(k, _) => if k == "ports"@ {
                        match spec_collect_ports(items, 1, file, Seq::empty()) {
                            Err(e) => Err(e),
                            Ok(p) => spec_module_forms(
                                forms,
                                i + 1,
                                file,
                                SpecModule { ports: p, ..m },
                            ),
                        }
                    } else if k == "wire"@ {
                        match spec_parse_signal(items, isp, file) {
                            Err(e) => Err(e),
                            Ok(w) => spec_module_forms(
                                forms,
                                i + 1,
                                file,
                                SpecModule { wires: m.wires.push(w), ..m },
                            ),
                        }
                    } else if k == "reg"@ {
                        match spec_parse_signal(items, isp, file) {
                            Err(e) => Err(e),
                            Ok(w) => spec_module_forms(
                                forms,
                                i + 1,
                                file,
                                SpecModule { regs: m.regs.push(w), ..m },
                            ),
                        }
                    } else if k == "process"@ {
                        match spec_parse_process(items, isp, file) {
                            Err(e) => Err(e),
                            Ok(p) => spec_module_forms(
                                forms,
                                i + 1,
                                file,
                                SpecModule { processes: m.processes.push(p), ..m },
                            ),
                        }
                    } else if k == "assign"@ {
                        match spec_parse_assign(items, isp, file) {
                            Err(e) => Err(e),
                            Ok(a) => spec_module_forms(
                                forms,
                                i + 1,
                                file,
                                SpecModule { assigns: m.assigns.push(a), ..m },
                            ),
                        }
                    } else if k == "instance"@ {
                        match spec_parse_instance(items, isp, file) {
                            Err(e) => Err(e),
                            Ok(a) => spec_module_forms(
                                forms,
                                i + 1,
                                file,
                                SpecModule { instances: m.instances.push(a), ..m },
                            ),
                        }
                    } else {
                        Err(spec_diag("Unknown form: "@ + k, file, isp))
                    },
                    SpecSExpr::List(..) => Err(spec_diag("Expected keyword"@, file, isp)),
                }
            },
            SpecSExpr::Atom(_, asp) => Err(spec_diag("Expected list form"@, file, asp)),
        }
    }
}

/// The module with the given name and nothing in it.
pub open spec fn empty_module(name: Seq<char>) -> SpecModule {
    SpecModule {
        name,
        ports: Seq::empty(),
        wires: Seq::empty(),
        regs: Seq::empty(),
        processes: Seq::empty(),
        assigns: Seq::empty(),
        instances: Seq::empty(),
    }
}

pub open spec fn spec_parse_module(list: Seq<SpecSExpr>, span: Span, file: Seq<char>) -> Result<
    SpecModule,
    SpecDiag,
> {
    if list.len() < 3 {
        Err(spec_diag("Invalid module definition: too few elements"@, file, span))
    } else {
        match list[1] {
            SpecSExpr::Atom(name, _) => spec_module_forms(list, 2, file, empty_module(name)),
            SpecSExpr::List(..) => Err(spec_diag("Module name must be an atom"@, file, span)),
        }
    }
}

/// Reading the top-level forms `l[i..]`, each a module, after `acc`.
pub open spec fn spec_modules_from(
    l: Seq<SpecSExpr>,
    i: int,
    file: Seq<char>,
    acc: Seq<SpecModule>,
) -> Result<Seq<SpecModule>, SpecDiag>
    decreases l.len() - i,
{
    if i < 0 || i >= l.len() {
        Ok(acc)
    } else {
        match l[i] {
            SpecSExpr::List(list, span) => if list.len() > 0 && list[0] is Atom {
                if list[0]->Atom_0 == "module"@ {
                    match spec_parse_module(list, span, file) {
                        Ok(m) => spec_modules_from(l, i + 1, file, acc.push(m)),
                        Err(e) => Err(e),
                    }
                } else {
                    Err(spec_diag("Unexpected top-level form: "@ + list[0]->Atom_0, file, span))
                }
            } else {
                Err(spec_diag("Expected module definition"@, file, span))
            },
            SpecSExpr::Atom(_, span) => Err(spec_diag("Expected list at top level"@, file, span)),
        }
    }
}

/// The modules that the top-level S-expressions `sexprs` describe.
pub open spec fn spec_parse_modules(sexprs: Seq<SpecSExpr>, file: Seq<char>) -> Result<
    Seq<SpecModule>,
    SpecDiag,
> {
    spec_modules_from(sexprs, 0, file, Seq::empty())
}

} // verus!

verus! {

/// Whether `s` is the atom `lit`.
fn atom_is(s: &SExpr, lit: &str) -> (b: bool)
    ensures
        b == is_atom(s@, lit@),
{
    match s {
        SExpr::Atom(t, _) => string_is(t, lit),
        SExpr::List(..) => false,
    }
}

/// Whether the atom text `t` is a literal.
#[verifier::loop_isolation(false)]
fn is_literal_atom(t: &String) -> (b: bool)
    ensures
        b == is_literal_text(t@),
{
    let cs = chars_of(t.as_str());
    if cs.len() > 0 && is_ascii_digit(cs[0]) {
        return true;
    }
    let mut i: usize = 0;
    while i < cs.len()
        invariant
            i <= cs.len(),
            cs@ == t@,
            !(cs@.len() > 0 && spec_is_digit(cs@[0])),
            forall|j: int| 0 <= j < i ==> cs@[j] != '\'',
        decreases cs.len() - i,
    {
        if cs[i] == '\'' {
            assert(cs@[i as int] == '\'');
            return true;
        }
        i += 1;
    }
    false
}

/// `prefix` followed by `s`.
fn message_with(prefix: &str, s: &String) -> (r: String)
    ensures
        r@ == prefix@ + s@,
{
    let mut r = string_of(prefix);
    push_str(&mut r, s.as_str());
    r
}

#[verifier::loop_isolation(false)]
fn parse_port(p: &Vec<SExpr>, span: Span, file_name: &str) -> (r: Result<Vec<Port>, Diagnostic>)
    ensures
        ports_res(r) == spec_parse_port(sexprs_view(p@), span, file_name@),
{
    let ghost pv = sexprs_view(p@);
    if p.len() < 2 {
        return Err(diag("Invalid port declaration", file_name, span));
    }
    let direction = match &p[0] {
        SExpr::Atom(s, _) => {
            if string_is(s, "input") {
                PortDir::Input
            } else if string_is(s, "output") {
                PortDir::Output
            } else if string_is(s, "inout") {
                PortDir::Inout
            } else {
                return Err(diag_owned(message_with("Unknown port direction: ", s), file_name, span));
            }
        },
        SExpr::List(..) => {
            return Err(diag("Expected direction keyword", file_name, span));
        },
    };
    let reg = atom_is(&p[1], "reg");
    let start: usize = if reg {
        2
    } else {
        1
    };
    let ghost rest = pv.skip(start as int);
    let mut names: Vec<String> = Vec::new();
    let mut i: usize = start;
    while i < p.len()
        invariant
            start <= i <= p.len(),
            pv == sexprs_view(p@),
            rest == pv.skip(start as int),
            names.len() == i - start,
            forall|j: int| 0 <= j < i - start ==> rest[j] is Atom,
            forall|j: int| 0 <= j < i - start ==> (#[trigger] names@[j])@ == rest[j]->Atom_0,
        decreases p.len() - i,
    {
        assert(rest[i - start] == p@[i as int]@);
        match &p[i] {
            SExpr::Atom(name, _) => {
                names.push(name.clone());
            },
            SExpr::List(..) => {
                return Err(diag("Expected port name", file_name, span));
            },
        }
        i += 1;
    }
    assert(all_atoms(rest));
    let ghost all = atom_texts(rest);
    assert(all.len() == names.len());
    let mut width: Option<String> = None;
    if names.len() > 0 {
        let last_index = names.len() - 1;
        if is_literal_atom(&names[last_index]) {
            width = names.pop();
        }
    }
    let ghost has_width = all.len() > 0 && is_literal_text(all.last());
    assert(has_width ==> width is Some && width->0@ == all.last());
    assert(!has_width ==> width is None);
    let mut ports: Vec<Port> = Vec::new();
    let mut k: usize = 0;
    while k < names.len()
        invariant
            k <= names.len(),
            ports.len() == k,
            names.len() == (if has_width {
                all.len() - 1
            } else {
                all.len() as int
            }),
            forall|j: int| 0 <= j < names.len() ==> (#[trigger] names@[j])@ == all[j],
            forall|j: int|
                0 <= j < k ==> (#[trigger] ports@[j])@ == (SpecPort {
                    direction,
                    name: all[j],
                    width: opt_text(width),
                    reg,
                }),
        decreases names.len() - k,
    {
        let d = match direction {
            PortDir::Input => PortDir::Input,
            PortDir::Output => PortDir::Output,
            PortDir::Inout => PortDir::Inout,
        };
        let w = match &width {
            Some(s) => Some(s.clone()),
            None => None,
        };
        ports.push(Port { direction: d, name: names[k].clone(), width: w, reg });
        k += 1;
    }
    let ghost names_spec = if has_width {
        all.drop_last()
    } else {
        all
    };
    assert(ports_view(ports@) =~= Seq::new(
        names_spec.len(),
        |j: int|
            SpecPort {
                direction,
                name: names_spec[j],
                width: if has_width {
                    Some(all.last())
                } else {
                    None
                },
                reg,
            },
    ));
    Ok(ports)
}

#[verifier::loop_isolation(false)]
pub(crate) fn collect_ports(sexprs: &Vec<SExpr>, start: usize, file_name: &str) -> (r: Result<
    Vec<Port>,
    Diagnostic,
>)
    ensures
        ports_res(r) == spec_collect_ports(sexprs_view(sexprs@), start as int, file_name@, Seq::empty()),
    decreases sexprs,
{
    let ghost l = sexprs_view(sexprs@);
    let ghost target = spec_collect_ports(l, start as int, file_name@, Seq::empty());
    let mut ports: Vec<Port> = Vec::new();
    let mut i: usize = start;
    assert(ports_view(ports@) =~= Seq::<SpecPort>::empty());
    while i < sexprs.len()
        invariant
            l == sexprs_view(sexprs@),
            target == spec_collect_ports(l, start as int, file_name@, Seq::empty()),
            i >= start,
            spec_collect_ports(l, i as int, file_name@, ports_view(ports@)) == target,
        decreases sexprs.len() - i,
    {
        assert(l[i as int] == sexprs@[i as int]@);
        match &sexprs[i] {
            SExpr::List(p, sub_span) => {
                let is_decl = p.len() > 0 && match &p[0] {
                    SExpr::Atom(first, _) => string_is(first, "input") || string_is(first, "output")
                        || string_is(first, "inout"),
                    SExpr::List(..) => false,
                };
                assert(is_decl == is_port_decl(sexprs_view(p@)));
                let new_ports = if is_decl {
                    parse_port(p, *sub_span, file_name)
                } else {
                    collect_ports(p, 0, file_name)
                };
                match new_ports {
                    Ok(np) => {
                        let ghost before = ports_view(ports@);
                        let mut np = np;
                        let ghost added = ports_view(np@);
                        ports.append(&mut np);
                        assert(ports_view(ports@) =~= before + added);
                    },
                    Err(d) => {
                        return Err(d);
                    },
                }
            },
            SExpr::Atom(..) => {},
        }
        i += 1;
    }
    Ok(ports)
}

fn parse_ports(items: &Vec<SExpr>, span: Span, file_name: &str) -> (r: Result<Vec<Port>, Diagnostic>)
    ensures
        ports_res(r) == spec_collect_ports(sexprs_view(items@), 1, file_name@, Seq::empty()),
{
    collect_ports(items, 1, file_name)
}

fn parse_signal(items: &Vec<SExpr>, span: Span, file_name: &str) -> (r: Result<Signal, Diagnostic>)
    ensures
        res_view(r) == spec_parse_signal(sexprs_view(items@), span, file_name@),
{
    if items.len() < 2 {
        return Err(diag("Missing signal name", file_name, span));
    }
    let name = match &items[1] {
        SExpr::Atom(s, _) => s.clone(),
        SExpr::List(..) => {
            return Err(diag("Signal name must be atom", file_name, span));
        },
    };
    let width = if items.len() >= 3 {
        match &items[2] {
            SExpr::Atom(s, _) => Some(s.clone()),
            SExpr::List(..) => {
                return Err(diag("Width must be atom", file_name, span));
            },
        }
    } else {
        None
    };
    Ok(Signal { name, width })
}

fn parse_process(items: &Vec<SExpr>, span: Span, file_name: &str) -> (r: Result<Process, Diagnostic>)
    ensures
        res_view(r) == spec_parse_process(sexprs_view(items@), span, file_name@),
{
    if items.len() < 3 {
        return Err(diag("Invalid process", file_name, span));
    }
    let sensitivity = match parse_sensitivity(&items[1], file_name) {
        Ok(s) => s,
        Err(d) => {
            return Err(d);
        },
    };
    let mut body: Vec<Statement> = Vec::new();
    assert(stmts_view(body@) =~= Seq::<SpecStatement>::empty());
    match parse_statements(items, 2, file_name, &mut body) {
        Ok(()) => {},
        Err(d) => {
            return Err(d);
        },
    }
    Ok(Process { sensitivity, body })
}

#[verifier::loop_isolation(false)]
fn parse_sensitivity(sexpr: &SExpr, file_name: &str) -> (r: Result<Vec<Sensitivity>, Diagnostic>)
    ensures
        sens_res(r) == spec_parse_sensitivity(sexpr@, file_name@),
{
    match sexpr {
        SExpr::List(list, _) => {
            let ghost l = sexprs_view(list@);
            let start: usize = if list.len() > 0 && atom_is(&list[0], "or") {
                1
            } else {
                0
            };
            let ghost target = spec_sens_items(l, start as int, file_name@, Seq::empty());
            let mut sens: Vec<Sensitivity> = Vec::new();
            assert(sens_view(sens@) =~= Seq::<SpecSensitivity>::empty());
            let mut i: usize = start;
            while i < list.len()
                invariant
                    l == sexprs_view(list@),
                    i >= start,
                    spec_sens_items(l, i as int, file_name@, sens_view(sens@)) == target,
                decreases list.len() - i,
            {
                let ghost acc = sens_view(sens@);
                assert(l[i as int] == list@[i as int]@);
                match &list[i] {
                    SExpr::List(sublist, sub_span) => {
                        if sublist.len() != 2 {
                            return Err(diag("Invalid sensitivity event", file_name, *sub_span));
                        }
                        match &sublist[0] {
                            SExpr::Atom(s, _) => {
                                if string_is(s, "posedge") {
                                    match &sublist[1] {
                                        SExpr::Atom(sig, _) => {
                                            let e = Sensitivity::PosEdge(sig.clone());
                                            sens.push(e);
                                            assert(sens_view(sens@) =~= acc.push(e@));
                                        },
                                        SExpr::List(..) => {
                                            return Err(
                                                diag("Expected signal name", file_name, *sub_span),
                                            );
                                        },
                                    }
                                } else if string_is(s, "negedge") {
                                    match &sublist[1] {
                                        SExpr::Atom(sig, _) => {
                                            let e = Sensitivity::NegEdge(sig.clone());
                                            sens.push(e);
                                            assert(sens_view(sens@) =~= acc.push(e@));
                                        },
                                        SExpr::List(..) => {
                                            return Err(
                                                diag("Expected signal name", file_name, *sub_span),
                                            );
                                        },
                                    }
                                } else {
                                    return Err(
                                        diag_owned(
                                            message_with("Unknown event type: ", s),
                                            file_name,
                                            *sub_span,
                                        ),
                                    );
                                }
                            },
                            SExpr::List(..) => {
                                return Err(diag("Expected event type", file_name, *sub_span));
                            },
                        }
                    },
                    SExpr::Atom(sig, _) => {
                        let e = Sensitivity::Level(sig.clone());
                        sens.push(e);
                        assert(sens_view(sens@) =~= acc.push(e@));
                    },
                }
                i += 1;
            }
            Ok(sens)
        },
        SExpr::Atom(_, span) => Err(diag("Sensitivity list must be a list", file_name, *span)),
    }
}

/// Reads the statement `sexpr` onto the end of `stmts`.
fn parse_statement_into(sexpr: &SExpr, file_name: &str, stmts: &mut Vec<Statement>) -> (r: Result<
    (),
    Diagnostic,
>)
    ensures
        match r {
            Ok(_) => spec_stmt_into(sexpr@, file_name@, stmts_view(old(stmts)@)) == Ok::<
                Seq<SpecStatement>,
                SpecDiag,
            >(stmts_view(final(stmts)@)),
            Err(d) => spec_stmt_into(sexpr@, file_name@, stmts_view(old(stmts)@)) == Err::<
                Seq<SpecStatement>,
                SpecDiag,
            >(d@),
        },
    decreases sexpr, 0int,
{
    let ghost acc = stmts_view(stmts@);
    match sexpr {
        SExpr::List(list, span) => {
            if list.len() == 0 {
                return Ok(());
            }
            match &list[0] {
                SExpr::Atom(s, _) => {
                    let is_block = string_is(s, "block-write");
                    if is_block || string_is(s, "nb-write") {
                        if list.len() != 3 {
                            if is_block {
                                return Err(diag("Invalid block-write", file_name, *span));
                            } else {
                                return Err(diag("Invalid nb-write", file_name, *span));
                            }
                        }
                        let target = match parse_assign_target(&list[1], file_name) {
                            Ok(t) => t,
                            Err(d) => {
                                return Err(d);
                            },
                        };
                        let expr = match parse_expr(&list[2], file_name) {
                            Ok(e) => e,
                            Err(d) => {
                                return Err(d);
                            },
                        };
                        let st = if is_block {
                            Statement::BlockWrite(target, expr)
                        } else {
                            Statement::NonBlockWrite(target, expr)
                        };
                        stmts.push(st);
                        assert(stmts_view(stmts@) =~= acc.push(st@));
                        Ok(())
                    } else if string_is(s, "if") {
                        if list.len() < 3 {
                            return Err(diag("Invalid if statement", file_name, *span));
                        }
                        let cond = match parse_expr(&list[1], file_name) {
                            Ok(e) => e,
                            Err(d) => {
                                return Err(d);
                            },
                        };
                        let mut then_stmt: Vec<Statement> = Vec::new();
                        assert(stmts_view(then_stmt@) =~= Seq::<SpecStatement>::empty());
                        match parse_statement_into(&list[2], file_name, &mut then_stmt) {
                            Ok(()) => {},
                            Err(d) => {
                                return Err(d);
                            },
                        }
                        let mut else_stmt: Vec<Statement> = Vec::new();
                        assert(stmts_view(else_stmt@) =~= Seq::<SpecStatement>::empty());
                        if list.len() >= 4 {
                            match parse_statement_into(&list[3], file_name, &mut else_stmt) {
                                Ok(()) => {},
                                Err(d) => {
                                    return Err(d);
                                },
                            }
                        }
                        let st = Statement::If(cond, then_stmt, else_stmt);
                        proof {
                            lemma_if_view(cond, then_stmt, else_stmt);
                        }
                        stmts.push(st);
                        assert(stmts_view(stmts@) =~= acc.push(st@));
                        Ok(())
                    } else if string_is(s, "begin") {
                        parse_statements(list, 1, file_name, stmts)
                    } else {
                        Err(diag_owned(message_with("Unknown statement: ", s), file_name, *span))
                    }
                },
                SExpr::List(..) => Err(diag("Expected statement keyword", file_name, *span)),
            }
        },
        SExpr::Atom(_, span) => Err(diag("Statement must be a list", file_name, *span)),
    }
}

/// Reads the statements `sexprs[start..]` onto the end of `stmts`.
#[verifier::loop_isolation(false)]
fn parse_statements(sexprs: &Vec<SExpr>, start: usize, file_name: &str, stmts: &mut Vec<Statement>) -> (r:
    Result<(), Diagnostic>)
    ensures
        match r {
            Ok(_) => spec_stmts_from(
                sexprs_view(sexprs@),
                start as int,
                file_name@,
                stmts_view(old(stmts)@),
            ) == Ok::<Seq<SpecStatement>, SpecDiag>(stmts_view(final(stmts)@)),
            Err(d) => spec_stmts_from(
                sexprs_view(sexprs@),
                start as int,
                file_name@,
                stmts_view(old(stmts)@),
            ) == Err::<Seq<SpecStatement>, SpecDiag>(d@),
        },
    decreases sexprs, 1int,
{
    let ghost l = sexprs_view(sexprs@);
    let ghost target = spec_stmts_from(l, start as int, file_name@, stmts_view(stmts@));
    let mut i: usize = start;
    while i < sexprs.len()
        invariant
            l == sexprs_view(sexprs@),
            i >= start,
            target == spec_stmts_from(l, start as int, file_name@, stmts_view(old(stmts)@)),
            spec_stmts_from(l, i as int, file_name@, stmts_view(stmts@)) == target,
        decreases sexprs.len() - i,
    {
        assert(l[i as int] == sexprs@[i as int]@);
        match parse_statement_into(&sexprs[i], file_name, stmts) {
            Ok(()) => {},
            Err(d) => {
                return Err(d);
            },
        }
        i += 1;
    }
    Ok(())
}

/// Reads an index atom.
fn parse_index(s: &SExpr) -> (r: Option<usize>)
    requires
        s@ is Atom,
    ensures
        r == atom_index(s@),
{
    match s {
        SExpr::Atom(n, _) => parse_usize(n),
        SExpr::List(..) => None,
    }
}

fn parse_assign_target(sexpr: &SExpr, file_name: &str) -> (r: Result<AssignTarget, Diagnostic>)
    ensures
        res_view(r) == spec_parse_assign_target(sexpr@, file_name@),
{
    match sexpr {
        SExpr::List(list, span) => {
            if list.len() >= 2 {
                if atom_is(&list[0], "signal") {
                    let name = match &list[1] {
                        SExpr::Atom(n, _) => n.clone(),
                        SExpr::List(..) => {
                            return Err(diag("Expected signal name", file_name, *span));
                        },
                    };
                    let idx = if list.len() >= 3 {
                        match &list[2] {
                            SExpr::Atom(_, _) => match parse_index(&list[2]) {
                                Some(i) => Some(i),
                                None => {
                                    return Err(diag("Invalid index", file_name, *span));
                                },
                            },
                            SExpr::List(..) => None,
                        }
                    } else {
                        None
                    };
                    Ok(AssignTarget::Signal(name, idx))
                } else if atom_is(&list[0], "slice") {
                    if list.len() != 4 {
                        return Err(diag("Invalid slice: (slice sig high low)", file_name, *span));
                    }
                    let name = match &list[1] {
                        SExpr::Atom(n, _) => n.clone(),
                        SExpr::List(..) => {
                            return Err(diag("Expected signal name", file_name, *span));
                        },
                    };
                    let high = match &list[2] {
                        SExpr::Atom(_, _) => match parse_index(&list[2]) {
                            Some(h) => h,
                            None => {
                                return Err(diag("Invalid high", file_name, *span));
                            },
                        },
                        SExpr::List(..) => {
                            return Err(diag("Expected high index", file_name, *span));
                        },
                    };
                    let low = match &list[3] {
                        SExpr::Atom(_, _) => match parse_index(&list[3]) {
                            Some(l) => l,
                            None => {
                                return Err(diag("Invalid low", file_name, *span));
                            },
                        },
                        SExpr::List(..) => {
                            return Err(diag("Expected low index", file_name, *span));
                        },
                    };
                    Ok(AssignTarget::Slice(name, high, low))
                } else {
                    Err(diag("Unknown assign target", file_name, *span))
                }
            } else {
                Err(diag("Invalid assign target", file_name, *span))
            }
        },
        SExpr::Atom(s, _) => Ok(AssignTarget::Signal(s.clone(), None)),
    }
}

/// Reads the operator name `op` of a binary expression.
fn binary_op(op: &String) -> (r: Option<BinaryOp>)
    ensures
        r == binary_op_of(op@),
{
    if string_is(op, "and") {
        Some(BinaryOp::And)
    } else if string_is(op, "or") {
        Some(BinaryOp::Or)
    } else if string_is(op, "xor") {
        Some(BinaryOp::Xor)
    } else if string_is(op, "+") {
        Some(BinaryOp::Add)
    } else if string_is(op, "-") {
        Some(BinaryOp::Sub)
    } else if string_is(op, "*") {
        Some(BinaryOp::Mul)
    } else if string_is(op, "==") {
        Some(BinaryOp::Eq)
    } else if string_is(op, "!=") {
        Some(BinaryOp::Ne)
    } else if string_is(op, ">") {
        Some(BinaryOp::Gt)
    } else if string_is(op, "<") {
        Some(BinaryOp::Lt)
    } else if string_is(op, ">=") {
        Some(BinaryOp::Ge)
    } else if string_is(op, "<=") {
        Some(BinaryOp::Le)
    } else if string_is(op, "<<") {
        Some(BinaryOp::Shl)
    } else if string_is(op, ">>") {
        Some(BinaryOp::Shr)
    } else {
        None
    }
}

fn parse_expr(sexpr: &SExpr, file_name: &str) -> (r: Result<Expr, Diagnostic>)
    ensures
        res_view(r) == spec_parse_expr(sexpr@, file_name@),
    decreases sexpr, 0int,
{
    match sexpr {
        SExpr::Atom(s, _) => {
            if is_literal_atom(s) {
                Ok(Expr::Literal(s.clone()))
            } else {
                Ok(Expr::Ident(s.clone()))
            }
        },
        SExpr::List(list, span) => {
            if list.len() == 0 {
                return Err(diag("Empty expression", file_name, *span));
            }
            let ghost l = sexprs_view(list@);
            proof {
                lemma_list_view(*list, *span);
                assert(*sexpr == SExpr::List(*list, *span));
                if list@.len() > 1 {
                    assert(l[1] == list@[1]@);
                }
                if list@.len() > 2 {
                    assert(l[2] == list@[2]@);
                }
                if list@.len() > 3 {
                    assert(l[3] == list@[3]@);
                }
            }
            match &list[0] {
                SExpr::Atom(op, _) => {
                    if string_is(op, "slice") {
                        if list.len() != 4 {
                            return Err(diag("Invalid slice expression", file_name, *span));
                        }
                        let expr = match parse_expr(&list[1], file_name) {
                            Ok(e) => e,
                            Err(d) => {
                                return Err(d);
                            },
                        };
                        let high = match &list[2] {
                            SExpr::Atom(_, _) => match parse_index(&list[2]) {
                                Some(h) => h,
                                None => {
                                    return Err(diag("Invalid high", file_name, *span));
                                },
                            },
                            SExpr::List(..) => {
                                return Err(diag("Expected high index", file_name, *span));
                            },
                        };
                        let low = match &list[3] {
                            SExpr::Atom(_, _) => match parse_index(&list[3]) {
                                Some(l) => l,
                                None => {
                                    return Err(diag("Invalid low", file_name, *span));
                                },
                            },
                            SExpr::List(..) => {
                                return Err(diag("Expected low index", file_name, *span));
                            },
                        };
                        Ok(Expr::Slice(Box::new(expr), high, low))
                    } else if string_is(op, "concat") {
                        let mut exprs: Vec<Expr> = Vec::new();
                        assert(exprs_view(exprs@) =~= Seq::<SpecExpr>::empty());
                        match parse_exprs(list, 1, file_name, &mut exprs) {
                            Ok(()) => {},
                            Err(d) => {
                                return Err(d);
                            },
                        }
                        proof {
                            lemma_concat_view(exprs);
                        }
                        Ok(Expr::Concat(exprs))
                    } else if string_is(op, "signal") {
                        if list.len() < 2 {
                            return Err(diag("signal requires at least a name", file_name, *span));
                        }
                        let name = match &list[1] {
                            SExpr::Atom(s, _) => s.clone(),
                            SExpr::List(..) => {
                                return Err(diag("signal name must be an atom", file_name, *span));
                            },
                        };
                        if list.len() >= 3 {
                            let idx = match &list[2] {
                                SExpr::Atom(_, _) => match parse_index(&list[2]) {
                                    Some(i) => i,
                                    None => {
                                        return Err(diag("Invalid index", file_name, *span));
                                    },
                                },
                                SExpr::List(..) => {
                                    return Err(diag("index must be a number", file_name, *span));
                                },
                            };
                            let inner = Expr::Ident(name);
                            assert(inner@ == SpecExpr::Ident(name@));
                            Ok(Expr::Slice(Box::new(inner), idx, idx))
                        } else {
                            Ok(Expr::Ident(name))
                        }
                    } else if string_is(op, "not") {
                        if list.len() != 2 {
                            return Err(diag("not requires one argument", file_name, *span));
                        }
                        match parse_expr(&list[1], file_name) {
                            Ok(e) => Ok(Expr::UnaryOp(UnaryOp::Not, Box::new(e))),
                            Err(d) => Err(d),
                        }
                    } else if let Some(bop) = binary_op(op) {
                        if list.len() != 3 {
                            return Err(
                                diag("Binary operator requires two arguments", file_name, *span),
                            );
                        }
                        let a = match parse_expr(&list[1], file_name) {
                            Ok(e) => e,
                            Err(d) => {
                                return Err(d);
                            },
                        };
                        let b = match parse_expr(&list[2], file_name) {
                            Ok(e) => e,
                            Err(d) => {
                                return Err(d);
                            },
                        };
                        Ok(Expr::BinaryOp(bop, Box::new(a), Box::new(b)))
                    } else if string_is(op, "cond") {
                        if list.len() != 3 {
                            return Err(diag("cond requires two branches", file_name, *span));
                        }
                        let (c, t) = match &list[1] {
                            SExpr::List(cl, csp) => {
                                proof {
                                    lemma_list_view(*cl, *csp);
                                    assert(list@[1] == SExpr::List(*cl, *csp));
                                }
                                if cl.len() != 2 {
                                    return Err(diag("Invalid condition branch", file_name, *span));
                                }
                                let c = match parse_expr(&cl[0], file_name) {
                                    Ok(e) => e,
                                    Err(d) => {
                                        return Err(d);
                                    },
                                };
                                let t = match parse_expr(&cl[1], file_name) {
                                    Ok(e) => e,
                                    Err(d) => {
                                        return Err(d);
                                    },
                                };
                                (c, t)
                            },
                            SExpr::Atom(..) => {
                                return Err(diag("Invalid condition branch", file_name, *span));
                            },
                        };
                        let f = match &list[2] {
                            SExpr::List(el, esp) => {
                                proof {
                                    lemma_list_view(*el, *esp);
                                    assert(list@[2] == SExpr::List(*el, *esp));
                                }
                                if el.len() != 2 || !atom_is(&el[0], "else") {
                                    return Err(diag("Invalid else branch", file_name, *span));
                                }
                                match parse_expr(&el[1], file_name) {
                                    Ok(e) => e,
                                    Err(d) => {
                                        return Err(d);
                                    },
                                }
                            },
                            SExpr::Atom(..) => {
                                return Err(diag("Invalid else branch", file_name, *span));
                            },
                        };
                        Ok(Expr::Cond(Box::new(c), Box::new(t), Box::new(f)))
                    } else {
                        Err(diag_owned(message_with("Unknown operator: ", op), file_name, *span))
                    }
                },
                SExpr::List(..) => Err(diag("Expected operator", file_name, *span)),
            }
        },
    }
}

/// Reads the expressions `sexprs[start..]` onto the end of `exprs`.
#[verifier::loop_isolation(false)]
fn parse_exprs(sexprs: &Vec<SExpr>, start: usize, file_name: &str, exprs: &mut Vec<Expr>) -> (r:
    Result<(), Diagnostic>)
    ensures
        match r {
            Ok(_) => spec_parse_exprs(
                sexprs_view(sexprs@),
                start as int,
                file_name@,
                exprs_view(old(exprs)@),
            ) == Ok::<Seq<SpecExpr>, SpecDiag>(exprs_view(final(exprs)@)),
            Err(d) => spec_parse_exprs(
                sexprs_view(sexprs@),
                start as int,
                file_name@,
                exprs_view(old(exprs)@),
            ) == Err::<Seq<SpecExpr>, SpecDiag>(d@),
        },
    decreases sexprs, 1int,
{
    let ghost l = sexprs_view(sexprs@);
    let ghost target = spec_parse_exprs(l, start as int, file_name@, exprs_view(exprs@));
    let mut i: usize = start;
    while i < sexprs.len()
        invariant
            l == sexprs_view(sexprs@),
            i >= start,
            target == spec_parse_exprs(l, start as int, file_name@, exprs_view(old(exprs)@)),
            spec_parse_exprs(l, i as int, file_name@, exprs_view(exprs@)) == target,
        decreases sexprs.len() - i,
    {
        let ghost acc = exprs_view(exprs@);
        assert(l[i as int] == sexprs@[i as int]@);
        let e = match parse_expr(&sexprs[i], file_name) {
            Ok(e) => e,
            Err(d) => {
                return Err(d);
            },
        };
        exprs.push(e);
        assert(exprs_view(exprs@) =~= acc.push(e@));
        i += 1;
    }
    Ok(())
}

fn parse_assign(items: &Vec<SExpr>, span: Span, file_name: &str) -> (r: Result<Assign, Diagnostic>)
    ensures
        res_view(r) == spec_parse_assign(sexprs_view(items@), span, file_name@),
{
    if items.len() != 3 {
        return Err(diag("Invalid assign", file_name, span));
    }
    let target = match parse_assign_target(&items[1], file_name) {
        Ok(t) => t,
        Err(d) => {
            return Err(d);
        },
    };
    let expr = match parse_expr(&items[2], file_name) {
        Ok(e) => e,
        Err(d) => {
            return Err(d);
        },
    };
    Ok(Assign { target, expr })
}

#[verifier::loop_isolation(false)]
fn parse_instance(items: &Vec<SExpr>, span: Span, file_name: &str) -> (r: Result<Instance, Diagnostic>)
    ensures
        res_view(r) == spec_parse_instance(sexprs_view(items@), span, file_name@),
{
    if items.len() < 4 {
        return Err(diag("Invalid instance", file_name, span));
    }
    let module_name = match &items[1] {
        SExpr::Atom(s, _) => s.clone(),
        SExpr::List(..) => {
            return Err(diag("Module name must be atom", file_name, span));
        },
    };
    let instance_name = match &items[2] {
        SExpr::Atom(s, _) => s.clone(),
        SExpr::List(..) => {
            return Err(diag("Instance name must be atom", file_name, span));
        },
    };
    let port_map = match &items[3] {
        SExpr::List(list, _) => {
            let ghost l = sexprs_view(list@);
            let start: usize = if list.len() > 0 && atom_is(&list[0], "port-map") {
                1
            } else {
                0
            };
            let ghost target = spec_port_mappings(l, start as int, span, file_name@, Seq::empty());
            let mut by_name: Vec<(String, Expr)> = Vec::new();
            assert(named_exprs_view(by_name@) =~= Seq::<(Seq<char>, SpecExpr)>::empty());
            let mut i: usize = start;
            while i < list.len()
                invariant
                    l == sexprs_view(list@),
                    i >= start,
                    spec_port_mappings(l, i as int, span, file_name@, named_exprs_view(by_name@))
                        == target,
                decreases list.len() - i,
            {
                let ghost acc = named_exprs_view(by_name@);
                assert(l[i as int] == list@[i as int]@);
                match &list[i] {
                    SExpr::List(m, sub_span) => {
                        if m.len() != 2 {
                            return Err(diag("Invalid port mapping", file_name, *sub_span));
                        }
                        let port = match &m[0] {
                            SExpr::Atom(s, _) => s.clone(),
                            SExpr::List(..) => {
                                return Err(diag("Port name must be atom", file_name, *sub_span));
                            },
                        };
                        let expr = match parse_expr(&m[1], file_name) {
                            Ok(e) => e,
                            Err(d) => {
                                return Err(d);
                            },
                        };
                        let ghost pe = (port@, expr@);
                        by_name.push((port, expr));
                        assert(named_exprs_view(by_name@) =~= acc.push(pe));
                    },
                    SExpr::Atom(..) => {
                        return Err(diag("Port map must be list of pairs", file_name, span));
                    },
                }
                i += 1;
            }
            PortMap::ByName(by_name)
        },
        SExpr::Atom(..) => {
            return Err(diag("Port map must be a list", file_name, span));
        },
    };
    Ok(Instance { module_name, instance_name, port_map })
}

#[verifier::loop_isolation(false)]
fn parse_module(list: &Vec<SExpr>, span: Span, file_name: &str) -> (r: Result<Module, Diagnostic>)
    ensures
        res_view(r) == spec_parse_module(sexprs_view(list@), span, file_name@),
{
    let ghost l = sexprs_view(list@);
    if list.len() < 3 {
        return Err(diag("Invalid module definition: too few elements", file_name, span));
    }
    let name = match &list[1] {
        SExpr::Atom(s, _) => s.clone(),
        SExpr::List(..) => {
            return Err(diag("Module name must be an atom", file_name, span));
        },
    };
    let mut ports: Vec<Port> = Vec::new();
    let mut wires: Vec<Signal> = Vec::new();
    let mut regs: Vec<Signal> = Vec::new();
    let mut processes: Vec<Process> = Vec::new();
    let mut assigns: Vec<Assign> = Vec::new();
    let mut instances: Vec<Instance> = Vec::new();
    let ghost target = spec_module_forms(l, 2, file_name@, empty_module(name@));
    let mut i: usize = 2;
    proof {
        let m = Module { name, ports, wires, regs, processes, assigns, instances };
        assert(ports_view(ports@) =~= Seq::<SpecPort>::empty());
        assert(signals_view(wires@) =~= Seq::<SpecSignal>::empty());
        assert(signals_view(regs@) =~= Seq::<SpecSignal>::empty());
        assert(processes_view(processes@) =~= Seq::<SpecProcess>::empty());
        assert(assigns_view(assigns@) =~= Seq::<SpecAssign>::empty());
        assert(instances_view(instances@) =~= Seq::<SpecInstance>::empty());
        assert(m@ == empty_module(name@));
    }
    while i < list.len()
        invariant
            l == sexprs_view(list@),
            i >= 2,
            target == spec_parse_module(l, span, file_name@),
            spec_module_forms(
                l,
                i as int,
                file_name@,
                (Module { name, ports, wires, regs, processes, assigns, instances })@,
            ) == target,
        decreases list.len() - i,
    {
        let ghost m0 = (Module { name, ports, wires, regs, processes, assigns, instances })@;
        assert(l[i as int] == list@[i as int]@);
        match &list[i] {
            SExpr::List(items, item_span) => {
                if items.len() != 0 {
                    match &items[0] {
                        SExpr::Atom(s, _) => {
                            if string_is(s, "ports") {
                                ports = match parse_ports(items, *item_span, file_name) {
                                    Ok(p) => p,
                                    Err(d) => {
                                        return Err(d);
                                    },
                                };
                            } else if string_is(s, "wire") {
                                let w = match parse_signal(items, *item_span, file_name) {
                                    Ok(w) => w,
                                    Err(d) => {
                                        return Err(d);
                                    },
                                };
                                wires.push(w);
                                assert(signals_view(wires@) =~= m0.wires.push(w@));
                            } else if string_is(s, "reg") {
                                let w = match parse_signal(items, *item_span, file_name) {
                                    Ok(w) => w,
                                    Err(d) => {
                                        return Err(d);
                                    },
                                };
                                regs.push(w);
                                assert(signals_view(regs@) =~= m0.regs.push(w@));
                            } else if string_is(s, "process") {
                                let p = match parse_process(items, *item_span, file_name) {
                                    Ok(p) => p,
                                    Err(d) => {
                                        return Err(d);
                                    },
                                };
                                processes.push(p);
                                assert(processes_view(processes@) =~= m0.processes.push(p@));
                            } else if string_is(s, "assign") {
                                let a = match parse_assign(items, *item_span, file_name) {
                                    Ok(a) => a,
                                    Err(d) => {
                                        return Err(d);
                                    },
                                };
                                assigns.push(a);
                                assert(assigns_view(assigns@) =~= m0.assigns.push(a@));
                            } else if string_is(s, "instance") {
                                let a = match parse_instance(items, *item_span, file_name) {
                                    Ok(a) => a,
                                    Err(d) => {
                                        return Err(d);
                                    },
                                };
                                instances.push(a);
                                assert(instances_view(instances@) =~= m0.instances.push(a@));
                            } else {
                                return Err(
                                    diag_owned(message_with("Unknown form: ", s), file_name, *item_span),
                                );
                            }
                        },
                        SExpr::List(..) => {
                            return Err(diag("Expected keyword", file_name, *item_span));
                        },
                    }
                }
            },
            SExpr::Atom(_, atom_span) => {
                return Err(diag("Expected list form", file_name, *atom_span));
            },
        }
        i += 1;
    }
    Ok(Module { name, ports, wires, regs, processes, assigns, instances })
}

/// Reads the modules that the top-level S-expressions describe; every
/// top-level form must be a `(module name ...)` list.
#[verifier::loop_isolation(false)]
pub fn parse_modules(sexprs: Vec<SExpr>, file_name: &str) -> (r: Result<Vec<Module>, Diagnostic>)
    ensures
        modules_res(r) == spec_parse_modules(sexprs_view(sexprs@), file_name@),
{
    let ghost l = sexprs_view(sexprs@);
    let ghost target = spec_parse_modules(l, file_name@);
    let mut modules: Vec<Module> = Vec::new();
    assert(modules_view(modules@) =~= Seq::<SpecModule>::empty());
    let mut i: usize = 0;
    while i < sexprs.len()
        invariant
            l == sexprs_view(sexprs@),
            target == spec_parse_modules(l, file_name@),
            spec_modules_from(l, i as int, file_name@, modules_view(modules@)) == target,
        decreases sexprs.len() - i,
    {
        let ghost acc = modules_view(modules@);
        assert(l[i as int] == sexprs@[i as int]@);
        match &sexprs[i] {
            SExpr::List(list, span) => {
                if list.len() > 0 {
                    match &list[0] {
                        SExpr::Atom(first, _) => {
                            if string_is(first, "module") {
                                let m = match parse_module(list, *span, file_name) {
                                    Ok(m) => m,
                                    Err(d) => {
                                        return Err(d);
                                    },
                                };
                                modules.push(m);
                                assert(modules_view(modules@) =~= acc.push(m@));
                            } else {
                                return Err(
                                    diag_owned(
                                        message_with("Unexpected top-level form: ", first),
                                        file_name,
                                        *span,
                                    ),
                                );
                            }
                        },
                        SExpr::List(..) => {
                            return Err(diag("Expected module definition", file_name, *span));
                        },
                    }
                } else {
                    return Err(diag("Expected module definition", file_name, *span));
                }
            },
            SExpr::Atom(_, span) => {
                return Err(diag("Expected list at top level", file_name, *span));
            },
        }
        i += 1;
    }
    Ok(modules)
}

} // verus!
