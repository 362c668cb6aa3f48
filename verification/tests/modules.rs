use lib::ast::{parse_modules, AssignTarget, BinaryOp, Expr, Module, PortDir, PortMap, Sensitivity, Statement, UnaryOp};
use lib::lexer::tokenize;
use lib::macro_expander::expand;
use lib::parser::parse_sexprs;
use lib::semantic::check_module;

const COUNTER: &str = "(module counter
  (ports
    (input clk)
    (input rst_n)
    (output reg count 8))
  (process (or (posedge clk) (negedge rst_n))
    (if (not rst_n)
      (nb-write (signal count) 8'b0)
      (nb-write (signal count) (+ (signal count) 1'b1)))))";

fn modules(src: &str) -> Vec<Module> {
    let toks = tokenize(src, "t.hal").unwrap();
    let sexprs = parse_sexprs(toks, "t.hal").unwrap();
    let expanded = expand(sexprs, "t.hal").unwrap();
    parse_modules(expanded, "t.hal").unwrap()
}

fn module_error(src: &str) -> String {
    let toks = tokenize(src, "t.hal").unwrap();
    let sexprs = parse_sexprs(toks, "t.hal").unwrap();
    let expanded = expand(sexprs, "t.hal").unwrap();
    parse_modules(expanded, "t.hal").unwrap_err().message
}

fn check_error(src: &str) -> String {
    check_module(&modules(src)[0]).unwrap_err()
}

#[test]
fn counter_parses_into_a_module() {
    let ms = modules(COUNTER);
    assert_eq!(ms.len(), 1);
    let m = &ms[0];
    assert_eq!(m.name, "counter");
    assert_eq!(m.ports.len(), 3);
    assert_eq!(m.ports[0].name, "clk");
    assert_eq!(m.ports[0].direction, PortDir::Input);
    assert_eq!(m.ports[2].name, "count");
    assert_eq!(m.ports[2].direction, PortDir::Output);
    assert_eq!(m.ports[2].width, Some("8".to_string()));
    assert!(m.ports[2].reg);
    assert_eq!(m.processes.len(), 1);
    let p = &m.processes[0];
    assert!(matches!(&p.sensitivity[0], Sensitivity::PosEdge(s) if s == "clk"));
    assert!(matches!(&p.sensitivity[1], Sensitivity::NegEdge(s) if s == "rst_n"));
    match &p.body[0] {
        Statement::If(Expr::UnaryOp(UnaryOp::Not, c), a, b) => {
            assert!(matches!(c.as_ref(), Expr::Ident(s) if s == "rst_n"));
            assert!(matches!(&a[0], Statement::NonBlockWrite(AssignTarget::Signal(n, None), Expr::Literal(l)) if n == "count" && l == "8'b0"));
            assert!(matches!(&b[0], Statement::NonBlockWrite(_, Expr::BinaryOp(BinaryOp::Add, _, _))));
        }
        other => panic!("unexpected {:?}", other),
    }
    assert_eq!(check_module(m), Ok(()));
}

#[test]
fn ports_share_a_trailing_width() {
    let ms = modules("(module m (ports (input a b 4) (output c)))");
    let p = &ms[0].ports;
    assert_eq!(p.len(), 3);
    assert_eq!((p[0].name.as_str(), p[0].width.clone()), ("a", Some("4".to_string())));
    assert_eq!((p[1].name.as_str(), p[1].width.clone()), ("b", Some("4".to_string())));
    assert_eq!((p[2].name.as_str(), p[2].width.clone()), ("c", None));
}

#[test]
fn targets_and_expressions_parse() {
    let ms = modules(
        "(module m (assign (slice y 3 0) (cond ((== a b) (concat a b)) (else (signal c 2))))
                   (assign (signal z 1) (<< a 2))
                   (instance sub u1 (port-map (x a) (y b))))",
    );
    let m = &ms[0];
    assert!(matches!(&m.assigns[0].target, AssignTarget::Slice(n, 3, 0) if n == "y"));
    match &m.assigns[0].expr {
        Expr::Cond(c, t, f) => {
            assert!(matches!(c.as_ref(), Expr::BinaryOp(BinaryOp::Eq, _, _)));
            assert!(matches!(t.as_ref(), Expr::Concat(v) if v.len() == 2));
            assert!(matches!(f.as_ref(), Expr::Slice(b, 2, 2) if matches!(b.as_ref(), Expr::Ident(s) if s == "c")));
        }
        other => panic!("unexpected {:?}", other),
    }
    assert!(matches!(&m.assigns[1].target, AssignTarget::Signal(n, Some(1)) if n == "z"));
    assert_eq!(m.instances[0].module_name, "sub");
    assert_eq!(m.instances[0].instance_name, "u1");
    assert!(matches!(&m.instances[0].port_map, PortMap::ByName(v) if v.len() == 2 && v[0].0 == "x"));
}

#[test]
fn structural_errors_are_reported() {
    assert_eq!(module_error("(foo)"), "Unexpected top-level form: foo");
    assert_eq!(module_error("x"), "Expected list at top level");
    assert_eq!(module_error("(module m)"), "Invalid module definition: too few elements");
    assert_eq!(module_error("(module m (bogus))"), "Unknown form: bogus");
    assert_eq!(module_error("(module m (ports (input)))"), "Invalid port declaration");
    assert_eq!(module_error("(module m (ports (input (x))))"), "Expected port name");
    assert_eq!(modules("(module m (ports (sideways x)))")[0].ports.len(), 0);
    assert_eq!(module_error("(module m (process (a) (jump)))"), "Unknown statement: jump");
    assert_eq!(module_error("(module m (assign y (frob a)))"), "Unknown operator: frob");
    assert_eq!(module_error("(module m (assign (slice y a 0) b))"), "Invalid high");
}

#[test]
fn duplicate_port_is_rejected() {
    assert_eq!(check_error("(module m (ports (input a) (output a)))"), "Duplicate port name: a");
}

#[test]
fn wire_and_reg_clashes_are_rejected() {
    assert_eq!(
        check_error("(module m (ports (input a)) (wire a))"),
        "Wire 'a' conflicts with a port of the same name"
    );
    assert_eq!(check_error("(module m (wire w) (wire w))"), "Duplicate wire: w");
    assert_eq!(
        check_error("(module m (ports (input a)) (reg a))"),
        "Reg 'a' conflicts with a port of the same name"
    );
    assert_eq!(check_error("(module m (reg r) (reg r))"), "Duplicate reg: r");
    assert_eq!(check_error("(module m (wire w) (reg w))"), "Reg 'w' already declared as wire");
}

#[test]
fn assignment_targets_are_checked() {
    assert_eq!(
        check_error("(module m (ports (input a) (output b)) (assign a b))"),
        "Cannot assign to input port 'a'"
    );
    assert_eq!(
        check_error("(module m (reg r) (wire w) (assign r w))"),
        "Assignment target 'r' must be a wire (or non-reg output port) in this context"
    );
    assert_eq!(
        check_error("(module m (ports (input clk)) (wire w) (process ((posedge clk)) (nb-write w clk)))"),
        "Assignment target 'w' must be a reg (or output reg port) in this context"
    );
    assert_eq!(
        check_error("(module m (ports (input clk) (input d)) (process ((posedge clk)) (if d (block-write d clk))))"),
        "Cannot assign to input port 'd'"
    );
}

#[test]
fn inout_and_output_ports_may_be_driven() {
    let ok = "(module m (ports (input a) (inout io) (output o) (output reg r))
                (assign io a) (assign o a)
                (process ((posedge a)) (nb-write r a)))";
    assert_eq!(check_module(&modules(ok)[0]), Ok(()));
}

#[test]
fn undeclared_names_are_rejected() {
    assert_eq!(
        check_error("(module m (wire w) (assign w (and w zz)))"),
        "Undeclared identifier: 'zz'"
    );
    assert_eq!(
        check_error("(module m (reg r) (process ((posedge clk)) (nb-write r 1)))"),
        "Undeclared signal in sensitivity list: 'clk'"
    );
    assert_eq!(
        check_error("(module m (wire w) (instance sub u (port-map (p q))))"),
        "Undeclared identifier: 'q'"
    );
}

#[test]
fn first_error_wins() {
    assert_eq!(
        check_error("(module m (ports (input a) (input a)) (wire a))"),
        "Duplicate port name: a"
    );
    assert_eq!(
        check_error("(module m (wire w) (assign w x) (process ((posedge y)) (nb-write w 1)))"),
        "Undeclared identifier: 'x'"
    );
}
