use lib::lexer::tokenize;
use lib::macro_expander::{expand, MacroContext};
use lib::parser::{parse_sexprs, SExpr};

fn show(s: &SExpr) -> String {
    match s {
        SExpr::Atom(t, _) => t.clone(),
        SExpr::List(v, _) => format!("({})", v.iter().map(show).collect::<Vec<_>>().join(" ")),
    }
}

fn read(src: &str) -> Vec<SExpr> {
    parse_sexprs(tokenize(src, "m.hal").unwrap(), "m.hal").unwrap()
}

fn expanded(src: &str) -> String {
    let out = expand(read(src), "m.hal").unwrap();
    out.iter().map(show).collect::<Vec<_>>().join(" ")
}

fn expand_error(src: &str) -> String {
    expand(read(src), "m.hal").unwrap_err().message
}

#[test]
fn context_starts_empty() {
    let _c = MacroContext::new("m.hal");
    assert_eq!(expanded(""), "");
}

#[test]
fn between_lists_the_half_open_range() {
    assert_eq!(expanded("(foo (between! 0 3))"), "(foo (0 1 2))");
    assert_eq!(expanded("(foo (between! 3 3))"), "(foo ())");
    assert_eq!(expanded("(foo (between! -2 1))"), "(foo (-2 -1 0))");
}

#[test]
fn foreach_binds_each_item() {
    assert_eq!(
        expanded("(foreach! (between! 0 2) i (wire (add! (str! w_) i)))"),
        "((wire w_0) (wire w_1))"
    );
    assert_eq!(expanded("(foreach! (between! 0 2) (x it))"), "((x 0) (x 1))");
}

#[test]
fn foreach_splices_begin_forms() {
    assert_eq!(expanded("(foreach! (between! 0 2) (begin a it))"), "(a 0 a 1)");
}

#[test]
fn macros_are_defined_then_dropped() {
    assert_eq!(
        expanded("(macro m (x) (wire x 8)) (module top (m a))"),
        "(module top (wire a 8))"
    );
}

#[test]
fn macro_redefinition_uses_the_latest() {
    assert_eq!(
        expanded("(macro m (x) (one x)) (macro m (x) (two x)) (m a)"),
        "(two a)"
    );
}

#[test]
fn macro_arity_is_checked() {
    assert_eq!(expand_error("(macro m (x) x) (m)"), "Macro m expects 1 arguments, got 0");
}

#[test]
fn invalid_macro_definitions_are_reported() {
    assert_eq!(expand_error("(macro m (x))"), "Invalid macro definition");
    assert_eq!(expand_error("(macro (m) (x) x)"), "Macro name must be an atom");
    assert_eq!(expand_error("(macro m x x)"), "Macro parameters must be a list");
    assert_eq!(expand_error("(macro m ((x)) x)"), "Macro parameters must be atoms");
}

#[test]
fn arithmetic_builtins_compute() {
    assert_eq!(expanded("(v (+! 1 2 3))"), "(v 6)");
    assert_eq!(expanded("(v (-! 5 7))"), "(v -2)");
    assert_eq!(expanded("(v (*! 2 3 4))"), "(v 24)");
    assert_eq!(expanded("(v (/! 7 -2))"), "(v -3)");
    assert_eq!(expanded("(v (%! -7 2))"), "(v -1)");
    assert_eq!(expanded("(v (==! 1 1) (!=! 1 1) (<! 2 1) (<=! 2 2) (>! 2 1) (>=! 1 2))"), "(v 1 0 0 1 1 0)");
}

#[test]
fn arithmetic_errors_are_reported() {
    assert_eq!(expand_error("(v (/! 1 0))"), "Division by zero in /!");
    assert_eq!(expand_error("(v (%! 1 0))"), "Modulo by zero in %!");
    assert_eq!(expand_error("(v (+! 1))"), "+! requires at least two arguments");
    assert_eq!(expand_error("(v (-! 1))"), "-! requires exactly two arguments");
    assert_eq!(expand_error("(v (+! a 1))"), "Expected integer, got: a");
    assert_eq!(expand_error("(v (+! (x) 1))"), "Expected integer");
}

#[test]
fn arithmetic_overflow_is_an_error() {
    assert_eq!(expand_error("(v (+! 9223372036854775807 1))"), "Integer overflow in +!");
    assert_eq!(expand_error("(v (*! 9223372036854775807 2))"), "Integer overflow in *!");
    assert_eq!(expand_error("(v (-! -9223372036854775808 1))"), "Integer overflow in -!");
    assert_eq!(expand_error("(v (/! -9223372036854775808 -1))"), "Integer overflow in /!");
}

#[test]
fn if_let_str_eval_builtins() {
    assert_eq!(expanded("(v (if! (>! 2 1) yes no))"), "(v yes)");
    assert_eq!(expanded("(v (if! 0 yes no) (if! false yes no) (if! (a) yes no))"), "(v no no yes)");
    assert_eq!(expanded("(let! ((a 1) (b 2)) (x a b))"), "((x 1 2))");
    assert_eq!(expanded("(v (str! abc) (eval! (add! p 3)) (expil! (between! 0 1)))"), "(v abc p3 (0))");
}

#[test]
fn builtin_argument_errors() {
    assert_eq!(expand_error("(foo!)"), "Unknown builtin function: foo!");
    assert_eq!(expand_error("(between! 1)"), "between! expects 2 arguments");
    assert_eq!(expand_error("(str! a b)"), "str! expects 1 argument");
    assert_eq!(expand_error("(foreach! x)"), "foreach! expects 2 or 3 arguments: (foreach! list [var] body)");
    assert_eq!(expand_error("(foreach! x y)"), "Expected list");
    assert_eq!(expand_error("(let! x y)"), "let! first argument must be a list of bindings");
    assert_eq!(expand_error("(let! (x) y)"), "let! binding must be a list of (var expr)");
}

#[test]
fn module_bodies_are_flattened() {
    assert_eq!(
        expanded("(module m ((wire a) (wire b)) () (wire c))"),
        "(module m (wire a) (wire b) (wire c))"
    );
    assert_eq!(
        expanded("(module m (foreach! (between! 0 2) i (wire (add! w i))))"),
        "(module m (wire w0) (wire w1))"
    );
}

#[test]
fn program_without_macros_is_unchanged() {
    let src = "(module top (ports (input a) (output b)) (assign b (not a))) (other (x y))";
    assert_eq!(expanded(src), "(module top (ports (input a) (output b)) (assign b (not a))) (other (x y))");
}

#[test]
fn expansion_keeps_call_spans() {
    let out = expand(read("(v (+! 1 2))"), "m.hal").unwrap();
    match &out[0] {
        SExpr::List(items, _) => match &items[1] {
            SExpr::Atom(t, span) => {
                assert_eq!(t, "3");
                assert_eq!((span.start, span.end, span.line, span.column), (3, 11, 1, 4));
            }
            other => panic!("unexpected {:?}", other),
        },
        other => panic!("unexpected {:?}", other),
    }
}

#[test]
fn module_ports_names_the_declared_ports() {
    assert_eq!(
        expanded("(module m (ports (input clk) (output reg count 8)) (wire w (module-ports!)))"),
        "(module m (ports (input clk) (output reg count 8)) (wire w (clk count)))"
    );
    assert_eq!(
        expanded("(module m (ports (input a b) (output y)) (foreach! (module-ports!) p (assign p 0)))"),
        "(module m (ports (input a b) (output y)) (assign a 0) (assign b 0) (assign y 0))"
    );
}

#[test]
fn module_ports_inside_a_macro_sees_the_calling_module() {
    assert_eq!(
        expanded(
            "(macro zero-all () (foreach! (module-ports!) p (assign p 0))) \
             (module m (ports (output y z)) (zero-all))"
        ),
        "(module m (ports (output y z)) (assign y 0) (assign z 0))"
    );
}

#[test]
fn module_ports_sees_ports_made_at_compile_time() {
    assert_eq!(
        expanded(
            "(module m (ports (foreach! (between! 0 2) i (input (add! (str! d) i)))) \
             (wire w (module-ports!)))"
        ),
        "(module m (ports ((input d0) (input d1))) (wire w (d0 d1)))"
    );
}

#[test]
fn module_ports_outside_a_module_is_empty() {
    assert_eq!(expanded("(foo (module-ports!))"), "(foo ())");
    assert_eq!(expand_error("(module m (module-ports! x))"), "module-ports! expects no arguments");
}


#[test]
fn plain_program_expands_to_itself() {
    let src = "(module top (ports (input a) (output y)) (assign y (not a))) (note (x y) z)";
    assert_eq!(expanded(src), src);
}
