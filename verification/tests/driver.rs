use lib::ast::{parse_modules, Expr, Module};
use lib::driver::{check_modules, output_file_name, replace_text, wants_vhdl};
use lib::error::{Diagnostic, Span};
use lib::lexer::tokenize;
use lib::macro_expander::expand;
use lib::parser::parse_sexprs;
use lib::semantic::{check_assign_target, check_expr_signals};
use lib::vhdl_backend::VhdlBackend;

fn modules(src: &str) -> Vec<Module> {
    let toks = tokenize(src, "t.hal").unwrap();
    let sexprs = parse_sexprs(toks, "t.hal").unwrap();
    let expanded = expand(sexprs, "t.hal").unwrap();
    parse_modules(expanded, "t.hal").unwrap()
}

fn strings(v: &[&str]) -> Vec<String> {
    v.iter().map(|s| s.to_string()).collect()
}

#[test]
fn output_file_names() {
    assert_eq!(output_file_name("examples/counter.hal", false), "examples/counter.v");
    assert_eq!(output_file_name("examples/counter.hal", true), "examples/counter.vhd");
    assert_eq!(output_file_name("a.hal.hal", false), "a.v.v");
    assert_eq!(output_file_name("noext", true), "noext");
}

#[test]
fn replace_agrees_with_std() {
    for (s, from, to) in [("aaaa", "aa", "b"), ("abcabc", "bc", ""), ("", "x", "y"), ("xyx", "x", "xx"), ("ab", "abc", "z")] {
        assert_eq!(replace_text(s, from, to), s.replace(from, to));
    }
}

#[test]
fn vhdl_flag_anywhere_in_the_arguments() {
    assert!(wants_vhdl(&strings(&["halc", "a.hal", "--vhdl"])));
    assert!(wants_vhdl(&strings(&["halc", "--vhdl", "a.hal"])));
    assert!(!wants_vhdl(&strings(&["halc", "a.hal", "--vhd"])));
}

#[test]
fn every_module_is_checked_in_order() {
    assert_eq!(check_modules(&modules("(module a (wire x)) (module b (wire y))")), Ok(()));
    assert_eq!(
        check_modules(&modules("(module a (wire x)) (module b (wire y) (wire y)) (module c (reg z) (reg z))")),
        Err("Duplicate wire: y".to_string())
    );
}

#[test]
fn direct_checks() {
    let declared = strings(&["a", "b"]);
    let e = Expr::BinaryOp(
        lib::ast::BinaryOp::And,
        Box::new(Expr::Ident("a".to_string())),
        Box::new(Expr::Concat(vec![Expr::Literal("1'b0".to_string()), Expr::Ident("c".to_string())])),
    );
    assert_eq!(check_expr_signals(&e, &declared), Err("Undeclared identifier: 'c'".to_string()));
    let t = lib::ast::AssignTarget::Slice("b".to_string(), 3, 0);
    assert_eq!(check_assign_target(&t, &strings(&["b"]), &declared, true), Err("Cannot assign to input port 'b'".to_string()));
    assert_eq!(check_assign_target(&t, &strings(&[]), &declared, false), Ok(()));
}

#[test]
fn vhdl_precondition_is_tested() {
    let backend = VhdlBackend::new();
    assert!(backend.accepts(&modules("(module m (wire a 4) (assign a 4'b0101))")));
    assert!(!backend.accepts(&modules("(module m (wire a 0))")));
    assert!(!backend.accepts(&modules("(module m (wire a) (assign a 4'éb))")));
    assert!(backend.accepts(&[]));
}

#[test]
fn report_shows_previous_and_current_line() {
    let src = "(module m\n  (wire a)\n  (bogus))";
    let d = Diagnostic::new("Unknown form: bogus".to_string(), "t.hal".to_string(), Span::new(22, 29, 3, 3));
    let expected = "error: Unknown form: bogus
  --> t.hal:3:3
   |
2 |   (wire a)
3 |   (bogus))
      ^
   |
";
    assert_eq!(d.render(src), expected);
}

#[test]
fn report_pads_line_numbers() {
    let src: String = (1..=10).map(|i| format!("line{}\n", i)).collect();
    let d = Diagnostic::new("m".to_string(), "f".to_string(), Span::new(0, 0, 10, 1));
    let expected = "error: m
  --> f:10:1
   |
 9 | line9
10 | line10
     ^
   |
";
    assert_eq!(d.render(&src), expected);
}

#[test]
fn report_on_first_line_and_past_the_end() {
    let d = Diagnostic::new("m".to_string(), "f".to_string(), Span::new(0, 1, 1, 2));
    assert_eq!(d.render("ab"), "error: m\n  --> f:1:2\n   |\n1 | ab\n     ^\n   |\n");
    let far = Diagnostic::new("m".to_string(), "f".to_string(), Span::new(0, 1, 5, 1));
    assert_eq!(far.render("ab"), "error: m\n  --> f:5:1\n   |\n5 | \n    ^\n   |\n");
}

#[test]
fn one_line_report() {
    let d = Diagnostic::new("unexpected ')'".to_string(), "t.hal".to_string(), Span::new(4, 5, 2, 7));
    assert_eq!(d.render_simple(), "t.hal:2:7: error: unexpected ')'");
}

#[test]
fn caret_sits_under_the_reported_column() {
    let d = Diagnostic::new("m".to_string(), "f".to_string(), Span::new(3, 4, 2, 2));
    assert_eq!(d.render("ab\ncd"), "error: m\n  --> f:2:2\n   |\n1 | ab\n2 | cd\n     ^\n   |\n");
}
