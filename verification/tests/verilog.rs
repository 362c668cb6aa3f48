use lib::ast::{parse_modules, Module};
use lib::backend::Backend;
use lib::lexer::tokenize;
use lib::macro_expander::expand;
use lib::parser::parse_sexprs;
use lib::verilog_backend::VerilogBackend;

const COUNTER: &str = "(module counter
  (ports
    (input clk)
    (input rst_n)
    (output reg count 8))
  (process (or (posedge clk) (negedge rst_n))
    (if (not rst_n)
      (nb-write (signal count) 8'b0)
      (nb-write (signal count) (+ (signal count) 1'b1)))))";

fn modules(src: &str) -> Vec<Module> {
    let toks = tokenize(src, "t.hal").unwrap();
    let sexprs = parse_sexprs(toks, "t.hal").unwrap();
    let expanded = expand(sexprs, "t.hal").unwrap();
    parse_modules(expanded, "t.hal").unwrap()
}

fn verilog(src: &str) -> String {
    VerilogBackend::new().generate(&modules(src)).unwrap()
}

#[test]
fn counter_in_verilog() {
    let expected = "module counter (
    input clk,
    input rst_n,
    output reg [7:0] count
);
    always @(posedge clk or negedge rst_n) begin
        if (~rst_n) begin
            count <= 8'b0;
        end else begin
            count <= (count + 1'b1);
        end
    end
endmodule";
    assert_eq!(verilog(COUNTER), expected);
}

#[test]
fn declarations_and_widths() {
    let src = "(module m (wire a 4) (wire b 1) (wire c N) (wire d 0) (reg r) (assign a (concat b c)))";
    let expected = "module m ();
    wire [3:0] a;
    wire b;
    wire [N-1:0] c;
    wire d;
    reg r;
    assign a = {b, c};
endmodule";
    assert_eq!(verilog(src), expected);
}

#[test]
fn expressions_in_verilog() {
    let src = "(module m
        (assign y (slice a 3 0))
        (assign (signal y 2) (signal a 2))
        (assign (slice y 5 4) (cond ((== a b) (not c)) (else (<< a 1))))
        (assign z (- (* a b) (xor c d))))";
    let expected = "module m ();
    assign y = a[3:0];
    assign y[2] = a[2];
    assign y[5:4] = ((a == b) ? ~c : (a << 1));
    assign z = ((a * b) - (c ^ d));
endmodule";
    assert_eq!(verilog(src), expected);
}

#[test]
fn processes_and_nested_ifs() {
    let src = "(module m
        (process (a b) (block-write x (and a b)))
        (process ((posedge clk)) (if en (begin (nb-write q d) (if rst (nb-write q 0))))))";
    let expected = "module m ();
    always @(a or b) begin
        x = (a & b);
    end
    always @(posedge clk) begin
        if (en) begin
            q <= d;
            if (rst) begin
                q <= 0;
            end
        end
    end
endmodule";
    assert_eq!(verilog(src), expected);
}

#[test]
fn instances_in_verilog() {
    let src = "(module top (instance sub u1 (port-map (x a) (y (+ b c)))) (instance sub u2 ()))";
    let expected = "module top ();
    sub u1 (
        .x(a),
        .y((b + c))
    );
    sub u2 (
    );
endmodule";
    assert_eq!(verilog(src), expected);
}

#[test]
fn modules_are_separated_by_a_newline() {
    assert_eq!(verilog("(module a (wire x)) (module b (wire y))"),
        "module a ();\n    wire x;\nendmodule\nmodule b ();\n    wire y;\nendmodule");
    assert_eq!(VerilogBackend::new().generate(&[]).unwrap(), "");
}

const SYSTOLIC: &str = "(macro define-systolic-array (name N data-width sum-width)
  (expil!
    (module name
      (ports
        (foreach! (between! 0 N) i
          (input (add! (str! a_in_) i) data-width))
        (foreach! (between! 0 N) i
          (input (add! (str! b_in_) i) data-width))
        (foreach! (between! 0 N) i
          (output (add! (str! sum_out_) i) sum-width)))
      ;; ... internal wires and PE instances ...
      )))

(define-systolic-array my_systolic_2x2 2 8 16)";

#[test]
fn systolic_array_macro_generates_ports() {
    let expected = "module my_systolic_2x2 (
    input [7:0] a_in_0,
    input [7:0] a_in_1,
    input [7:0] b_in_0,
    input [7:0] b_in_1,
    output [15:0] sum_out_0,
    output [15:0] sum_out_1
);
endmodule";
    assert_eq!(verilog(SYSTOLIC), expected);
}

fn nested_ifs(depth: usize) -> String {
    let mut body = "(nb-write q d)".to_string();
    for _ in 0..depth {
        body = format!("(if en {})", body);
    }
    format!("(module m (process ((posedge clk)) {}))", body)
}

#[test]
fn indentation_stops_growing_past_sixteen_levels() {
    let text = verilog(&nested_ifs(20));
    let widest = text.lines().map(|l| l.len() - l.trim_start().len()).max().unwrap();
    assert_eq!(widest, 8 + 4 * 16);
    let q = text.lines().find(|l| l.trim_start().starts_with("q <=")).unwrap();
    assert_eq!(q, format!("{}q <= d;", " ".repeat(8 + 4 * 16)));
}
