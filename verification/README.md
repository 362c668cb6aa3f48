# HAL compiler library

HAL is a hardware description language written as S-expressions, with
compile-time macros (`expil!`, `between!`, `foreach!`, `add!`, `str!`, `if!`,
`let!`, `eval!`, `module-ports!` and integer operators such as `+!`), that
compiles to Verilog or VHDL.

The library in `src/` is verified with Verus; every stage states what it
computes as a function of its input:

- `lexer::tokenize`: source text to tokens (`spec_tokenize`);
- `parser::parse_sexprs`: tokens to S-expressions (`spec_parse_top`);
- `macro_expander::expand`: macro definitions, compile-time evaluation and
  module-body flattening (`spec_expand_program`);
- `ast::parse_modules`: S-expressions to modules (`spec_parse_modules`);
- `semantic::check_module`: declarations, assignment kinds and declared
  identifiers (`spec_check_module`);
- `verilog_backend` / `vhdl_backend`: the generated text
  (`verilog_text`, `vhdl_text`);
- `error::Diagnostic::render`: the error report shown to the user;
- `driver`: the decisions of the command-line program (output file name,
  `--vhdl`, checking every module).

`app/main.rs` is the command-line program `halc <input.hal> [--vhdl]`, which
reads the source, runs the pipeline and writes `input.v` or `input.vhd`.

The compile-time functions are `expil!`, `between!`, `foreach!`, `str!`,
`add!`, `if!`, `eval!`, `let!` and the integer operators `+!`, `-!`, `*!`,
`/!`, `%!`, `==!`, `!=!`, `<!`, `<=!`, `>!`, `>=!`, and the reflection
`(module-ports!)`: inside a `(module ...)` form it gives the list of the
names of the ports that the module's last `(ports ...)` form declares (that
form is expanded first, so its declarations may themselves be made at
compile time); outside a module, or when the declarations are malformed, the
list is empty.
