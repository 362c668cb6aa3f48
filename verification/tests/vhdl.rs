use lib::ast::{parse_modules, Module};
use lib::backend::Backend;
use lib::lexer::tokenize;
use lib::macro_expander::expand;
use lib::parser::parse_sexprs;
use lib::vhdl_backend::VhdlBackend;

const COUNTER: &str = "(module counter
  (ports
    (input clk)
    (input rst_n)
    (output reg count 8))
  (process (or (posedge clk) (negedge rst_n))
    (if (not rst_n)
      (nb-write (signal count) 8'b0)
      (nb-write (signal count) (+ (signal count) 1'b1)))))";

fn modules(src: &str) -> Vec<Module> {
    let toks = tokenize(src, "t.hal").unwrap();
    let sexprs = parse_sexprs(toks, "t.hal").unwrap();
    let expanded = expand(sexprs, "t.hal").unwrap();
    parse_modules(expanded, "t.hal").unwrap()
}

fn vhdl(src: &str) -> String {
    VhdlBackend::new().generate(&modules(src)).unwrap()
}

/// The architecture body lines of a one-module text (between `begin` and
/// `end Behavioral;`).
fn body(src: &str) -> String {
    let text = vhdl(src);
    let start = text.find("\nbegin\n").unwrap() + "\nbegin\n".len();
    let end = text.rfind("\nend Behavioral;").unwrap();
    text[start..end].to_string()
}

#[test]
fn counter_in_vhdl() {
    let expected = "library IEEE;
use IEEE.STD_LOGIC_1164.ALL;
use IEEE.NUMERIC_STD.ALL;

entity counter is
    port (
        clk : in STD_LOGIC;
        rst_n : in STD_LOGIC;
        count : out STD_LOGIC_VECTOR(7 downto 0)
    );
end counter;

architecture Behavioral of counter is
begin
    process(clk, rst_n)
    begin
        if rst_n = '0' then
            count <= (others => '0');

        elsif rising_edge(clk) then
            count <= std_logic_vector(unsigned(count) + to_unsigned(1, 1));

        end if;
    end process;
end Behavioral;";
    assert_eq!(vhdl(COUNTER), expected);
}

#[test]
fn literals_are_converted() {
    let cases = [
        ("4'b0000", "(others => '0')"),
        ("4'b1111", "(others => '1')"),
        ("4'b1010", "\"1010\""),
        ("1'b1", "'1'"),
        ("8'B11", "\"00000011\""),
        ("8'b1010", "\"00001010\""),
        ("8'b1111", "\"00001111\""),
        ("8'b11111111", "(others => '1')"),
        ("8'hFF", "x\"FF\""),
        ("8'h00", "(others => '0')"),
        ("8'd5", "std_logic_vector(to_unsigned(5, 8))"),
        ("8'd0", "(others => '0')"),
        ("1'd1", "'1'"),
        ("8'o17", "o\"17\""),
        ("8'o0", "(others => '0')"),
        ("'b01", "\"00000000000000000000000000000001\""),
        ("x'd7", "std_logic_vector(to_unsigned(7, 32))"),
        ("8'x1", "8'x1"),
        ("4'", "4'"),
        ("0", "'0'"),
        ("1", "'1'"),
        ("5", "5"),
        ("07", "07"),
    ];
    for (lit, out) in cases {
        let src = format!("(module m (assign y {}))", lit);
        assert_eq!(body(&src), format!("    y <= {};", out), "literal {}", lit);
    }
}

#[test]
fn arithmetic_goes_through_unsigned() {
    assert_eq!(
        body("(module m (assign y (+ (* a b) 3)))"),
        "    y <= std_logic_vector((unsigned(a) * unsigned(b)) + to_unsigned(3, 32));"
    );
    assert_eq!(
        body("(module m (assign y (- 8'd9 (slice a 7 0))))"),
        "    y <= std_logic_vector(to_unsigned(9, 8) - unsigned(a(7 downto 0)));"
    );
    assert_eq!(
        body("(module m (assign y (+ (and a b) 4'b1)))"),
        "    y <= std_logic_vector(unsigned((a and b)) + to_unsigned(1, 4));"
    );
}

#[test]
fn radix_literals_in_arithmetic_take_their_value() {
    assert_eq!(
        body("(module m (assign y (+ a 8'b1010)))"),
        "    y <= std_logic_vector(unsigned(a) + to_unsigned(10, 8));"
    );
    assert_eq!(
        body("(module m (assign y (- a 8'hFF)))"),
        "    y <= std_logic_vector(unsigned(a) - to_unsigned(255, 8));"
    );
    assert_eq!(
        body("(module m (assign y (+ a 6'o17)))"),
        "    y <= std_logic_vector(unsigned(a) + to_unsigned(15, 6));"
    );
    assert_eq!(
        body("(module m (assign y (* a 16'hff)))"),
        "    y <= std_logic_vector(unsigned(a) * to_unsigned(255, 16));"
    );
}

#[test]
fn shifts_logic_and_conditionals() {
    assert_eq!(
        body("(module m (assign y (<< a 2)) (assign z (>> a b)))"),
        "    y <= std_logic_vector(shift_left(unsigned(a), 2));\n    z <= std_logic_vector(shift_right(unsigned(a), b));"
    );
    assert_eq!(
        body("(module m (assign y (cond ((!= a b) (not c)) (else (concat a b c)))))"),
        "    y <= not c when (a /= b) else (a & b & c);"
    );
    assert_eq!(
        body("(module m (assign (signal y 3) (signal a 0)) (assign (slice y 2 1) (slice a 1 1)))"),
        "    y(3) <= a(0);\n    y(2 downto 1) <= a(1);"
    );
}

#[test]
fn combinational_process() {
    assert_eq!(
        body("(module m (process (a b) (block-write y (and a b)) (if a (nb-write z b) (nb-write z a))))"),
        "    process(a, b)
    begin
        y := (a and b);
        if a then
            z <= b;

        else
            z <= a;

        end if;

    end process;"
    );
}

#[test]
fn clocked_process_without_reset() {
    assert_eq!(
        body("(module m (process ((negedge clk)) (nb-write q d)))"),
        "    process(clk)
    begin
        if falling_edge(clk) then
            q <= d;

        end if;
    end process;"
    );
}

#[test]
fn clocked_process_with_two_rising_edges() {
    assert_eq!(
        body("(module m (process ((posedge clk) (posedge rst) en) (if (== rst 1) (nb-write q 0) (nb-write q d))))"),
        "    process(clk, rst, en)
    begin
        if rst = '1' then
            q <= '0';

        elsif rising_edge(clk) then
            q <= d;

        end if;
    end process;"
    );
}

#[test]
fn reset_branch_left_empty_when_body_does_not_test_reset() {
    assert_eq!(
        body("(module m (process ((posedge clk) (negedge rst)) (nb-write q d)))"),
        "    process(clk, rst)
    begin
        if rst = '0' then
            null; -- reset branch
        elsif rising_edge(clk) then
            q <= d;

        end if;
    end process;"
    );
}

#[test]
fn empty_clocked_body_is_null() {
    assert_eq!(
        body("(module m (process ((posedge clk)) ()))"),
        "    process(clk)
    begin
        if rising_edge(clk) then
            null; -- clocked branch
        end if;
    end process;"
    );
}

#[test]
fn signals_types_and_instances() {
    let src = "(module m (ports (input a 4) (inout b 1) (output c 16)) (wire w N) (reg r 2)
                 (instance sub u1 (port-map (x a) (y b))))";
    let expected = "library IEEE;
use IEEE.STD_LOGIC_1164.ALL;
use IEEE.NUMERIC_STD.ALL;

entity m is
    port (
        a : in STD_LOGIC_VECTOR(3 downto 0);
        b : inout STD_LOGIC;
        c : out STD_LOGIC_VECTOR(15 downto 0)
    );
end m;

architecture Behavioral of m is
    signal w : STD_LOGIC_VECTOR(N - 1 downto 0);
    signal r : STD_LOGIC_VECTOR(1 downto 0);
begin
    u1: entity work.sub
        port map (
            x => a,
            y => b
        );
end Behavioral;";
    assert_eq!(vhdl(src), expected);
}

#[test]
fn modules_are_separated_by_a_blank_line() {
    let text = vhdl("(module a (wire x)) (module b (wire y))");
    assert!(text.contains("end Behavioral;\n\nlibrary IEEE;"));
    assert_eq!(text.matches("library IEEE;").count(), 2);
    assert_eq!(VhdlBackend::new().generate(&[]).unwrap(), "");
}

#[test]
fn active_low_reset_test_is_a_reset_condition() {
    assert_eq!(
        body("(module m (process ((posedge clk) (negedge rst)) (if (== rst 0) (nb-write q 0) (nb-write q d))))"),
        "    process(clk, rst)
    begin
        if rst = '0' then
            q <= '0';

        elsif rising_edge(clk) then
            q <= d;

        end if;
    end process;"
    );
}

#[test]
fn nested_blocks_are_indented_four_spaces_per_level() {
    let mut body = "(nb-write q d)".to_string();
    for _ in 0..20 {
        body = format!("(if en {})", body);
    }
    let text = vhdl(&format!("(module m (process (a) {}))", body));
    let widest = text.lines().map(|l| l.len() - l.trim_start().len()).max().unwrap();
    assert_eq!(widest, 8 + 4 * 20);
}
