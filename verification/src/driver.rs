//! What the command-line compiler decides around the pipeline: whether VHDL
//! is asked for, the name of the file it writes, and the semantic check of
//! every module.
use vstd::prelude::*;
use crate::ast::{modules_view, Module, SpecModule};
use crate::semantic::{check_module, spec_check_module};
use crate::text::{chars_of, names_of, push_char, push_str, string_is};

verus! {

/// `s` with each occurrence of `from`, scanning from the left and never
/// overlapping, replaced by `to` (`str::replace`).
pub open spec fn replace_all(s: Seq<char>, from: Seq<char>, to: Seq<char>) -> Seq<char>
    decreases s.len(),
{
    if from.len() == 0 || s.len() < from.len() {
        s
    } else if s.take(from.len() as int) == from {
        to + replace_all(s.skip(from.len() as int), from, to)
    } else {
        seq![s[0]] + replace_all(s.skip(1), from, to)
    }
}

/// Whether `cs[i..]` starts with `pat`.
fn starts_at(cs: &Vec<char>, i: usize, pat: &Vec<char>) -> (b: bool)
    requires
        i <= cs.len(),
    ensures
        b == (cs@.len() - i >= pat@.len() && cs@.skip(i as int).take(pat@.len() as int) == pat@),
{
    if cs.len() - i < pat.len() {
        return false;
    }
    let mut k: usize = 0;
    while k < pat.len()
        invariant
            k <= pat.len(),
            i + pat.len() <= cs.len(),
            forall|j: int| 0 <= j < k ==> cs@[i + j] == pat@[j],
        decreases pat.len() - k,
    {
        if cs[i + k] != pat[k] {
            assert(cs@.skip(i as int).take(pat@.len() as int)[k as int] != pat@[k as int]);
            return false;
        }
        k += 1;
    }
    assert(cs@.skip(i as int).take(pat@.len() as int) =~= pat@);
    true
}

/// `s` with every occurrence of `from` replaced by `to`.
pub fn replace_text(s: &str, from: &str, to: &str) -> (r: String)
    requires
        from@.len() > 0,
    ensures
        r@ == replace_all(s@, from@, to@),
{
    let cs = chars_of(s);
    let pat = chars_of(from);
    let mut out = String::new();
    let mut i: usize = 0;
    assert(cs@.skip(0) =~= s@);
    assert(out@ + s@ =~= s@);
    while i < cs.len()
        invariant
            i <= cs.len(),
            cs@ == s@,
            pat@ == from@,
            pat@.len() > 0,
            replace_all(s@, from@, to@) == out@ + replace_all(cs@.skip(i as int), from@, to@),
        decreases cs.len() - i,
    {
        let ghost rest = cs@.skip(i as int);
        if starts_at(&cs, i, &pat) {
            push_str(&mut out, to);
            assert(rest.skip(pat@.len() as int) =~= cs@.skip(i + pat@.len()));
            i += pat.len();
        } else {
            push_char(&mut out, cs[i]);
            assert(rest.skip(1) =~= cs@.skip(i + 1));
            assert(rest[0] == cs@[i as int]);
            i += 1;
        }
    }
    assert(cs@.skip(i as int) =~= Seq::<char>::empty());
    assert(out@ + Seq::<char>::empty() =~= out@);
    out
}

/// The file the compiler writes for `input_file`: each `.hal` in the name
/// becomes `.vhd` for VHDL output, `.v` for Verilog.
pub fn output_file_name(input_file: &str, use_vhdl: bool) -> (r: String)
    ensures
        r@ == replace_all(input_file@, ".hal"@, if use_vhdl {
            ".vhd"@
        } else {
            ".v"@
        }),
{
    proof {
        reveal_strlit(".hal");
    }
    if use_vhdl {
        replace_text(input_file, ".hal", ".vhd")
    } else {
        replace_text(input_file, ".hal", ".v")
    }
}

/// Whether one of the command-line arguments is `--vhdl`.
pub fn wants_vhdl(args: &Vec<String>) -> (b: bool)
    ensures
        b == names_of(args@).contains("--vhdl"@),
{
    let mut i: usize = 0;
    while i < args.len()
        invariant
            i <= args.len(),
            forall|j: int| 0 <= j < i ==> names_of(args@)[j] != "--vhdl"@,
        decreases args.len() - i,
    {
        if string_is(&args[i], "--vhdl") {
            assert(names_of(args@)[i as int] == "--vhdl"@);
            return true;
        }
        i += 1;
    }
    false
}

/// The first error of the modules `ms[i..]`, in order.
pub open spec fn first_module_error(ms: Seq<SpecModule>, i: int) -> Option<Seq<char>>
    decreases ms.len() - i,
{
    if i < 0 || i >= ms.len() {
        None
    } else {
        match spec_check_module(ms[i]) {
            Err(e) => Some(e),
            Ok(_) => first_module_error(ms, i + 1),
        }
    }
}

/// Checks every module in order; the error is that of the first module
/// that fails.
pub fn check_modules(modules: &Vec<Module>) -> (r: Result<(), String>)
    ensures
        match first_module_error(modules_view(modules@), 0) {
            None => r is Ok,
            Some(e) => r matches Err(m) && m@ == e,
        },
{
    let ghost mv = modules_view(modules@);
    let mut i: usize = 0;
    while i < modules.len()
        invariant
            i <= modules.len(),
            mv == modules_view(modules@),
            first_module_error(mv, 0) == first_module_error(mv, i as int),
        decreases modules.len() - i,
    {
        let r = check_module(&modules[i]);
        if r.is_err() {
            return r;
        }
        i += 1;
    }
    Ok(())
}

} // verus!
