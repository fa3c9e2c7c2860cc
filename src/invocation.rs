//! Argument lists for compiling and linking, and reading compiler messages.
use vstd::prelude::*;

use crate::arm_mcu::{compiler_flags_spec, linker_flags_spec};
use crate::text::{
    chars_of, concat_str, contains_chars, contains_seq, copy_string, decimal_text, extend_strings,
    join_strings, joined, lemma_views_push, line_spans, lines_of, number_text, slice_string,
    span_texts, sub_chars, trim_bounds, trimmed, views,
};
use crate::toolchain::{
    ArmCompileRequest, ArmLinkRequest, CompileRequest, DetectedToolchain, ToolchainKind,
};
use crate::types::{Diagnostic, Severity};

verus! {

/// Arguments of a compile request: compile only, source, output, the
/// optimization level, `-g` with debug data, the target where the toolchain
/// is Clang and one is asked for, then the extra flags.
pub open spec fn build_command_spec(kind: ToolchainKind, r: CompileRequest) -> Seq<Seq<char>> {
    seq!["-c"@, r.source@, "-o"@, r.output@, "-O"@ + decimal_text(r.optimization as nat)] + (if r.debug {
        seq!["-g"@]
    } else {
        Seq::empty()
    }) + (match r.target {
        Some(t) => if kind == ToolchainKind::Clang { seq!["--target="@ + t@] } else { Seq::empty() },
        None => Seq::empty(),
    }) + views(r.flags@)
}

fn push_str(v: &mut Vec<String>, s: String)
    ensures
        views(final(v)@) == views(old(v)@).push(s@),
{
    let ghost before = v@;
    v.push(s);
    proof {
        lemma_views_push(before, v@.last());
    }
}

/// The compiler arguments for `request`.
pub fn build_command(toolchain: &DetectedToolchain, request: &CompileRequest) -> (r: Vec<String>)
    ensures
        views(r@) == build_command_spec(toolchain.kind, *request),
{
    proof {
        reveal_strlit("-c");
        reveal_strlit("-o");
        reveal_strlit("-O");
        reveal_strlit("-g");
        reveal_strlit("--target=");
    }
    let mut args: Vec<String> = Vec::new();
    push_str(&mut args, String::from_str("-c"));
    push_str(&mut args, copy_string(&request.source));
    push_str(&mut args, String::from_str("-o"));
    push_str(&mut args, copy_string(&request.output));
    push_str(&mut args, concat_str("-O", number_text(request.optimization as u64).as_str()));
    if request.debug {
        push_str(&mut args, String::from_str("-g"));
    }
    match &request.target {
        Some(t) => {
            if toolchain.kind == ToolchainKind::Clang {
                push_str(&mut args, concat_str("--target=", t.as_str()));
            }
        },
        None => {},
    }
    let ghost mid = views(args@);
    extend_strings(&mut args, &request.flags);
    assert(views(args@) =~= build_command_spec(toolchain.kind, *request));
    args
}

/// The command line that `build_command` would run, as one line of text.
pub fn dry_run(toolchain: &DetectedToolchain, request: &CompileRequest) -> (r: String)
    ensures
        r@ == toolchain.path@ + " "@ + joined(build_command_spec(toolchain.kind, *request), " "@),
{
    let args = build_command(toolchain, request);
    let mut s = copy_string(&toolchain.path);
    s.append(" ");
    let j = join_strings(&args, " ");
    s.append(j.as_str());
    s
}

/// The messages of compiler output: each non-blank line, trimmed, that holds
/// `error:` is an error, else each that holds `warning:` a warning.
pub open spec fn diagnostics_spec(ls: Seq<Seq<char>>) -> Seq<(Severity, Seq<char>)>
    decreases ls.len(),
{
    if ls.len() == 0 {
        Seq::empty()
    } else {
        let t = trimmed(ls.last());
        diagnostics_spec(ls.drop_last()) + if t.len() == 0 {
            Seq::empty()
        } else if contains_seq(t, "error:"@) {
            seq![(Severity::Error, t)]
        } else if contains_seq(t, "warning:"@) {
            seq![(Severity::Warning, t)]
        } else {
            Seq::empty()
        }
    }
}

pub open spec fn diagnostic_views(v: Seq<Diagnostic>) -> Seq<(Severity, Seq<char>)> {
    v.map_values(|d: Diagnostic| (d.severity, d.message@))
}

/// Reads compiler output into diagnostics, in order.
pub fn parse_diagnostics(stderr: &str, _kind: ToolchainKind) -> (r: Vec<Diagnostic>)
    ensures
        diagnostic_views(r@) == diagnostics_spec(lines_of(stderr@)),
        forall|i: int| 0 <= i < r@.len() ==> (#[trigger] r@[i]).location is None,
{
    let cs = chars_of(stderr);
    let spans = line_spans(&cs);
    let ghost ls = lines_of(cs@);
    let err = chars_of("error:");
    let warn = chars_of("warning:");
    let mut out: Vec<Diagnostic> = Vec::new();
    let mut i: usize = 0;
    while i < spans.len()
        invariant
            cs@ == stderr@,
            ls == lines_of(cs@),
            err@ == "error:"@,
            warn@ == "warning:"@,
            span_texts(cs@, spans@) == ls,
            forall|k: int| 0 <= k < spans.len() ==> #[trigger] spans@[k].0 <= spans@[k].1 <= cs.len(),
            i <= spans.len(),
            diagnostic_views(out@) == diagnostics_spec(ls.subrange(0, i as int)),
            forall|k: int| 0 <= k < out@.len() ==> (#[trigger] out@[k]).location is None,
        decreases spans.len() - i,
    {
        let (a, b) = spans[i];
        let l = sub_chars(&cs, a, b);
        assert(l@ == ls[i as int]);
        proof {
            let pre = ls.subrange(0, i + 1);
            assert(pre.drop_last() =~= ls.subrange(0, i as int));
            assert(pre.last() == l@);
        }
        let (ta, tb) = trim_bounds(&l);
        let t = sub_chars(&l, ta, tb);
        let ghost before = out@;
        if ta < tb {
            let text = slice_string(stderr, a + ta, a + tb);
            assert(text@ =~= t@);
            if contains_chars(&t, &err) {
                out.push(Diagnostic::error(text.as_str()));
                assert(diagnostic_views(out@) =~= diagnostic_views(before).push((Severity::Error, t@)));
            } else if contains_chars(&t, &warn) {
                out.push(Diagnostic::warning(text.as_str()));
                assert(diagnostic_views(out@) =~= diagnostic_views(before).push((Severity::Warning, t@)));
            }
        }
        i += 1;
    }
    assert(ls.subrange(0, i as int) =~= ls);
    out
}

/// Arguments of an ARM compile request: compile only, the target's compiler
/// flags, `-I` for each include path in order, the optimization level, `-g3`
/// with debug data, then source and output.
pub open spec fn arm_compile_spec(r: ArmCompileRequest) -> Seq<Seq<char>> {
    seq!["-c"@] + compiler_flags_spec(r.mcu) + r.include_paths@.map_values(|p: String| "-I"@ + p@) + seq![
        "-O"@ + decimal_text(r.optimization as nat),
    ] + (if r.debug {
        seq!["-g3"@]
    } else {
        Seq::empty()
    }) + seq![r.source@, "-o"@, r.output@]
}

/// The compiler arguments for an ARM compile request.
pub fn build_arm_compile_command(_gcc_path: &str, request: &ArmCompileRequest) -> (r: Vec<String>)
    ensures
        views(r@) == arm_compile_spec(*request),
{
    proof {
        reveal_strlit("-c");
        reveal_strlit("-o");
        reveal_strlit("-O");
        reveal_strlit("-g3");
        reveal_strlit("-I");
    }
    let mut args: Vec<String> = Vec::new();
    push_str(&mut args, String::from_str("-c"));
    let mcu_flags = request.mcu.compiler_flags();
    extend_strings(&mut args, &mcu_flags);
    let ghost base = views(args@);
    let inc = &request.include_paths;
    let mut i: usize = 0;
    while i < inc.len()
        invariant
            i <= inc.len(),
            views(args@) == base + inc@.subrange(0, i as int).map_values(|p: String| "-I"@ + p@),
        decreases inc.len() - i,
    {
        push_str(&mut args, concat_str("-I", inc[i].as_str()));
        proof {
            assert(inc@.subrange(0, i + 1).map_values(|p: String| "-I"@ + p@) =~= inc@.subrange(0, i as int).map_values(|p: String| "-I"@ + p@).push("-I"@ + inc@[i as int]@));
        }
        i += 1;
    }
    assert(inc@.subrange(0, i as int) =~= inc@);
    push_str(&mut args, concat_str("-O", number_text(request.optimization as u64).as_str()));
    if request.debug {
        push_str(&mut args, String::from_str("-g3"));
    }
    push_str(&mut args, copy_string(&request.source));
    push_str(&mut args, String::from_str("-o"));
    push_str(&mut args, copy_string(&request.output));
    assert(views(args@) =~= arm_compile_spec(*request));
    args
}

/// Arguments of an ARM link request: the target's linker flags, the newlib
/// nano specs, no start files, the objects in order, then the output.
pub open spec fn arm_link_spec(r: ArmLinkRequest) -> Seq<Seq<char>> {
    linker_flags_spec(r.mcu, r.linker) + seq!["--specs=nano.specs"@, "-nostartfiles"@] + views(r.objects@)
        + seq!["-o"@, r.output@]
}

/// The compiler-driver arguments for an ARM link request.
pub fn build_arm_link_command(_gcc_path: &str, request: &ArmLinkRequest) -> (r: Vec<String>)
    ensures
        views(r@) == arm_link_spec(*request),
{
    proof {
        reveal_strlit("--specs=nano.specs");
        reveal_strlit("-nostartfiles");
        reveal_strlit("-o");
    }
    let mut args: Vec<String> = Vec::new();
    let lf = request.mcu.linker_flags(&request.linker);
    extend_strings(&mut args, &lf);
    push_str(&mut args, String::from_str("--specs=nano.specs"));
    push_str(&mut args, String::from_str("-nostartfiles"));
    extend_strings(&mut args, &request.objects);
    push_str(&mut args, String::from_str("-o"));
    push_str(&mut args, copy_string(&request.output));
    assert(views(args@) =~= arm_link_spec(*request));
    args
}

/// Flag that stops the compiler after preprocessing.
pub fn build_preprocessor_flags() -> (r: Vec<String>)
    ensures
        views(r@) == seq!["-E"@],
{
    let mut v: Vec<String> = Vec::new();
    push_str(&mut v, String::from_str("-E"));
    assert(views(v@) =~= seq!["-E"@]);
    v
}

/// Flag that stops the compiler after generating assembly.
pub fn build_assembly_flags() -> (r: Vec<String>)
    ensures
        views(r@) == seq!["-S"@],
{
    let mut v: Vec<String> = Vec::new();
    push_str(&mut v, String::from_str("-S"));
    assert(views(v@) =~= seq!["-S"@]);
    v
}

/// Flag that makes objdump disassemble.
pub fn build_disassembly_flags() -> (r: Vec<String>)
    ensures
        views(r@) == seq!["-d"@],
{
    let mut v: Vec<String> = Vec::new();
    push_str(&mut v, String::from_str("-d"));
    assert(views(v@) =~= seq!["-d"@]);
    v
}

/// Flag that makes objdump print the symbol table.
pub fn build_symbol_table_flags() -> (r: Vec<String>)
    ensures
        views(r@) == seq!["-t"@],
{
    let mut v: Vec<String> = Vec::new();
    push_str(&mut v, String::from_str("-t"));
    assert(views(v@) =~= seq!["-t"@]);
    v
}

/// Flag that makes objdump print the section headers.
pub fn build_section_headers_flags() -> (r: Vec<String>)
    ensures
        views(r@) == seq!["-h"@],
{
    let mut v: Vec<String> = Vec::new();
    push_str(&mut v, String::from_str("-h"));
    assert(views(v@) =~= seq!["-h"@]);
    v
}

/// objcopy arguments that turn an ELF image into Intel HEX.
pub fn build_objcopy_hex_command(_objcopy_path: &str, elf_path: &str, hex_path: &str) -> (r: Vec<String>)
    ensures
        views(r@) == seq!["-O"@, "ihex"@, elf_path@, hex_path@],
{
    let mut v: Vec<String> = Vec::new();
    push_str(&mut v, String::from_str("-O"));
    push_str(&mut v, String::from_str("ihex"));
    push_str(&mut v, String::from_str(elf_path));
    push_str(&mut v, String::from_str(hex_path));
    assert(views(v@) =~= seq!["-O"@, "ihex"@, elf_path@, hex_path@]);
    v
}

/// objcopy arguments that turn an ELF image into a raw binary.
pub fn build_objcopy_bin_command(_objcopy_path: &str, elf_path: &str, bin_path: &str) -> (r: Vec<String>)
    ensures
        views(r@) == seq!["-O"@, "binary"@, elf_path@, bin_path@],
{
    let mut v: Vec<String> = Vec::new();
    push_str(&mut v, String::from_str("-O"));
    push_str(&mut v, String::from_str("binary"));
    push_str(&mut v, String::from_str(elf_path));
    push_str(&mut v, String::from_str(bin_path));
    assert(views(v@) =~= seq!["-O"@, "binary"@, elf_path@, bin_path@]);
    v
}

} // verus!
