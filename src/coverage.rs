//! Structural coverage analysis from per-line execution reports.
use vstd::prelude::*;

use crate::text::{
    chars_of, contains_chars, contains_seq, find_char, lemma_lines_len, line_spans, lines_of,
    next_index_of,
    parse_u32_chars, parse_u32_spec, span_texts, sub_chars, trim_chars, trimmed,
};

verus! {

/// Errors of coverage analysis.
#[derive(Debug)]
pub enum CoverageError {
    ParseError(String),
    IoError(String),
    InvalidData(String),
}

/// Execution record of one source line; `None` marks a line that cannot run.
#[derive(Debug, Clone, Copy, PartialEq, Eq)]
pub struct LineData {
    pub line_number: u32,
    pub execution_count: Option<u32>,
}

/// One branch outcome and whether it was taken.
#[derive(Debug, Clone, Copy, PartialEq, Eq)]
pub struct BranchData {
    pub line_number: u32,
    pub taken: bool,
}

/// Compiler flags that turn on coverage instrumentation.
pub fn build_coverage_flags() -> (r: Vec<String>)
    ensures
        r@.map_values(|s: String| s@) == seq![
            "--coverage"@,
            "-fprofile-arcs"@,
            "-ftest-coverage"@,
        ],
{
    let mut r: Vec<String> = Vec::new();
    r.push(String::from_str("--coverage"));
    r.push(String::from_str("-fprofile-arcs"));
    r.push(String::from_str("-ftest-coverage"));
    assert(r@.map_values(|s: String| s@) =~= seq![
        "--coverage"@,
        "-fprofile-arcs"@,
        "-ftest-coverage"@,
    ]);
    r
}

/// Position of the first field separator of a report line.
pub open spec fn first_colon(l: Seq<char>) -> int {
    next_index_of(l, ':', 0)
}

/// Position of the second field separator of a report line.
pub open spec fn second_colon(l: Seq<char>) -> int {
    next_index_of(l, ':', first_colon(l) + 1)
}

/// The count field of a report line.
pub open spec fn count_field(l: Seq<char>) -> Seq<char> {
    trimmed(l.subrange(0, first_colon(l)))
}

/// The line-number field of a report line.
pub open spec fn number_field(l: Seq<char>) -> Seq<char> {
    trimmed(l.subrange(first_colon(l) + 1, second_colon(l)))
}

/// The source text of a report line.
pub open spec fn source_field(l: Seq<char>) -> Seq<char> {
    l.subrange(second_colon(l) + 1, l.len() as int)
}

/// What the count field says: `-` cannot run, `#####` never ran, else a count.
pub open spec fn count_of(f: Seq<char>) -> Option<u32> {
    if f == "-"@ {
        None
    } else if f == "#####"@ {
        Some(0)
    } else {
        parse_u32_spec(f)
    }
}

/// The record of one report line, if it carries one: blank lines, lines with
/// fewer than three fields and lines whose number field is not a number are
/// skipped.
pub open spec fn gcov_line(l: Seq<char>) -> Option<LineData> {
    if trimmed(l).len() == 0 || second_colon(l) >= l.len() {
        None
    } else {
        match parse_u32_spec(number_field(l)) {
            Some(n) => Some(LineData { line_number: n, execution_count: count_of(count_field(l)) }),
            None => None,
        }
    }
}

/// The branch record of one report line, if its source text mentions a branch.
pub open spec fn gcov_branch(l: Seq<char>) -> Option<BranchData> {
    match gcov_line(l) {
        Some(d) => if contains_seq(source_field(l), "branch"@) {
            Some(BranchData {
                line_number: d.line_number,
                taken: !contains_seq(source_field(l), "never executed"@),
            })
        } else {
            None
        },
        None => None,
    }
}

pub open spec fn opt_seq<T>(o: Option<T>) -> Seq<T> {
    match o {
        Some(x) => seq![x],
        None => Seq::empty(),
    }
}

/// Line records of a sequence of report lines, in order.
pub open spec fn gcov_lines(ls: Seq<Seq<char>>) -> Seq<LineData>
    decreases ls.len(),
{
    if ls.len() == 0 {
        Seq::empty()
    } else {
        gcov_lines(ls.drop_last()) + opt_seq(gcov_line(ls.last()))
    }
}

/// Branch records of a sequence of report lines, in order.
pub open spec fn gcov_branches(ls: Seq<Seq<char>>) -> Seq<BranchData>
    decreases ls.len(),
{
    if ls.len() == 0 {
        Seq::empty()
    } else {
        gcov_branches(ls.drop_last()) + opt_seq(gcov_branch(ls.last()))
    }
}

fn count_field_value(f: &Vec<char>) -> (r: Option<u32>)
    ensures
        r == count_of(f@),
{
    proof {
        reveal_strlit("-");
        reveal_strlit("#####");
    }
    if f.len() == 1 && f[0] == '-' {
        assert(f@ =~= "-"@);
        None
    } else if f.len() == 5 && f[0] == '#' && f[1] == '#' && f[2] == '#' && f[3] == '#' && f[4]
        == '#' {
        assert(f@ =~= "#####"@);
        Some(0)
    } else {
        assert(f@ != "-"@);
        assert(f@ != "#####"@);
        parse_u32_chars(f)
    }
}

/// Reads one report line.
fn parse_gcov_line(l: &Vec<char>) -> (r: (Option<LineData>, Option<BranchData>))
    ensures
        r.0 == gcov_line(l@),
        r.1 == gcov_branch(l@),
{
    let t = trim_chars(l);
    if t.len() == 0 {
        return (None, None);
    }
    let c1 = find_char(l, ':', 0);
    if c1 >= l.len() {
        return (None, None);
    }
    let c2 = find_char(l, ':', c1 + 1);
    if c2 >= l.len() {
        return (None, None);
    }
    let num = trim_chars(&sub_chars(l, c1 + 1, c2));
    let n = match parse_u32_chars(&num) {
        Some(n) => n,
        None => {
            return (None, None);
        },
    };
    let cnt = trim_chars(&sub_chars(l, 0, c1));
    let d = LineData { line_number: n, execution_count: count_field_value(&cnt) };
    let src = sub_chars(l, c2 + 1, l.len());
    let branch_word = chars_of("branch");
    if contains_chars(&src, &branch_word) {
        let never = chars_of("never executed");
        let taken = !contains_chars(&src, &never);
        (Some(d), Some(BranchData { line_number: n, taken }))
    } else {
        (Some(d), None)
    }
}

/// Reads an execution report: one record per line that carries one, in report
/// order, and one branch record per such line whose source text mentions a
/// branch. Malformed lines are skipped; reading never fails.
pub fn parse_gcov_output(gcov_output: &str) -> (r: Result<(Vec<LineData>, Vec<BranchData>), CoverageError>)
    ensures
        r is Ok,
        r matches Ok(p) ==> p.0@ == gcov_lines(lines_of(gcov_output@)) && p.1@ == gcov_branches(
            lines_of(gcov_output@),
        ),
{
    let cs = chars_of(gcov_output);
    let spans = line_spans(&cs);
    let ghost ls = lines_of(cs@);
    let mut lines: Vec<LineData> = Vec::new();
    let mut branches: Vec<BranchData> = Vec::new();
    let mut i: usize = 0;
    while i < spans.len()
        invariant
            i <= spans.len(),
            span_texts(cs@, spans@) == ls,
            forall|k: int| 0 <= k < spans.len() ==> #[trigger] spans@[k].0 <= spans@[k].1 <= cs.len(),
            lines@ == gcov_lines(ls.subrange(0, i as int)),
            branches@ == gcov_branches(ls.subrange(0, i as int)),
        decreases spans.len() - i,
    {
        let (a, b) = spans[i];
        let l = sub_chars(&cs, a, b);
        assert(l@ == ls[i as int]);
        let (ld, bd) = parse_gcov_line(&l);
        proof {
            let pre = ls.subrange(0, i + 1);
            assert(pre.drop_last() =~= ls.subrange(0, i as int));
            assert(pre.last() == l@);
        }
        match ld {
            Some(d) => {
                lines.push(d);
            },
            None => {},
        }
        match bd {
            Some(d) => {
                branches.push(d);
            },
            None => {},
        }
        proof {
            assert(lines@ =~= gcov_lines(ls.subrange(0, i + 1)));
            assert(branches@ =~= gcov_branches(ls.subrange(0, i + 1)));
        }
        i += 1;
    }
    assert(ls.subrange(0, i as int) =~= ls);
    Ok((lines, branches))
}

} // verus!

verus! {

/// Number of records that describe a line that can run.
pub open spec fn executable_count(ls: Seq<LineData>) -> nat
    decreases ls.len(),
{
    if ls.len() == 0 {
        0
    } else {
        executable_count(ls.drop_last()) + if ls.last().execution_count is Some {
            1nat
        } else {
            0nat
        }
    }
}

/// Number of records of a line that ran at least once.
pub open spec fn executed_count(ls: Seq<LineData>) -> nat
    decreases ls.len(),
{
    if ls.len() == 0 {
        0
    } else {
        executed_count(ls.drop_last()) + match ls.last().execution_count {
            Some(n) => if n > 0 {
                1nat
            } else {
                0nat
            },
            None => 0nat,
        }
    }
}

/// Number of branch records that were taken.
pub open spec fn taken_count(bs: Seq<BranchData>) -> nat
    decreases bs.len(),
{
    if bs.len() == 0 {
        0
    } else {
        taken_count(bs.drop_last()) + if bs.last().taken {
            1nat
        } else {
            0nat
        }
    }
}

/// Line numbers of the records that could run but never did, in order.
pub open spec fn uncovered(ls: Seq<LineData>) -> Seq<u32>
    decreases ls.len(),
{
    if ls.len() == 0 {
        Seq::empty()
    } else {
        uncovered(ls.drop_last()) + if ls.last().execution_count == Some(0u32) {
            seq![ls.last().line_number]
        } else {
            Seq::empty()
        }
    }
}

pub proof fn lemma_counts_bounded(ls: Seq<LineData>)
    ensures
        executed_count(ls) <= executable_count(ls) <= ls.len(),
    decreases ls.len(),
{
    if ls.len() > 0 {
        lemma_counts_bounded(ls.drop_last());
    }
}

pub proof fn lemma_taken_bounded(bs: Seq<BranchData>)
    ensures
        taken_count(bs) <= bs.len(),
    decreases bs.len(),
{
    if bs.len() > 0 {
        lemma_taken_bounded(bs.drop_last());
    }
}

/// Executed and executable line counts of `lines`: the statement coverage is
/// the first over the second, and zero when the second is zero.
pub fn statement_coverage_counts(lines: &Vec<LineData>) -> (r: (usize, usize))
    ensures
        r.0 == executed_count(lines@),
        r.1 == executable_count(lines@),
        r.0 <= r.1 <= lines.len(),
{
    let mut executed: usize = 0;
    let mut executable: usize = 0;
    let mut i: usize = 0;
    while i < lines.len()
        invariant
            i <= lines.len(),
            executed == executed_count(lines@.subrange(0, i as int)),
            executable == executable_count(lines@.subrange(0, i as int)),
            executed <= executable <= i,
        decreases lines.len() - i,
    {
        proof {
            let pre = lines@.subrange(0, i + 1);
            assert(pre.drop_last() =~= lines@.subrange(0, i as int));
        }
        match lines[i].execution_count {
            Some(n) => {
                executable += 1;
                if n > 0 {
                    executed += 1;
                }
            },
            None => {},
        }
        i += 1;
    }
    assert(lines@.subrange(0, i as int) =~= lines@);
    (executed, executable)
}

/// Taken and total branch counts of `branches`: the branch coverage is the
/// first over the second, and zero when there are no branches.
pub fn branch_coverage_counts(branches: &Vec<BranchData>) -> (r: (usize, usize))
    ensures
        r.0 == taken_count(branches@),
        r.1 == branches.len(),
{
    let mut taken: usize = 0;
    let mut i: usize = 0;
    while i < branches.len()
        invariant
            i <= branches.len(),
            taken == taken_count(branches@.subrange(0, i as int)),
            taken <= i,
        decreases branches.len() - i,
    {
        proof {
            let pre = branches@.subrange(0, i + 1);
            assert(pre.drop_last() =~= branches@.subrange(0, i as int));
        }
        if branches[i].taken {
            taken += 1;
        }
        i += 1;
    }
    assert(branches@.subrange(0, i as int) =~= branches@);
    (taken, branches.len())
}

/// Line numbers of the records of lines that could run but never did.
pub fn uncovered_lines(lines: &Vec<LineData>) -> (r: Vec<u32>)
    ensures
        r@ == uncovered(lines@),
{
    let mut out: Vec<u32> = Vec::new();
    let mut i: usize = 0;
    while i < lines.len()
        invariant
            i <= lines.len(),
            out@ == uncovered(lines@.subrange(0, i as int)),
        decreases lines.len() - i,
    {
        proof {
            let pre = lines@.subrange(0, i + 1);
            assert(pre.drop_last() =~= lines@.subrange(0, i as int));
        }
        if lines[i].execution_count == Some(0u32) {
            out.push(lines[i].line_number);
        }
        i += 1;
        assert(out@ =~= uncovered(lines@.subrange(0, i as int)));
    }
    assert(lines@.subrange(0, i as int) =~= lines@);
    out
}

} // verus!

verus! {

pub proof fn lemma_gcov_lengths(ls: Seq<Seq<char>>)
    ensures
        gcov_lines(ls).len() <= ls.len(),
        gcov_branches(ls).len() <= ls.len(),
    decreases ls.len(),
{
    if ls.len() > 0 {
        lemma_gcov_lengths(ls.drop_last());
    }
}

/// Coverage counts of one source file.
#[derive(Debug, PartialEq, Eq)]
pub struct FileCoverage {
    pub file: String,
    /// Lines that ran at least once.
    pub executed_lines: usize,
    /// Lines that can run.
    pub executable_lines: usize,
    /// Branch outcomes that were taken.
    pub taken_branches: usize,
    /// All branch outcomes.
    pub total_branches: usize,
    /// Lines that can run but never did, in report order.
    pub uncovered_lines: Vec<u32>,
}

/// Per-file coverage and project totals. The totals sum the raw counts of all
/// files; they are never averages of per-file percentages.
#[derive(Debug, PartialEq, Eq)]
pub struct CoverageReport {
    pub files: Vec<FileCoverage>,
    pub total_executed: usize,
    pub total_executable: usize,
    pub total_taken: usize,
    pub total_branches: usize,
}

/// What a file's coverage holds, given its report text.
pub open spec fn file_coverage_matches(f: FileCoverage, file: Seq<char>, text: Seq<char>) -> bool {
    let ls = gcov_lines(lines_of(text));
    let bs = gcov_branches(lines_of(text));
    &&& f.file@ == file
    &&& f.executed_lines == executed_count(ls)
    &&& f.executable_lines == executable_count(ls)
    &&& f.taken_branches == taken_count(bs)
    &&& f.total_branches == bs.len()
    &&& f.uncovered_lines@ == uncovered(ls)
}

/// Total length of the report texts.
pub open spec fn total_text_len(data: Seq<(String, String)>) -> nat
    decreases data.len(),
{
    if data.len() == 0 {
        0
    } else {
        total_text_len(data.drop_last()) + data.last().1@.len()
    }
}

/// Sum over the report texts of a count of each text's records.
pub open spec fn sum_over(data: Seq<(String, String)>, f: spec_fn(Seq<char>) -> nat) -> nat
    decreases data.len(),
{
    if data.len() == 0 {
        0
    } else {
        sum_over(data.drop_last(), f) + f(data.last().1@)
    }
}

pub open spec fn text_executed(t: Seq<char>) -> nat {
    executed_count(gcov_lines(lines_of(t)))
}

pub open spec fn text_executable(t: Seq<char>) -> nat {
    executable_count(gcov_lines(lines_of(t)))
}

pub open spec fn text_taken(t: Seq<char>) -> nat {
    taken_count(gcov_branches(lines_of(t)))
}

pub open spec fn text_branches(t: Seq<char>) -> nat {
    gcov_branches(lines_of(t)).len()
}

pub open spec fn executed_of() -> spec_fn(Seq<char>) -> nat {
    |t: Seq<char>| text_executed(t)
}

pub open spec fn executable_of() -> spec_fn(Seq<char>) -> nat {
    |t: Seq<char>| text_executable(t)
}

pub open spec fn taken_of() -> spec_fn(Seq<char>) -> nat {
    |t: Seq<char>| text_taken(t)
}

pub open spec fn branches_of() -> spec_fn(Seq<char>) -> nat {
    |t: Seq<char>| text_branches(t)
}

proof fn lemma_sum_bounded(data: Seq<(String, String)>, f: spec_fn(Seq<char>) -> nat)
    requires
        forall|t: Seq<char>| #[trigger] f(t) <= t.len(),
    ensures
        sum_over(data, f) <= total_text_len(data),
    decreases data.len(),
{
    if data.len() > 0 {
        lemma_sum_bounded(data.drop_last(), f);
        assert(f(data.last().1@) <= data.last().1@.len());
    }
}

proof fn lemma_text_counts_bounded(t: Seq<char>)
    ensures
        text_executed(t) <= text_executable(t) <= t.len(),
        text_taken(t) <= text_branches(t) <= t.len(),
{
    lemma_lines_len(t);
    lemma_gcov_lengths(lines_of(t));
    lemma_counts_bounded(gcov_lines(lines_of(t)));
    lemma_taken_bounded(gcov_branches(lines_of(t)));
}

/// Builds the coverage report of a project from each file's report text: one
/// entry per file, in the order given, and totals that sum the raw counts.
pub fn generate_coverage_report(gcov_data: &Vec<(String, String)>) -> (r: Result<
    CoverageReport,
    CoverageError,
>)
    requires
        total_text_len(gcov_data@) <= usize::MAX,
    ensures
        r matches Ok(rep) && rep.files.len() == gcov_data.len() && (forall|i: int|
            0 <= i < gcov_data.len() ==> file_coverage_matches(
                #[trigger] rep.files@[i],
                gcov_data@[i].0@,
                gcov_data@[i].1@,
            )) && rep.total_executed == sum_over(gcov_data@, executed_of())
            && rep.total_executable == sum_over(gcov_data@, executable_of())
            && rep.total_taken == sum_over(gcov_data@, taken_of()) && rep.total_branches
            == sum_over(gcov_data@, branches_of()),
{
    let mut files: Vec<FileCoverage> = Vec::new();
    let mut total_executed: usize = 0;
    let mut total_executable: usize = 0;
    let mut total_taken: usize = 0;
    let mut total_branches: usize = 0;
    let mut i: usize = 0;
    while i < gcov_data.len()
        invariant
            i <= gcov_data.len(),
            total_text_len(gcov_data@) <= usize::MAX,
            files.len() == i,
            forall|k: int|
                0 <= k < i ==> file_coverage_matches(
                    #[trigger] files@[k],
                    gcov_data@[k].0@,
                    gcov_data@[k].1@,
                ),
            total_executed == sum_over(gcov_data@.subrange(0, i as int), executed_of()),
            total_executable == sum_over(gcov_data@.subrange(0, i as int), executable_of()),
            total_taken == sum_over(gcov_data@.subrange(0, i as int), taken_of()),
            total_branches == sum_over(gcov_data@.subrange(0, i as int), branches_of()),
        decreases gcov_data.len() - i,
    {
        let ghost pre = gcov_data@.subrange(0, i + 1);
        proof {
            assert(pre.drop_last() =~= gcov_data@.subrange(0, i as int));
            assert forall|t: Seq<char>| #[trigger] executed_of()(t) <= t.len() by {
                lemma_text_counts_bounded(t);
            }
            assert forall|t: Seq<char>| #[trigger] executable_of()(t) <= t.len() by {
                lemma_text_counts_bounded(t);
            }
            assert forall|t: Seq<char>| #[trigger] taken_of()(t) <= t.len() by {
                lemma_text_counts_bounded(t);
            }
            assert forall|t: Seq<char>| #[trigger] branches_of()(t) <= t.len() by {
                lemma_text_counts_bounded(t);
            }
            lemma_sum_bounded(pre, executed_of());
            lemma_sum_bounded(pre, executable_of());
            lemma_sum_bounded(pre, taken_of());
            lemma_sum_bounded(pre, branches_of());
            lemma_prefix_len(gcov_data@, i + 1);
        }
        let (path, text) = &gcov_data[i];
        let (lines, branches) = match parse_gcov_output(text.as_str()) {
            Ok(p) => p,
            Err(e) => {
                return Err(e);
            },
        };
        let (executed, executable) = statement_coverage_counts(&lines);
        let (taken, total) = branch_coverage_counts(&branches);
        let unc = uncovered_lines(&lines);
        total_executed = total_executed + executed;
        total_executable = total_executable + executable;
        total_taken = total_taken + taken;
        total_branches = total_branches + total;
        files.push(
            FileCoverage {
                file: path.clone(),
                executed_lines: executed,
                executable_lines: executable,
                taken_branches: taken,
                total_branches: total,
                uncovered_lines: unc,
            },
        );
        i += 1;
    }
    assert(gcov_data@.subrange(0, i as int) =~= gcov_data@);
    Ok(
        CoverageReport {
            files,
            total_executed,
            total_executable,
            total_taken,
            total_branches,
        },
    )
}

proof fn lemma_prefix_len(data: Seq<(String, String)>, k: int)
    requires
        0 <= k <= data.len(),
    ensures
        total_text_len(data.subrange(0, k)) <= total_text_len(data),
    decreases data.len(),
{
    if k < data.len() {
        assert(data.drop_last().subrange(0, k) =~= data.subrange(0, k));
        lemma_prefix_len(data.drop_last(), k);
    } else {
        assert(data.subrange(0, k) =~= data);
    }
}

} // verus!
