//! Tool-usage audit records: what a qualified tool was run on and produced,
//! with content checksums, kept one record per line of an append-only log.
use vstd::prelude::*;

use crate::entries::{entry_views, lookup, set_entry};
use crate::text::{chars_of, line_spans, lines_of, slice_string, span_texts, sub_chars, trim_bounds, trimmed};
use crate::time::{now_utc, Timestamp};

verus! {

/// Failures of the audit log.
#[derive(Debug)]
pub enum ToolQualificationError {
    /// A file whose checksum was asked for could not be read.
    ChecksumError { path: String, message: String },
    LogWriteError(String),
    SerializationError(String),
    LogFileNotFound(String),
}

/// One invocation of a qualified tool. Records are never changed once logged.
#[derive(Debug, PartialEq, Eq)]
pub struct ToolUsageRecord {
    pub tool: String,
    pub version: String,
    pub arguments: Vec<String>,
    pub input_checksums: Vec<(String, String)>,
    pub output_checksums: Vec<(String, String)>,
    pub timestamp: Timestamp,
    pub exit_code: i32,
    pub diagnostics: Vec<String>,
}

impl ToolUsageRecord {
    /// A record of an invocation made now, with no checksums or diagnostics yet.
    pub fn new(tool: String, version: String, arguments: Vec<String>, exit_code: i32) -> (r: Self)
        ensures
            r.tool == tool,
            r.version == version,
            r.arguments == arguments,
            r.exit_code == exit_code,
            r.input_checksums@.len() == 0,
            r.output_checksums@.len() == 0,
            r.diagnostics@.len() == 0,
    {
        ToolUsageRecord {
            tool,
            version,
            arguments,
            input_checksums: Vec::new(),
            output_checksums: Vec::new(),
            timestamp: now_utc(),
            exit_code,
            diagnostics: Vec::new(),
        }
    }

    /// Records the checksum of an input file, replacing an earlier one.
    pub fn add_input_checksum(&mut self, path: String, checksum: String)
        ensures
            lookup(entry_views(final(self).input_checksums@), path@) == Some(checksum@),
            forall|k: Seq<char>| k != path@ ==> lookup(entry_views(final(self).input_checksums@), k)
                == lookup(entry_views(old(self).input_checksums@), k),
            final(self).output_checksums == old(self).output_checksums,
            final(self).diagnostics == old(self).diagnostics,
            final(self).tool == old(self).tool,
            final(self).exit_code == old(self).exit_code,
    {
        set_entry(&mut self.input_checksums, path, checksum);
    }

    /// Records the checksum of an output file, replacing an earlier one.
    pub fn add_output_checksum(&mut self, path: String, checksum: String)
        ensures
            lookup(entry_views(final(self).output_checksums@), path@) == Some(checksum@),
            forall|k: Seq<char>| k != path@ ==> lookup(entry_views(final(self).output_checksums@), k)
                == lookup(entry_views(old(self).output_checksums@), k),
            final(self).input_checksums == old(self).input_checksums,
            final(self).diagnostics == old(self).diagnostics,
            final(self).tool == old(self).tool,
            final(self).exit_code == old(self).exit_code,
    {
        set_entry(&mut self.output_checksums, path, checksum);
    }

    /// Appends a diagnostic message.
    pub fn add_diagnostic(&mut self, message: String)
        ensures
            final(self).diagnostics@ == old(self).diagnostics@.push(message),
            final(self).input_checksums == old(self).input_checksums,
            final(self).output_checksums == old(self).output_checksums,
            final(self).tool == old(self).tool,
            final(self).exit_code == old(self).exit_code,
    {
        self.diagnostics.push(message);
    }
}

/// The audit log of a project: a text file with one record per line.
#[derive(Debug)]
pub struct ToolQualificationLogger {
    pub log_path: String,
}

impl ToolQualificationLogger {
    pub fn new(log_path: String) -> (r: Self)
        ensures
            r.log_path == log_path,
    {
        ToolQualificationLogger { log_path }
    }

    pub fn log_path(&self) -> (r: &String)
        ensures
            r == &self.log_path,
    {
        &self.log_path
    }
}

/// The lines of a log text that hold a record: those that are not blank, in
/// file order.
pub open spec fn record_lines_spec(ls: Seq<Seq<char>>) -> Seq<Seq<char>>
    decreases ls.len(),
{
    if ls.len() == 0 {
        Seq::empty()
    } else {
        record_lines_spec(ls.drop_last()) + if trimmed(ls.last()).len() > 0 {
            seq![ls.last()]
        } else {
            Seq::empty()
        }
    }
}

/// The record lines of a log text, in file order; blank lines are skipped.
pub fn record_lines(content: &str) -> (r: Vec<String>)
    ensures
        r@.map_values(|s: String| s@) == record_lines_spec(lines_of(content@)),
{
    let cs = chars_of(content);
    let spans = line_spans(&cs);
    let ghost ls = lines_of(cs@);
    let mut out: Vec<String> = Vec::new();
    let mut i: usize = 0;
    while i < spans.len()
        invariant
            cs@ == content@,
            ls == lines_of(cs@),
            span_texts(cs@, spans@) == ls,
            forall|k: int| 0 <= k < spans.len() ==> #[trigger] spans@[k].0 <= spans@[k].1 <= cs.len(),
            i <= spans.len(),
            out@.map_values(|s: String| s@) == record_lines_spec(ls.subrange(0, i as int)),
        decreases spans.len() - i,
    {
        let (a, b) = spans[i];
        let l = sub_chars(&cs, a, b);
        assert(l@ == ls[i as int]);
        proof {
            let pre = ls.subrange(0, i + 1);
            assert(pre.drop_last() =~= ls.subrange(0, i as int));
            assert(pre.last() == l@);
        }
        let (ta, tb) = trim_bounds(&l);
        let ghost before = out@;
        if ta < tb {
            let line = slice_string(content, a, b);
            out.push(line);
            assert(out@.map_values(|s: String| s@) =~= before.map_values(|s: String| s@).push(l@));
        }
        i += 1;
    }
    assert(ls.subrange(0, i as int) =~= ls);
    out
}

/// The SHA-256 digest of some bytes.
pub uninterp spec fn sha256_of(data: Seq<u8>) -> Seq<u8>;

/// Relies on sha2's `Sha256` through `Digest::digest`: the digest of the bytes,
/// 32 bytes long (the output size of `Sha256` is `U32`).
#[verifier::external_body]
fn sha256_digest(data: &Vec<u8>) -> (r: Vec<u8>)
    ensures
        r@ == sha256_of(data@),
        r@.len() == 32,
{
    <sha2::Sha256 as sha2::Digest>::digest(data.as_slice()).to_vec()
}

pub open spec fn hex_char(n: int) -> char {
    if n < 10 {
        ((n + 48) as u8) as char
    } else {
        ((n + 87) as u8) as char
    }
}

/// Two lower-case hexadecimal digits for each byte, high digit first.
pub open spec fn hex_of(b: Seq<u8>) -> Seq<char>
    decreases b.len(),
{
    if b.len() == 0 {
        Seq::empty()
    } else {
        hex_of(b.drop_last()) + seq![hex_char(b.last() as int / 16), hex_char(b.last() as int % 16)]
    }
}

pub proof fn lemma_hex_len(b: Seq<u8>)
    ensures
        hex_of(b).len() == 2 * b.len(),
    decreases b.len(),
{
    if b.len() > 0 {
        lemma_hex_len(b.drop_last());
    }
}

fn hex_digit(n: u8) -> (r: &'static str)
    requires
        n < 16,
    ensures
        r@ == seq![hex_char(n as int)],
{
    proof {
        reveal_strlit("0");
        reveal_strlit("1");
        reveal_strlit("2");
        reveal_strlit("3");
        reveal_strlit("4");
        reveal_strlit("5");
        reveal_strlit("6");
        reveal_strlit("7");
        reveal_strlit("8");
        reveal_strlit("9");
        reveal_strlit("a");
        reveal_strlit("b");
        reveal_strlit("c");
        reveal_strlit("d");
        reveal_strlit("e");
        reveal_strlit("f");
    }
    let r = match n {
        0 => "0",
        1 => "1",
        2 => "2",
        3 => "3",
        4 => "4",
        5 => "5",
        6 => "6",
        7 => "7",
        8 => "8",
        9 => "9",
        10 => "a",
        11 => "b",
        12 => "c",
        13 => "d",
        14 => "e",
        _ => "f",
    };
    assert(r@ =~= seq![hex_char(n as int)]);
    r
}

/// Lower-case hexadecimal text of some bytes.
pub fn lower_hex(b: &Vec<u8>) -> (r: String)
    ensures
        r@ == hex_of(b@),
        r@.len() == 2 * b@.len(),
{
    let mut s = String::new();
    let mut i: usize = 0;
    while i < b.len()
        invariant
            i <= b.len(),
            s@ == hex_of(b@.subrange(0, i as int)),
        decreases b.len() - i,
    {
        let x = b[i];
        s.append(hex_digit(x / 16));
        s.append(hex_digit(x % 16));
        proof {
            let pre = b@.subrange(0, i + 1);
            assert(pre.drop_last() =~= b@.subrange(0, i as int));
        }
        i += 1;
        assert(s@ =~= hex_of(b@.subrange(0, i as int)));
    }
    assert(b@.subrange(0, i as int) =~= b@);
    proof {
        lemma_hex_len(b@);
    }
    s
}

/// The SHA-256 checksum of some bytes as 64 lower-case hexadecimal digits.
pub fn sha256_hex(data: &Vec<u8>) -> (r: String)
    ensures
        r@ == hex_of(sha256_of(data@)),
        r@.len() == 64,
{
    let d = sha256_digest(data);
    lower_hex(&d)
}

/// Checksums depend on the bytes alone: equal contents, empty ones included,
/// give the same 64-digit checksum.
pub proof fn law_checksum_deterministic(a: Seq<u8>, b: Seq<u8>)
    requires
        a == b,
    ensures
        hex_of(sha256_of(a)) == hex_of(sha256_of(b)),
{
}

} // verus!

verus! {

/// The log line that holds one serialized record.
pub fn log_line(record_text: &str) -> (r: String)
    ensures
        r@ == record_text@ + "\n"@,
{
    crate::text::concat_str(record_text, "\n")
}

/// The text of a log whose records were written, in order, as `ls`.
pub open spec fn framed(ls: Seq<Seq<char>>) -> Seq<char>
    decreases ls.len(),
{
    if ls.len() == 0 {
        Seq::empty()
    } else {
        ls[0] + seq!['\n'] + framed(ls.drop_first())
    }
}

/// A record line as serialization writes it: one line, not blank, not ending
/// in a carriage return.
pub open spec fn is_record_text(l: Seq<char>) -> bool {
    &&& !l.contains('\n')
    &&& (l.len() == 0 || l.last() != '\r')
    &&& trimmed(l).len() > 0
}

proof fn lemma_next_newline_shift(q: Seq<char>, t: Seq<char>, j: int)
    requires
        0 <= j <= t.len(),
    ensures
        crate::text::next_newline(q + t, q.len() + j) == q.len() + crate::text::next_newline(t, j),
    decreases t.len() - j,
{
    if j < t.len() {
        assert((q + t)[q.len() + j] == t[j]);
        lemma_next_newline_shift(q, t, j + 1);
    }
}

proof fn lemma_lines_shift(q: Seq<char>, t: Seq<char>, j: int)
    requires
        0 <= j <= t.len() + 1,
    ensures
        crate::text::lines_from(q + t, q.len() + j) == crate::text::lines_from(t, j),
    decreases t.len() + 1 - j,
{
    let s = q + t;
    if j < t.len() {
        lemma_next_newline_shift(q, t, j);
        crate::text::lemma_next_newline_bounds(t, j);
        let e = crate::text::next_newline(t, j);
        if e < t.len() && e > j {
            assert(s[q.len() + e - 1] == t[e - 1]);
        }
        let le = crate::text::line_end(t, j, e);
        assert(s.subrange(q.len() + j, q.len() + le) =~= t.subrange(j, le));
        lemma_lines_shift(q, t, e + 1);
    }
}

pub proof fn lemma_framed_lines(ls: Seq<Seq<char>>)
    requires
        forall|k: int| 0 <= k < ls.len() ==> is_record_text(#[trigger] ls[k]),
    ensures
        lines_of(framed(ls)) == ls,
    decreases ls.len(),
{
    if ls.len() > 0 {
        let rest = ls.drop_first();
        assert forall|k: int| 0 <= k < rest.len() implies is_record_text(#[trigger] rest[k]) by {
            assert(rest[k] == ls[k + 1]);
        }
        lemma_framed_lines(rest);
        let l = ls[0];
        assert(is_record_text(l));
        let q = l + seq!['\n'];
        let s = framed(ls);
        assert(s =~= q + framed(rest));
        assert forall|i: int| 0 <= i < l.len() implies s[i] != '\n' by {
            assert(s[i] == l[i]);
            if l[i] == '\n' {
                assert(l.contains('\n'));
            }
        }
        assert(s[l.len() as int] == '\n');
        assert(crate::text::next_newline(s, 0) == l.len()) by {
            lemma_skip(s, 0, l.len() as int);
        }
        if l.len() > 0 {
            assert(s[l.len() - 1] == l.last());
        }
        assert(s.subrange(0, l.len() as int) =~= l);
        lemma_lines_shift(q, framed(rest), 0);
        assert(lines_of(s) =~= seq![l] + rest);
        assert(seq![l] + rest =~= ls);
    } else {
        assert(lines_of(framed(ls)) =~= ls);
    }
}

proof fn lemma_skip(s: Seq<char>, p: int, q: int)
    requires
        0 <= p <= q < s.len(),
        s[q] == '\n',
        forall|i: int| p <= i < q ==> s[i] != '\n',
    ensures
        crate::text::next_newline(s, p) == q,
    decreases q - p,
{
    if p < q {
        lemma_skip(s, p + 1, q);
    }
}

proof fn lemma_records_all_kept(ls: Seq<Seq<char>>)
    requires
        forall|k: int| 0 <= k < ls.len() ==> is_record_text(#[trigger] ls[k]),
    ensures
        record_lines_spec(ls) == ls,
    decreases ls.len(),
{
    if ls.len() > 0 {
        let d = ls.drop_last();
        assert forall|k: int| 0 <= k < d.len() implies is_record_text(#[trigger] d[k]) by {
            assert(d[k] == ls[k]);
        }
        lemma_records_all_kept(d);
        assert(is_record_text(ls[ls.len() - 1]));
        assert(d.push(ls.last()) =~= ls);
    }
}

/// Records logged one after another are read back all, in logging order:
/// the log text of record lines `ls` yields exactly `ls`; an empty log yields
/// none.
pub proof fn law_log_reads_back_in_order(ls: Seq<Seq<char>>)
    requires
        forall|k: int| 0 <= k < ls.len() ==> is_record_text(#[trigger] ls[k]),
    ensures
        record_lines_spec(lines_of(framed(ls))) == ls,
        record_lines_spec(lines_of(Seq::empty())) == Seq::<Seq<char>>::empty(),
{
    lemma_framed_lines(ls);
    lemma_records_all_kept(ls);
    assert(lines_of(Seq::<char>::empty()) == Seq::<Seq<char>>::empty());
}

} // verus!
