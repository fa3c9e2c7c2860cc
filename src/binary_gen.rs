//! Flash images made from a linked ELF file, and memory use as `size` reports it.
use vstd::prelude::*;

use crate::text::{char_views, chars_of, line_spans, lines_of, parse_u32_chars, parse_u32_spec, split_words, sub_chars, words};

verus! {

/// Which outputs to produce from a linked image.
#[derive(Debug, Clone, Copy, PartialEq, Eq, Structural)]
pub struct BinaryOutputConfig {
    pub hex: bool,
    pub bin: bool,
    pub size_report: bool,
}

impl BinaryOutputConfig {
    /// Every output.
    pub fn new() -> (r: Self)
        ensures
            r.hex && r.bin && r.size_report,
    {
        BinaryOutputConfig { hex: true, bin: true, size_report: true }
    }
}

/// Section sizes of an image, in bytes.
#[derive(Debug, Clone, Copy, PartialEq, Eq, Structural)]
pub struct SizeStats {
    pub text: u32,
    pub data: u32,
    pub bss: u32,
    pub total: u32,
}

/// Paths of the outputs produced, and the sizes where they were asked for.
#[derive(Debug, Clone)]
pub struct BinaryResult {
    pub hex_path: Option<String>,
    pub bin_path: Option<String>,
    pub size_stats: Option<SizeStats>,
}

/// The sizes in the output of `size`: the first three words of its second
/// line are text, data and bss; the total is their sum. `None` where a word is
/// missing or no number, or the sum does not fit in `u32`.
pub open spec fn size_stats_spec(output: Seq<char>) -> Option<SizeStats> {
    let ls = lines_of(output);
    if ls.len() < 2 || words(ls[1]).len() < 3 {
        None
    } else {
        let w = words(ls[1]);
        match (parse_u32_spec(w[0]), parse_u32_spec(w[1]), parse_u32_spec(w[2])) {
            (Some(t), Some(d), Some(b)) => if t + d + b <= u32::MAX {
                Some(SizeStats { text: t, data: d, bss: b, total: (t + d + b) as u32 })
            } else {
                None
            },
            _ => None,
        }
    }
}

/// Reads the section sizes from the output of `size`.
pub fn parse_size_output(output: &str) -> (r: Option<SizeStats>)
    ensures
        r == size_stats_spec(output@),
{
    let cs = chars_of(output);
    let spans = line_spans(&cs);
    if spans.len() < 2 {
        return None;
    }
    let (a, b) = spans[1];
    let l = sub_chars(&cs, a, b);
    assert(l@ == lines_of(output@)[1]);
    let ws = split_words(&l);
    if ws.len() < 3 {
        return None;
    }
    assert(char_views(ws@)[0] == ws@[0]@);
    assert(char_views(ws@)[1] == ws@[1]@);
    assert(char_views(ws@)[2] == ws@[2]@);
    let t = match parse_u32_chars(&ws[0]) {
        Some(v) => v,
        None => return None,
    };
    let d = match parse_u32_chars(&ws[1]) {
        Some(v) => v,
        None => return None,
    };
    let s = match parse_u32_chars(&ws[2]) {
        Some(v) => v,
        None => return None,
    };
    let sum = t as u64 + d as u64 + s as u64;
    if sum > u32::MAX as u64 {
        return None;
    }
    Some(SizeStats { text: t, data: d, bss: s, total: sum as u32 })
}

} // verus!
