//! Reading toolchain versions, comparing them, and classifying installations.
use vstd::prelude::*;

use crate::text::{char_views, chars_of, contains_chars, contains_seq, is_digit, line_spans, lines_of, occurs_at, slice_string, split_words, starts_with_chars, starts_with_seq, sub_chars, trimmed, words, parse_u32_chars, parse_u32_spec, find_from};
use crate::toolchain::{ArmToolchainSuite, ToolchainCompleteness, ToolchainKind, ToolchainSource};

verus! {

/// First position of `t` in `s`, if any.
pub open spec fn first_pos(s: Seq<char>, t: Seq<char>) -> Option<int> {
    if exists|i: int| occurs_at(s, t, i) {
        Some(choose|i: int| occurs_at(s, t, i) && forall|j: int| 0 <= j < i ==> !occurs_at(s, t, j))
    } else {
        None
    }
}

/// Position of the last `c` in `s`, or -1.
pub open spec fn last_pos(s: Seq<char>, c: char) -> int
    decreases s.len(),
{
    if s.len() == 0 {
        -1
    } else if s.last() == c {
        s.len() - 1
    } else {
        last_pos(s.drop_last(), c)
    }
}

/// The longest prefix of `s` made of ASCII digits and dots.
pub open spec fn version_prefix(s: Seq<char>) -> Seq<char>
    decreases s.len(),
{
    if s.len() > 0 && (is_digit(s[0]) || s[0] == '.') {
        seq![s[0]] + version_prefix(s.drop_first())
    } else {
        Seq::empty()
    }
}

/// A word that starts with a digit and holds a dot.
pub open spec fn looks_like_version(w: Seq<char>) -> bool {
    w.len() > 0 && is_digit(w[0]) && contains_seq(w, "."@)
}

/// The first word of `ws` that looks like a version.
pub open spec fn first_version_word(ws: Seq<Seq<char>>) -> Option<Seq<char>>
    decreases ws.len(),
{
    if ws.len() == 0 {
        None
    } else if looks_like_version(ws[0]) {
        Some(ws[0])
    } else {
        first_version_word(ws.drop_first())
    }
}

/// The version in the first line of a tool's `--version` output: for Clang
/// the digits and dots after `version `, for GCC the first version-like word
/// after the last `)` (else in the whole line), for Python what follows
/// `Python `, trimmed; where none of these is found, the whole first line.
/// `None` only for output without lines.
pub open spec fn version_spec(output: Seq<char>, kind: ToolchainKind) -> Option<Seq<char>> {
    let ls = lines_of(output);
    if ls.len() == 0 {
        None
    } else {
        let l = ls[0];
        Some(
            match kind {
                ToolchainKind::Clang => match first_pos(l, "version"@) {
                    Some(i) => {
                        let from = if i + 8 <= l.len() { i + 8 } else { l.len() as int };
                        let v = version_prefix(l.subrange(from, l.len() as int));
                        if v.len() > 0 { v } else { l }
                    },
                    None => l,
                },
                ToolchainKind::Python => if starts_with_seq(l, "Python "@) {
                    trimmed(l.subrange(7, l.len() as int))
                } else {
                    l
                },
                _ => {
                    let p = last_pos(l, ')');
                    let after = if p >= 0 { first_version_word(words(l.subrange(p + 1, l.len() as int))) } else { None };
                    match after {
                        Some(w) => w,
                        None => match first_version_word(words(l)) {
                            Some(w) => w,
                            None => l,
                        },
                    }
                },
            },
        )
    }
}

fn version_prefix_exec(s: &Vec<char>, from: usize) -> (r: usize)
    requires
        from <= s.len(),
    ensures
        from <= r <= s.len(),
        s@.subrange(from as int, r as int) == version_prefix(s@.subrange(from as int, s.len() as int)),
{
    let mut i = from;
    while i < s.len() && (('0' <= s[i] && s[i] <= '9') || s[i] == '.')
        invariant
            from <= i <= s.len(),
            version_prefix(s@.subrange(from as int, s.len() as int)) == s@.subrange(from as int, i as int)
                + version_prefix(s@.subrange(i as int, s.len() as int)),
        decreases s.len() - i,
    {
        proof {
            let rest = s@.subrange(i as int, s.len() as int);
            assert(rest.drop_first() =~= s@.subrange(i + 1, s.len() as int));
            assert(s@.subrange(from as int, i + 1) =~= s@.subrange(from as int, i as int) + seq![s@[i as int]]);
        }
        i += 1;
    }
    proof {
        let rest = s@.subrange(i as int, s.len() as int);
        if i < s.len() {
            assert(rest[0] == s@[i as int]);
        }
        assert(version_prefix(rest) =~= Seq::<char>::empty());
        assert(s@.subrange(from as int, i as int) + Seq::<char>::empty() =~= s@.subrange(from as int, i as int));
    }
    i
}

fn last_pos_exec(s: &Vec<char>, c: char) -> (r: Option<usize>)
    ensures
        match r {
            Some(i) => i < s.len() && last_pos(s@, c) == i,
            None => last_pos(s@, c) == -1,
        },
{
    let mut k: usize = s.len();
    assert(s@.subrange(0, k as int) =~= s@);
    while k > 0
        invariant
            k <= s.len(),
            last_pos(s@, c) == last_pos(s@.subrange(0, k as int), c),
        decreases k,
    {
        assert(s@.subrange(0, k as int).drop_last() =~= s@.subrange(0, k - 1));
        if s[k - 1] == c {
            return Some(k - 1);
        }
        k -= 1;
    }
    None
}

fn first_version_word_exec(ws: &Vec<Vec<char>>) -> (r: Option<usize>)
    ensures
        match r {
            Some(i) => i < ws.len() && first_version_word(char_views(ws@)) == Some(ws@[i as int]@),
            None => first_version_word(char_views(ws@)) is None,
        },
{
    proof {
        reveal_strlit(".");
    }
    let dot = chars_of(".");
    let ghost all = char_views(ws@);
    let mut i: usize = 0;
    assert(all.subrange(0, all.len() as int) =~= all);
    while i < ws.len()
        invariant
            i <= ws.len(),
            dot@ == "."@,
            all == char_views(ws@),
            first_version_word(all) == first_version_word(all.subrange(i as int, all.len() as int)),
        decreases ws.len() - i,
    {
        let rest = Ghost(all.subrange(i as int, all.len() as int));
        assert(rest@[0] == ws@[i as int]@);
        assert(rest@.drop_first() =~= all.subrange(i + 1, all.len() as int));
        let w = &ws[i];
        if w.len() > 0 && '0' <= w[0] && w[0] <= '9' && contains_chars(w, &dot) {
            return Some(i);
        }
        i += 1;
    }
    None
}

/// The text of the first version-like word of `l.subrange(from, l.len())`,
/// where `l` is `src[a..]`.
fn version_word_in(src: &str, cs: &Vec<char>, a: usize, l: &Vec<char>, from: usize) -> (r: Option<String>)
    requires
        cs@ == src@,
        from <= l.len(),
        a + l.len() <= cs.len(),
        l@ == cs@.subrange(a as int, a + l.len()),
    ensures
        match r {
            Some(v) => first_version_word(words(l@.subrange(from as int, l.len() as int))) == Some(v@),
            None => first_version_word(words(l@.subrange(from as int, l.len() as int))) is None,
        },
{
    let sub = sub_chars(l, from, l.len());
    let ws = split_words(&sub);
    let spans = crate::text::word_spans(&sub);
    match first_version_word_exec(&ws) {
        Some(i) => {
            let (x, y) = spans[i];
            proof {
                assert(char_views(ws@)[i as int] == ws@[i as int]@);
                assert(words(sub@)[i as int] == sub@.subrange(x as int, y as int));
                assert(cs@.subrange(a + from + x, a + from + y) =~= sub@.subrange(x as int, y as int));
            }
            Some(slice_string(src, a + from + x, a + from + y))
        },
        None => None,
    }
}

/// Reads the version from a tool's `--version` output.
pub fn parse_version(output: &str, kind: ToolchainKind) -> (r: Option<String>)
    ensures
        match r {
            Some(v) => version_spec(output@, kind) == Some(v@),
            None => version_spec(output@, kind) is None,
        },
{
    proof {
        reveal_strlit("version");
        reveal_strlit("Python ");
    }
    let cs = chars_of(output);
    let spans = line_spans(&cs);
    if spans.len() == 0 {
        return None;
    }
    let (a, b) = spans[0];
    let l = sub_chars(&cs, a, b);
    let ghost lv = lines_of(output@)[0];
    assert(l@ == lv);
    let whole = slice_string(output, a, b);
    match kind {
        ToolchainKind::Clang => {
            match find_from(&l, &chars_of("version"), 0) {
                Some(i) => {
                    proof {
                        let c = choose|j: int| occurs_at(lv, "version"@, j) && forall|k: int| 0 <= k < j ==> !occurs_at(lv, "version"@, k);
                        assert(c == i) by {
                            if c < i {
                                assert(!occurs_at(lv, "version"@, c));
                            } else if c > i {
                                assert(!occurs_at(lv, "version"@, i as int));
                            }
                        }
                    }
                    let from = if l.len() - i >= 8 { i + 8 } else { l.len() };
                    let e = version_prefix_exec(&l, from);
                    if e > from {
                        assert(cs@.subrange(a + from, a + e) =~= l@.subrange(from as int, e as int));
                        Some(slice_string(output, a + from, a + e))
                    } else {
                        Some(whole)
                    }
                },
                None => {
                    assert(!exists|j: int| occurs_at(lv, "version"@, j)) by {
                        if exists|j: int| occurs_at(lv, "version"@, j) {
                            let j = choose|j: int| occurs_at(lv, "version"@, j);
                            assert(!occurs_at(l@, "version"@, j));
                        }
                    }
                    Some(whole)
                },
            }
        },
        ToolchainKind::Python => {
            if starts_with_chars(&l, &chars_of("Python ")) {
                let sub = sub_chars(&l, 7, l.len());
                let (ta, tb) = crate::text::trim_bounds(&sub);
                assert(cs@.subrange(a + 7 + ta, a + 7 + tb) =~= sub@.subrange(ta as int, tb as int));
                Some(slice_string(output, a + 7 + ta, a + 7 + tb))
            } else {
                Some(whole)
            }
        },
        _ => {
            let after = match last_pos_exec(&l, ')') {
                Some(p) => version_word_in(output, &cs, a, &l, p + 1),
                None => None,
            };
            match after {
                Some(w) => Some(w),
                None => {
                    assert(l@.subrange(0, l.len() as int) =~= l@);
                    match version_word_in(output, &cs, a, &l, 0) {
                        Some(w) => Some(w),
                        None => Some(whole),
                    }
                },
            }
        },
    }
}

/// Reads the version from `arm-none-eabi-gcc --version` output.
pub fn parse_arm_gcc_version(output: &str) -> (r: Option<String>)
    ensures
        match r {
            Some(v) => version_spec(output@, ToolchainKind::ArmGcc) == Some(v@),
            None => version_spec(output@, ToolchainKind::ArmGcc) is None,
        },
{
    parse_version(output, ToolchainKind::ArmGcc)
}

/// The `.`-separated pieces of `s` from position `p` on, empty ones included.
pub open spec fn pieces_from(s: Seq<char>, p: int) -> Seq<Seq<char>>
    decreases s.len() + 1 - p,
{
    if p < 0 || p > s.len() {
        Seq::empty()
    } else {
        let e = crate::text::next_index_of(s, '.', p);
        if e < p || e >= s.len() {
            seq![s.subrange(p, s.len() as int)]
        } else {
            seq![s.subrange(p, e)] + pieces_from(s, e + 1)
        }
    }
}

/// The numbers among the pieces, in order; pieces that are no number are
/// dropped.
pub open spec fn numbers_of(ps: Seq<Seq<char>>) -> Seq<u32>
    decreases ps.len(),
{
    if ps.len() == 0 {
        Seq::empty()
    } else {
        numbers_of(ps.drop_last()) + match parse_u32_spec(ps.last()) {
            Some(n) => seq![n],
            None => Seq::empty(),
        }
    }
}

/// The numeric components of a dotted version.
pub open spec fn version_numbers(s: Seq<char>) -> Seq<u32> {
    numbers_of(pieces_from(s, 0))
}

pub open spec fn part_or_zero(v: Seq<u32>, i: int) -> int {
    if 0 <= i < v.len() {
        v[i] as int
    } else {
        0
    }
}

/// Version `a` is at least version `m` from component `i` on, missing
/// components counting as zero.
pub open spec fn at_least_from(a: Seq<u32>, m: Seq<u32>, i: int) -> bool
    decreases (if a.len() > m.len() { a.len() } else { m.len() }) - i,
{
    if i < 0 || i >= a.len() && i >= m.len() {
        true
    } else if part_or_zero(a, i) > part_or_zero(m, i) {
        true
    } else if part_or_zero(a, i) < part_or_zero(m, i) {
        false
    } else {
        at_least_from(a, m, i + 1)
    }
}

proof fn lemma_next_dot(s: Seq<char>, p: int)
    requires
        0 <= p <= s.len(),
    ensures
        p <= crate::text::next_index_of(s, '.', p) <= s.len(),
    decreases s.len() - p,
{
    if p < s.len() && s[p] != '.' {
        lemma_next_dot(s, p + 1);
    }
}

/// The numeric components of a dotted version.
fn version_numbers_exec(v: &str) -> (r: Vec<u32>)
    ensures
        r@ == version_numbers(v@),
{
    let s = chars_of(v);
    let mut out: Vec<u32> = Vec::new();
    let mut p: usize = 0;
    let ghost all = pieces_from(s@, 0);
    assert(out@ =~= numbers_of(Seq::<Seq<char>>::empty()));
    loop
        invariant_except_break
            exists|done: Seq<Seq<char>>| done + pieces_from(s@, p as int) == all && #[trigger] numbers_of(done) == out@,
        invariant
            p <= s.len(),
            s@ == v@,
            all == pieces_from(s@, 0),
        ensures
            out@ == numbers_of(all),
        decreases s.len() - p,
    {
        let e = crate::text::find_char(&s, '.', p);
        let piece = sub_chars(&s, p, e);
        let ghost done = choose|done: Seq<Seq<char>>| done + pieces_from(s@, p as int) == all && #[trigger] numbers_of(done) == out@;
        let ghost done2 = done.push(piece@);
        proof {
            assert(done2.drop_last() =~= done);
        }
        match parse_u32_chars(&piece) {
            Some(n) => {
                out.push(n);
            },
            None => {},
        }
        assert(numbers_of(done2) =~= out@);
        if e >= s.len() {
            assert(pieces_from(s@, p as int) =~= seq![piece@]);
            assert(done2 =~= all);
            break;
        }
        assert(pieces_from(s@, p as int) =~= seq![piece@] + pieces_from(s@, e + 1));
        assert(done2 + pieces_from(s@, e + 1) =~= all);
        p = e + 1;
    }
    out
}

/// Whether version `actual` is at least version `minimum`, comparing the
/// numeric components in order, missing ones counting as zero.
pub fn is_version_compatible(actual: &str, minimum: &str) -> (r: bool)
    ensures
        r == at_least_from(version_numbers(actual@), version_numbers(minimum@), 0),
{
    let a = version_numbers_exec(actual);
    let m = version_numbers_exec(minimum);
    let n = if a.len() > m.len() { a.len() } else { m.len() };
    let mut i: usize = 0;
    while i < n
        invariant
            a@ == version_numbers(actual@),
            m@ == version_numbers(minimum@),
            n == if a.len() > m.len() { a.len() } else { m.len() },
            i <= n,
            at_least_from(a@, m@, 0) == at_least_from(a@, m@, i as int),
        decreases n - i,
    {
        let x: u32 = if i < a.len() { a[i] } else { 0 };
        let y: u32 = if i < m.len() { m[i] } else { 0 };
        assert(part_or_zero(a@, i as int) == x as int);
        assert(part_or_zero(m@, i as int) == y as int);
        if x > y {
            return true;
        } else if x < y {
            return false;
        }
        i += 1;
    }
    true
}

/// Where an installation at `path` comes from, judged by its path.
pub open spec fn source_spec(path: Seq<char>) -> ToolchainSource {
    if contains_seq(path, "homebrew"@) || contains_seq(path, "/opt/homebrew/"@) {
        ToolchainSource::Homebrew
    } else if contains_seq(path, "STM32CubeIDE"@) || contains_seq(path, "stm32cubeide"@) {
        ToolchainSource::Stm32CubeIde
    } else if starts_with_seq(path, "/usr/bin/"@) || starts_with_seq(path, "/usr/local/bin/"@) {
        ToolchainSource::SystemPath
    } else {
        ToolchainSource::Manual
    }
}

/// Where an installation at `path` comes from, judged by its path.
pub fn detect_source(path: &str) -> (r: ToolchainSource)
    ensures
        r == source_spec(path@),
{
    let p = chars_of(path);
    if contains_chars(&p, &chars_of("homebrew")) || contains_chars(&p, &chars_of("/opt/homebrew/")) {
        ToolchainSource::Homebrew
    } else if contains_chars(&p, &chars_of("STM32CubeIDE")) || contains_chars(&p, &chars_of("stm32cubeide")) {
        ToolchainSource::Stm32CubeIde
    } else if starts_with_chars(&p, &chars_of("/usr/bin/")) || starts_with_chars(&p, &chars_of("/usr/local/bin/")) {
        ToolchainSource::SystemPath
    } else {
        ToolchainSource::Manual
    }
}

/// Names of the tools of a suite, in the order `suite_tool_paths` gives them.
pub open spec fn tool_names() -> Seq<Seq<char>> {
    seq!["gcc"@, "g++"@, "as"@, "ld"@, "objcopy"@, "objdump"@, "size"@, "gdb"@]
}

/// The paths of the tools of a suite: gcc, g++, as, ld, objcopy, objdump,
/// size, gdb.
pub fn suite_tool_paths(suite: &ArmToolchainSuite) -> (r: Vec<String>)
    ensures
        crate::text::views(r@) == seq![suite.gcc@, suite.gxx@, suite.as_@, suite.ld@, suite.objcopy@, suite.objdump@, suite.size@, suite.gdb@],
{
    let mut v: Vec<String> = Vec::new();
    v.push(crate::text::copy_string(&suite.gcc));
    v.push(crate::text::copy_string(&suite.gxx));
    v.push(crate::text::copy_string(&suite.as_));
    v.push(crate::text::copy_string(&suite.ld));
    v.push(crate::text::copy_string(&suite.objcopy));
    v.push(crate::text::copy_string(&suite.objdump));
    v.push(crate::text::copy_string(&suite.size));
    v.push(crate::text::copy_string(&suite.gdb));
    assert(crate::text::views(v@) =~= seq![suite.gcc@, suite.gxx@, suite.as_@, suite.ld@, suite.objcopy@, suite.objdump@, suite.size@, suite.gdb@]);
    v
}

/// The names of the tools whose flag in `exists` is false, in order.
pub open spec fn missing_tools(exists: Seq<bool>) -> Seq<Seq<char>>
    decreases exists.len(),
{
    if exists.len() == 0 || exists.len() > 8 {
        Seq::empty()
    } else {
        missing_tools(exists.drop_last()) + if exists.last() {
            Seq::empty()
        } else {
            seq![tool_names()[exists.len() - 1]]
        }
    }
}

/// Whether a suite is complete, given for each of its tools, in the order of
/// `suite_tool_paths`, whether the tool exists: complete when all do, else
/// incomplete with the names of the missing ones.
pub fn validate_toolchain_suite(_suite: &ArmToolchainSuite, tool_exists: &Vec<bool>) -> (r: ToolchainCompleteness)
    requires
        tool_exists.len() == 8,
    ensures
        missing_tools(tool_exists@).len() == 0 ==> r == ToolchainCompleteness::Complete,
        missing_tools(tool_exists@).len() > 0 ==> (r matches ToolchainCompleteness::Incomplete { missing }
            && crate::text::views(missing@) == missing_tools(tool_exists@)),
{
    let names: [&str; 8] = ["gcc", "g++", "as", "ld", "objcopy", "objdump", "size", "gdb"];
    let mut missing: Vec<String> = Vec::new();
    let mut i: usize = 0;
    while i < 8
        invariant
            i <= 8,
            tool_exists.len() == 8,
            names@.map_values(|s: &str| s@) == tool_names(),
            crate::text::views(missing@) == missing_tools(tool_exists@.subrange(0, i as int)),
        decreases 8 - i,
    {
        proof {
            assert(tool_exists@.subrange(0, i + 1).drop_last() =~= tool_exists@.subrange(0, i as int));
        }
        if !tool_exists[i] {
            let ghost before = missing@;
            missing.push(String::from_str(names[i]));
            proof {
                crate::text::lemma_views_push(before, missing@.last());
                assert(names@.map_values(|s: &str| s@)[i as int] == names@[i as int]@);
            }
        }
        i += 1;
    }
    assert(tool_exists@.subrange(0, 8) =~= tool_exists@);
    if missing.len() == 0 {
        ToolchainCompleteness::Complete
    } else {
        ToolchainCompleteness::Incomplete { missing }
    }
}

/// Where the Python shipped with the application lives, relative to it.
pub fn bundled_python_path() -> (r: String)
    ensures
        r@ == "vendor/python/bin/python3"@,
{
    String::from_str("vendor/python/bin/python3")
}

} // verus!
