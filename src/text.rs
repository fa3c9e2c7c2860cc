//! Character-level helpers shared by the report and annotation scanners.
use vstd::prelude::*;
use vstd::std_specs::iter::IteratorSpec;

verus! {

/// The characters of `s`, in order.
pub fn chars_of(s: &str) -> (r: Vec<char>)
    ensures
        r@ == s@,
{
    let mut out: Vec<char> = Vec::new();
    let mut it = s.chars();
    loop
        invariant
            it.obeys_prophetic_iter_laws(),
            out@ + it.remaining() == s@,
            it.decrease() is Some,
        ensures
            out@ == s@,
        decreases it.decrease()->0,
    {
        match it.next() {
            Some(c) => {
                out.push(c);
                assert(out@ + it.remaining() =~= s@);
            },
            None => {
                assert(out@ =~= s@);
                break;
            },
        }
    }
    out
}

} // verus!

verus! {

/// Characters that Unicode classifies as `White_Space`.
pub open spec fn is_space(c: char) -> bool {
    let u = c as u32;
    (0x9 <= u && u <= 0xd) || u == 0x20 || u == 0x85 || u == 0xa0 || u == 0x1680 || (0x2000 <= u
        && u <= 0x200a) || u == 0x2028 || u == 0x2029 || u == 0x202f || u == 0x205f || u == 0x3000
}

pub fn space_char(c: char) -> (r: bool)
    ensures
        r == is_space(c),
{
    let u = c as u32;
    (0x9 <= u && u <= 0xd) || u == 0x20 || u == 0x85 || u == 0xa0 || u == 0x1680 || (0x2000 <= u
        && u <= 0x200a) || u == 0x2028 || u == 0x2029 || u == 0x202f || u == 0x205f || u == 0x3000
}

pub open spec fn is_digit(c: char) -> bool {
    '0' <= c && c <= '9'
}

pub open spec fn digit_value(c: char) -> int {
    (c as int) - ('0' as int)
}

/// `t` stands in `s` at position `i`.
pub open spec fn occurs_at(s: Seq<char>, t: Seq<char>, i: int) -> bool {
    0 <= i && i + t.len() <= s.len() && s.subrange(i, i + t.len()) == t
}

pub open spec fn contains_seq(s: Seq<char>, t: Seq<char>) -> bool {
    exists|i: int| occurs_at(s, t, i)
}

pub open spec fn starts_with_seq(s: Seq<char>, t: Seq<char>) -> bool {
    occurs_at(s, t, 0)
}

pub open spec fn ends_with_seq(s: Seq<char>, t: Seq<char>) -> bool {
    occurs_at(s, t, s.len() - t.len())
}

/// Whether `t` stands in `s` at position `i`.
pub fn occurs_at_exec(s: &Vec<char>, t: &Vec<char>, i: usize) -> (r: bool)
    ensures
        r == occurs_at(s@, t@, i as int),
{
    if i > s.len() || t.len() > s.len() - i {
        return false;
    }
    let mut k: usize = 0;
    while k < t.len()
        invariant
            i + t.len() <= s.len(),
            k <= t.len(),
            forall|j: int| 0 <= j < k ==> s@[i + j] == t@[j],
        decreases t.len() - k,
    {
        if s[i + k] != t[k] {
            assert(s@.subrange(i as int, i + t.len())[k as int] != t@[k as int]);
            return false;
        }
        k += 1;
    }
    assert(s@.subrange(i as int, i + t.len()) =~= t@);
    true
}

/// The first position at or after `from` where `t` stands in `s`.
pub fn find_from(s: &Vec<char>, t: &Vec<char>, from: usize) -> (r: Option<usize>)
    ensures
        match r {
            Some(i) => from <= i && occurs_at(s@, t@, i as int) && forall|j: int|
                from <= j < i ==> !occurs_at(s@, t@, j),
            None => forall|j: int| from <= j ==> !occurs_at(s@, t@, j),
        },
{
    if from > s.len() {
        return None;
    }
    let mut i: usize = from;
    while i < s.len()
        invariant
            from <= i <= s.len(),
            forall|j: int| from <= j < i ==> !occurs_at(s@, t@, j),
        decreases s.len() - i,
    {
        if occurs_at_exec(s, t, i) {
            return Some(i);
        }
        i += 1;
    }
    if occurs_at_exec(s, t, i) {
        return Some(i);
    }
    None
}

pub fn contains_chars(s: &Vec<char>, t: &Vec<char>) -> (r: bool)
    ensures
        r == contains_seq(s@, t@),
{
    match find_from(s, t, 0) {
        Some(i) => true,
        None => {
            assert forall|j: int| !occurs_at(s@, t@, j) by {
                if j >= 0 {
                }
            }
            false
        },
    }
}


pub fn starts_with_chars(s: &Vec<char>, t: &Vec<char>) -> (r: bool)
    ensures
        r == starts_with_seq(s@, t@),
{
    occurs_at_exec(s, t, 0)
}

pub fn ends_with_chars(s: &Vec<char>, t: &Vec<char>) -> (r: bool)
    ensures
        r == ends_with_seq(s@, t@),
{
    if t.len() > s.len() {
        false
    } else {
        occurs_at_exec(s, t, s.len() - t.len())
    }
}

/// The characters of `s` from `from` up to, not including, `to`, as a string.
pub fn slice_string(s: &str, from: usize, to: usize) -> (r: String)
    requires
        from <= to <= s@.len(),
    ensures
        r@ == s@.subrange(from as int, to as int),
{
    let part = s.substring_char(from, to);
    String::from_str(part)
}

} // verus!

verus! {

/// Position of the first line feed at or after `p`, or the length of `s`.
pub open spec fn next_newline(s: Seq<char>, p: int) -> int
    decreases s.len() - p,
{
    if p >= s.len() {
        s.len() as int
    } else if s[p] == '\n' {
        p
    } else {
        next_newline(s, p + 1)
    }
}

/// End of the line that starts at `p` and stops at `e`: a carriage return right
/// before the line feed is not part of the line.
pub open spec fn line_end(s: Seq<char>, p: int, e: int) -> int {
    if e < s.len() && e > p && s[e - 1] == '\r' {
        e - 1
    } else {
        e
    }
}

/// The lines of `s` from position `p` on: split at each line feed, a carriage
/// return before the line feed dropped, no empty line after a final line feed.
pub open spec fn lines_from(s: Seq<char>, p: int) -> Seq<Seq<char>>
    decreases s.len() + 1 - p
    via lines_from_decreases

{
    if p < 0 || p >= s.len() {
        Seq::empty()
    } else {
        let e = next_newline(s, p);
        seq![s.subrange(p, line_end(s, p, e))] + lines_from(s, e + 1)
    }
}

#[via_fn]
proof fn lines_from_decreases(s: Seq<char>, p: int) {
    if 0 <= p < s.len() {
        lemma_next_newline_bounds(s, p);
    }
}

pub open spec fn lines_of(s: Seq<char>) -> Seq<Seq<char>> {
    lines_from(s, 0)
}

pub proof fn lemma_next_newline_bounds(s: Seq<char>, p: int)
    requires
        0 <= p <= s.len(),
    ensures
        p <= next_newline(s, p) <= s.len(),
        next_newline(s, p) < s.len() ==> s[next_newline(s, p)] == '\n',
        forall|i: int| p <= i < next_newline(s, p) ==> s[i] != '\n',
    decreases s.len() - p,
{
    if p < s.len() && s[p] != '\n' {
        lemma_next_newline_bounds(s, p + 1);
    }
}

proof fn lemma_next_newline_skip(s: Seq<char>, p: int, q: int)
    requires
        0 <= p <= q <= s.len(),
        forall|i: int| p <= i < q ==> s[i] != '\n',
    ensures
        next_newline(s, p) == next_newline(s, q),
    decreases q - p,
{
    if p < q {
        lemma_next_newline_skip(s, p + 1, q);
    }
}

/// The text covered by each span of `spans`.
pub open spec fn span_texts(s: Seq<char>, spans: Seq<(usize, usize)>) -> Seq<Seq<char>> {
    spans.map_values(|sp: (usize, usize)| s.subrange(sp.0 as int, sp.1 as int))
}

/// Start and end of each line of `s`.
pub fn line_spans(s: &Vec<char>) -> (r: Vec<(usize, usize)>)
    ensures
        span_texts(s@, r@) == lines_of(s@),
        forall|i: int| 0 <= i < r.len() ==> #[trigger] r@[i].0 <= r@[i].1 <= s.len(),
{
    let n = s.len();
    let mut spans: Vec<(usize, usize)> = Vec::new();
    let mut p: usize = 0;
    let mut q: usize = 0;
    while q < n
        invariant
            n == s.len(),
            p <= q <= n,
            forall|i: int| p <= i < q ==> s@[i] != '\n',
            span_texts(s@, spans@) + lines_from(s@, p as int) == lines_of(s@),
            forall|i: int| 0 <= i < spans.len() ==> #[trigger] spans@[i].0 <= spans@[i].1 <= s.len(),
        decreases n - q,
    {
        if s[q] == '\n' {
            let end = if q > p && s[q - 1] == '\r' {
                q - 1
            } else {
                q
            };
            proof {
                lemma_next_newline_skip(s@, p as int, q as int);
                assert(next_newline(s@, p as int) == q);
                assert(lines_from(s@, p as int) == seq![s@.subrange(p as int, end as int)]
                    + lines_from(s@, q + 1));
            }
            let ghost old_spans = spans@;
            spans.push((p, end));
            proof {
                assert forall|i: int| 0 <= i < spans.len() implies #[trigger] spans@[i].0 <= spans@[i].1 <= s.len() by {
                    if i < old_spans.len() {
                        assert(spans@[i] == old_spans[i]);
                    }
                }
                assert(span_texts(s@, spans@) =~= span_texts(s@, old_spans) + seq![
                    s@.subrange(p as int, end as int)]);
            }
            q += 1;
            p = q;
            assert(span_texts(s@, spans@) + lines_from(s@, p as int) =~= lines_of(s@));
        } else {
            q += 1;
        }
    }
    if p < n {
        proof {
            lemma_next_newline_skip(s@, p as int, n as int);
            assert(lines_from(s@, n + 1) == Seq::<Seq<char>>::empty());
            assert(lines_from(s@, p as int) =~= seq![s@.subrange(p as int, n as int)]);
        }
        let ghost old_spans = spans@;
        spans.push((p, n));
        assert(span_texts(s@, spans@) =~= span_texts(s@, old_spans) + seq![
            s@.subrange(p as int, n as int)]);
    } else {
        assert(span_texts(s@, spans@) =~= lines_of(s@));
    }
    spans
}

} // verus!

verus! {

/// First position at or after `i` that does not hold white space.
pub open spec fn skip_space(s: Seq<char>, i: int) -> int
    decreases s.len() - i,
{
    if i < 0 || i >= s.len() {
        i
    } else if is_space(s[i]) {
        skip_space(s, i + 1)
    } else {
        i
    }
}

/// End of `s` up to `j` once trailing white space after `lo` is dropped.
pub open spec fn drop_space_back(s: Seq<char>, lo: int, j: int) -> int
    decreases j - lo,
{
    if j <= lo {
        j
    } else if is_space(s[j - 1]) {
        drop_space_back(s, lo, j - 1)
    } else {
        j
    }
}

/// `s` without leading and trailing white space.
pub open spec fn trimmed(s: Seq<char>) -> Seq<char> {
    let a = skip_space(s, 0);
    s.subrange(a, drop_space_back(s, a, s.len() as int))
}

pub fn sub_chars(s: &Vec<char>, from: usize, to: usize) -> (r: Vec<char>)
    requires
        from <= to <= s.len(),
    ensures
        r@ == s@.subrange(from as int, to as int),
{
    let mut r: Vec<char> = Vec::new();
    let mut k = from;
    while k < to
        invariant
            from <= k <= to <= s.len(),
            r@ == s@.subrange(from as int, k as int),
        decreases to - k,
    {
        r.push(s[k]);
        k += 1;
        assert(r@ =~= s@.subrange(from as int, k as int));
    }
    r
}

/// `s` without leading and trailing white space.
pub fn trim_chars(s: &Vec<char>) -> (r: Vec<char>)
    ensures
        r@ == trimmed(s@),
{
    let (a, b) = trim_bounds(s);
    sub_chars(s, a, b)
}

/// Start and end of `s` without its leading and trailing white space.
pub fn trim_bounds(s: &Vec<char>) -> (r: (usize, usize))
    ensures
        r.0 <= r.1 <= s.len(),
        s@.subrange(r.0 as int, r.1 as int) == trimmed(s@),
{
    let n = s.len();
    let mut a: usize = 0;
    while a < n && space_char(s[a])
        invariant
            a <= n == s.len(),
            skip_space(s@, 0) == skip_space(s@, a as int),
        decreases n - a,
    {
        a += 1;
    }
    let mut b: usize = n;
    while b > a && space_char(s[b - 1])
        invariant
            a <= b <= n == s.len(),
            skip_space(s@, 0) == a,
            drop_space_back(s@, a as int, n as int) == drop_space_back(s@, a as int, b as int),
        decreases b,
    {
        b -= 1;
    }
    (a, b)
}

pub open spec fn all_digits(s: Seq<char>) -> bool {
    forall|i: int| 0 <= i < s.len() ==> is_digit(#[trigger] s[i])
}

/// The number written by the decimal digits of `s`.
pub open spec fn decimal_value(s: Seq<char>) -> int
    decreases s.len(),
{
    if s.len() == 0 {
        0
    } else {
        decimal_value(s.drop_last()) * 10 + digit_value(s.last())
    }
}

/// Digits of an unsigned decimal number: an optional `+`, then the digits.
pub open spec fn unsigned_body(s: Seq<char>) -> Seq<char> {
    if s.len() > 0 && s[0] == '+' {
        s.drop_first()
    } else {
        s
    }
}

/// The `u32` that `s` writes in decimal, if any: an optional `+` and at least
/// one ASCII digit, with a value that fits.
pub open spec fn parse_u32_spec(s: Seq<char>) -> Option<u32> {
    let b = unsigned_body(s);
    if b.len() > 0 && all_digits(b) && decimal_value(b) <= u32::MAX {
        Some(decimal_value(b) as u32)
    } else {
        None
    }
}

proof fn lemma_decimal_grows(s: Seq<char>, k: int)
    requires
        0 <= k <= s.len(),
        all_digits(s),
    ensures
        decimal_value(s.subrange(0, k)) <= decimal_value(s),
        decimal_value(s) >= 0,
    decreases s.len(),
{
    if s.len() > 0 {
        let d = s.drop_last();
        assert(all_digits(d)) by {
            assert forall|i: int| 0 <= i < d.len() implies is_digit(#[trigger] d[i]) by {
                assert(d[i] == s[i]);
            }
        }
        if k == s.len() {
            assert(s.subrange(0, k) =~= s);
            lemma_decimal_grows(d, 0);
        } else {
            assert(s.subrange(0, k) =~= d.subrange(0, k));
            lemma_decimal_grows(d, k);
        }
        assert(is_digit(s[s.len() - 1]));
    } else {
        assert(s.subrange(0, k) =~= s);
    }
}

/// Reads `s` as an unsigned decimal `u32`, as `str::parse::<u32>` does.
pub fn parse_u32_chars(s: &Vec<char>) -> (r: Option<u32>)
    ensures
        r == parse_u32_spec(s@),
{
    let start: usize = if s.len() > 0 && s[0] == '+' {
        1
    } else {
        0
    };
    let ghost b = unsigned_body(s@);
    assert(b =~= s@.subrange(start as int, s.len() as int));
    if start >= s.len() {
        return None;
    }
    let mut v: u64 = 0;
    let mut k: usize = start;
    while k < s.len()
        invariant
            start <= k <= s.len(),
            b == s@.subrange(start as int, s.len() as int),
            b == unsigned_body(s@),
            all_digits(s@.subrange(start as int, k as int)),
            v == decimal_value(s@.subrange(start as int, k as int)),
            v <= u32::MAX,
        decreases s.len() - k,
    {
        let c = s[k];
        if !('0' <= c && c <= '9') {
            assert(b[k - start] == c);
            assert(!is_digit(b[k - start]));
            assert(!all_digits(b));
            return None;
        }
        let d = (c as u32 - '0' as u32) as u64;
        let nv = v * 10 + d;
        proof {
            let p = s@.subrange(start as int, k + 1);
            assert(p.drop_last() =~= s@.subrange(start as int, k as int));
            assert(p.last() == c);
            assert(decimal_value(p) == v * 10 + digit_value(c));
            assert(digit_value(c) == d);
            assert(decimal_value(p) == nv);
        }
        if nv > u32::MAX as u64 {
            proof {
                let p = s@.subrange(start as int, k + 1);
                assert forall|i: int| 0 <= i < p.len() implies is_digit(#[trigger] p[i]) by {
                    if i < p.len() - 1 {
                        assert(p[i] == s@.subrange(start as int, k as int)[i]);
                    }
                }
                if all_digits(b) {
                    assert(b.subrange(0, k + 1 - start) =~= p);
                    lemma_decimal_grows(b, k + 1 - start);
                    assert(decimal_value(p) == nv);
                    assert(decimal_value(b) > u32::MAX);
                }
            }
            return None;
        }
        v = nv;
        k += 1;
        proof {
            let p = s@.subrange(start as int, k as int);
            assert forall|i: int| 0 <= i < p.len() implies is_digit(#[trigger] p[i]) by {
                if i < p.len() - 1 {
                    assert(p[i] == s@.subrange(start as int, k - 1)[i]);
                }
            }
        }
    }
    Some(v as u32)
}


} // verus!

verus! {

/// First position at or after `p` that holds `c`, or the length of `s`.
pub open spec fn next_index_of(s: Seq<char>, c: char, p: int) -> int
    decreases s.len() - p,
{
    if p < 0 || p >= s.len() {
        s.len() as int
    } else if s[p] == c {
        p
    } else {
        next_index_of(s, c, p + 1)
    }
}

/// First position at or after `from` that holds `c`, or the length of `s`.
pub fn find_char(s: &Vec<char>, c: char, from: usize) -> (r: usize)
    requires
        from <= s.len(),
    ensures
        r == next_index_of(s@, c, from as int),
        from <= r <= s.len(),
        r < s.len() ==> s@[r as int] == c,
{
    let mut i = from;
    while i < s.len() && s[i] != c
        invariant
            from <= i <= s.len(),
            next_index_of(s@, c, from as int) == next_index_of(s@, c, i as int),
        decreases s.len() - i,
    {
        i += 1;
    }
    i
}

} // verus!

verus! {

pub proof fn lemma_lines_from_len(s: Seq<char>, p: int)
    requires
        0 <= p,
    ensures
        lines_from(s, p).len() <= if p <= s.len() {
            s.len() - p
        } else {
            0
        },
    decreases s.len() + 1 - p,
{
    if p < s.len() {
        lemma_next_newline_bounds(s, p);
        lemma_lines_from_len(s, next_newline(s, p) + 1);
    }
}

pub proof fn lemma_lines_len(s: Seq<char>)
    ensures
        lines_of(s).len() <= s.len(),
{
    lemma_lines_from_len(s, 0);
}

} // verus!

verus! {

/// Lexicographic order of character sequences, the order of `String`.
pub open spec fn seq_less(a: Seq<char>, b: Seq<char>) -> bool
    decreases a.len(),
{
    if a.len() == 0 {
        b.len() > 0
    } else if b.len() == 0 {
        false
    } else if a[0] != b[0] {
        a[0] < b[0]
    } else {
        seq_less(a.drop_first(), b.drop_first())
    }
}

pub proof fn lemma_less_irreflexive(a: Seq<char>)
    ensures
        !seq_less(a, a),
    decreases a.len(),
{
    if a.len() > 0 {
        lemma_less_irreflexive(a.drop_first());
    }
}

pub proof fn lemma_less_total(a: Seq<char>, b: Seq<char>)
    ensures
        a == b || seq_less(a, b) || seq_less(b, a),
        !(seq_less(a, b) && seq_less(b, a)),
    decreases a.len(),
{
    if a.len() > 0 && b.len() > 0 {
        if a[0] == b[0] {
            lemma_less_total(a.drop_first(), b.drop_first());
            if a.drop_first() == b.drop_first() {
                assert(a =~= seq![a[0]] + a.drop_first());
                assert(b =~= seq![b[0]] + b.drop_first());
            }
        }
    } else if a.len() == 0 && b.len() == 0 {
        assert(a =~= b);
    }
}

pub proof fn lemma_less_transitive(a: Seq<char>, b: Seq<char>, c: Seq<char>)
    requires
        seq_less(a, b),
        seq_less(b, c),
    ensures
        seq_less(a, c),
    decreases a.len(),
{
    if a.len() > 0 && b.len() > 0 && c.len() > 0 {
        if a[0] == b[0] && b[0] == c[0] {
            lemma_less_transitive(a.drop_first(), b.drop_first(), c.drop_first());
        }
    }
}

/// Whether `a` comes before `b` in the order of `String`.
pub fn chars_less(a: &Vec<char>, b: &Vec<char>) -> (r: bool)
    ensures
        r == seq_less(a@, b@),
{
    let mut i: usize = 0;
    assert(a@.subrange(0, a.len() as int) =~= a@);
    assert(b@.subrange(0, b.len() as int) =~= b@);
    while i < a.len() && i < b.len() && a[i] == b[i]
        invariant
            i <= a.len(),
            i <= b.len(),
            seq_less(a@, b@) == seq_less(a@.subrange(i as int, a.len() as int), b@.subrange(
                i as int,
                b.len() as int,
            )),
        decreases a.len() - i,
    {
        proof {
            let sa = a@.subrange(i as int, a.len() as int);
            let sb = b@.subrange(i as int, b.len() as int);
            assert(sa.drop_first() =~= a@.subrange(i + 1, a.len() as int));
            assert(sb.drop_first() =~= b@.subrange(i + 1, b.len() as int));
        }
        i += 1;
    }
    let ghost sa = a@.subrange(i as int, a.len() as int);
    let ghost sb = b@.subrange(i as int, b.len() as int);
    if i == a.len() {
        i < b.len()
    } else if i == b.len() {
        false
    } else {
        assert(sa[0] == a@[i as int] && sb[0] == b@[i as int]);
        a[i] < b[i]
    }
}

/// Whether `a` comes before `b` in the order of `String`.
pub fn str_less(a: &str, b: &str) -> (r: bool)
    ensures
        r == seq_less(a@, b@),
{
    let ac = chars_of(a);
    let bc = chars_of(b);
    chars_less(&ac, &bc)
}

/// Whether `a` and `b` hold the same characters.
pub fn str_eq(a: &str, b: &str) -> (r: bool)
    ensures
        r == (a@ == b@),
{
    let ac = chars_of(a);
    let bc = chars_of(b);
    if ac.len() != bc.len() {
        return false;
    }
    let mut i: usize = 0;
    while i < ac.len()
        invariant
            ac@ == a@,
            bc@ == b@,
            ac.len() == bc.len(),
            i <= ac.len(),
            forall|k: int| 0 <= k < i ==> ac@[k] == bc@[k],
        decreases ac.len() - i,
    {
        if ac[i] != bc[i] {
            assert(ac@[i as int] != bc@[i as int]);
            return false;
        }
        i += 1;
    }
    assert(ac@ =~= bc@);
    true
}

/// A copy of `s`.
pub fn copy_string(s: &String) -> (r: String)
    ensures
        r@ == s@,
{
    String::from_str(s.as_str())
}

} // verus!

verus! {

/// `a` followed by `b`.
pub fn concat_str(a: &str, b: &str) -> (r: String)
    ensures
        r@ == a@ + b@,
{
    let mut s = String::from_str(a);
    s.append(b);
    s
}

/// The views of a sequence of strings.
pub open spec fn views(v: Seq<String>) -> Seq<Seq<char>> {
    v.map_values(|s: String| s@)
}

pub proof fn lemma_views_push(v: Seq<String>, s: String)
    ensures
        views(v.push(s)) == views(v).push(s@),
{
    assert(views(v.push(s)) =~= views(v).push(s@));
}

/// Appends copies of all of `src` to `dst`.
pub fn extend_strings(dst: &mut Vec<String>, src: &Vec<String>)
    ensures
        views(final(dst)@) == views(old(dst)@) + views(src@),
{
    let mut i: usize = 0;
    while i < src.len()
        invariant
            i <= src.len(),
            views(dst@) == views(old(dst)@) + views(src@.subrange(0, i as int)),
        decreases src.len() - i,
    {
        let ghost before = dst@;
        dst.push(copy_string(&src[i]));
        proof {
            lemma_views_push(before, dst@.last());
            assert(views(src@.subrange(0, i + 1)) =~= views(src@.subrange(0, i as int)).push(src@[i as int]@));
        }
        i += 1;
    }
    assert(src@.subrange(0, i as int) =~= src@);
}

} // verus!

verus! {

pub open spec fn digit_char(d: nat) -> char {
    ((d + 48) as u8) as char
}

/// Decimal text of a number, without leading zeros.
pub open spec fn decimal_text(n: nat) -> Seq<char>
    decreases n,
{
    if n < 10 {
        seq![digit_char(n)]
    } else {
        decimal_text(n / 10) + seq![digit_char(n % 10)]
    }
}

fn digit_str(d: u64) -> (r: &'static str)
    requires
        d < 10,
    ensures
        r@ == seq![digit_char(d as nat)],
{
    proof {
        reveal_strlit("0");
        reveal_strlit("1");
        reveal_strlit("2");
        reveal_strlit("3");
        reveal_strlit("4");
        reveal_strlit("5");
        reveal_strlit("6");
        reveal_strlit("7");
        reveal_strlit("8");
        reveal_strlit("9");
    }
    let r = match d {
        0 => "0",
        1 => "1",
        2 => "2",
        3 => "3",
        4 => "4",
        5 => "5",
        6 => "6",
        7 => "7",
        8 => "8",
        _ => "9",
    };
    assert(r@ =~= seq![digit_char(d as nat)]);
    r
}

/// Decimal text of `n`.
pub fn number_text(n: u64) -> (r: String)
    ensures
        r@ == decimal_text(n as nat),
    decreases n,
{
    if n < 10 {
        String::from_str(digit_str(n))
    } else {
        let mut s = number_text(n / 10);
        s.append(digit_str(n % 10));
        s
    }
}

/// The strings of `v` with `sep` between each two.
pub open spec fn joined(v: Seq<Seq<char>>, sep: Seq<char>) -> Seq<char>
    decreases v.len(),
{
    if v.len() == 0 {
        Seq::empty()
    } else if v.len() == 1 {
        v[0]
    } else {
        joined(v.drop_last(), sep) + sep + v.last()
    }
}

/// The strings of `v` with `sep` between each two.
pub fn join_strings(v: &Vec<String>, sep: &str) -> (r: String)
    ensures
        r@ == joined(views(v@), sep@),
{
    let mut s = String::new();
    let mut i: usize = 0;
    while i < v.len()
        invariant
            i <= v.len(),
            s@ == joined(views(v@.subrange(0, i as int)), sep@),
        decreases v.len() - i,
    {
        proof {
            assert(views(v@.subrange(0, i + 1)).drop_last() =~= views(v@.subrange(0, i as int)));
            assert(views(v@.subrange(0, i + 1)).last() == v@[i as int]@);
        }
        if i > 0 {
            s.append(sep);
        } else {
            assert(views(v@.subrange(0, 1))[0] == v@[0]@);
        }
        s.append(v[i].as_str());
        i += 1;
    }
    assert(v@.subrange(0, i as int) =~= v@);
    s
}

} // verus!

verus! {

/// End of the run of characters other than white space that starts at `p`.
pub open spec fn nonspace_end(s: Seq<char>, p: int) -> int
    decreases s.len() - p,
{
    if p < 0 || p >= s.len() {
        p
    } else if !is_space(s[p]) {
        nonspace_end(s, p + 1)
    } else {
        p
    }
}

proof fn lemma_nonspace_end(s: Seq<char>, p: int)
    requires
        0 <= p <= s.len(),
    ensures
        p <= nonspace_end(s, p) <= s.len(),
        p < s.len() && !is_space(s[p]) ==> nonspace_end(s, p) > p,
    decreases s.len() - p,
{
    if p < s.len() && !is_space(s[p]) {
        lemma_nonspace_end(s, p + 1);
    }
}

proof fn lemma_skip_space(s: Seq<char>, p: int)
    requires
        0 <= p <= s.len(),
    ensures
        p <= skip_space(s, p) <= s.len(),
        skip_space(s, p) < s.len() ==> !is_space(s[skip_space(s, p)]),
    decreases s.len() - p,
{
    if p < s.len() && is_space(s[p]) {
        lemma_skip_space(s, p + 1);
    }
}

/// Start and end of each word of `s` from `p` on: the runs of characters
/// between white space, as `str::split_whitespace` gives them.
pub open spec fn words_from(s: Seq<char>, p: int) -> Seq<(int, int)>
    decreases s.len() + 1 - p
    via words_from_decreases
{
    if p < 0 || p > s.len() {
        Seq::empty()
    } else {
        let a = skip_space(s, p);
        if a >= s.len() {
            Seq::empty()
        } else {
            seq![(a, nonspace_end(s, a))] + words_from(s, nonspace_end(s, a))
        }
    }
}

#[via_fn]
proof fn words_from_decreases(s: Seq<char>, p: int) {
    if 0 <= p <= s.len() {
        lemma_skip_space(s, p);
        let a = skip_space(s, p);
        if a < s.len() {
            lemma_nonspace_end(s, a);
        }
    }
}

/// The words of `s`.
pub open spec fn words(s: Seq<char>) -> Seq<Seq<char>> {
    words_from(s, 0).map_values(|w: (int, int)| s.subrange(w.0, w.1))
}

/// The views of a sequence of character vectors.
pub open spec fn char_views(v: Seq<Vec<char>>) -> Seq<Seq<char>> {
    v.map_values(|w: Vec<char>| w@)
}

/// Start and end of each word of `s`.
pub fn word_spans(s: &Vec<char>) -> (r: Vec<(usize, usize)>)
    ensures
        r@.len() == words_from(s@, 0).len(),
        forall|k: int| 0 <= k < r@.len() ==> (#[trigger] r@[k]).0 as int == words_from(s@, 0)[k].0
            && r@[k].1 as int == words_from(s@, 0)[k].1 && r@[k].0 <= r@[k].1 <= s.len(),
{
    let mut out: Vec<(usize, usize)> = Vec::new();
    let mut p: usize = 0;
    let ghost all = words_from(s@, 0);
    while p < s.len()
        invariant
            p <= s.len(),
            all == words_from(s@, 0),
            out@.len() + words_from(s@, p as int).len() == all.len(),
            forall|k: int| 0 <= k < out@.len() ==> (#[trigger] out@[k]).0 as int == all[k].0 && out@[k].1 as int == all[k].1 && out@[k].0 <= out@[k].1 <= s.len(),
            forall|k: int| 0 <= k < words_from(s@, p as int).len() ==> #[trigger] words_from(s@, p as int)[k] == all[out@.len() + k],
        decreases s.len() - p,
    {
        let mut a = p;
        while a < s.len() && space_char(s[a])
            invariant
                p <= a <= s.len(),
                skip_space(s@, p as int) == skip_space(s@, a as int),
            decreases s.len() - a,
        {
            a += 1;
        }
        if a >= s.len() {
            proof {
                assert(words_from(s@, p as int).len() == 0);
            }
            p = s.len();
            proof {
                assert(words_from(s@, p as int) == Seq::<(int, int)>::empty()) by {
                    lemma_skip_space(s@, p as int);
                }
            }
        } else {
            let mut e = a;
            while e < s.len() && !space_char(s[e])
                invariant
                    a <= e <= s.len(),
                    nonspace_end(s@, a as int) == nonspace_end(s@, e as int),
                decreases s.len() - e,
            {
                e += 1;
            }
            proof {
                lemma_nonspace_end(s@, a as int);
                let rest = words_from(s@, p as int);
                assert(rest[0] == (a as int, e as int));
                assert forall|k: int| 0 <= k < words_from(s@, e as int).len() implies #[trigger] words_from(s@, e as int)[k] == all[out@.len() + 1 + k] by {
                    assert(rest[k + 1] == words_from(s@, e as int)[k]);
                }
            }
            let ghost before = out@;
            out.push((a, e));
            proof {
                assert forall|k: int| 0 <= k < out@.len() implies (#[trigger] out@[k]).0 as int == all[k].0 && out@[k].1 as int == all[k].1 && out@[k].0 <= out@[k].1 <= s.len() by {
                    if k < before.len() {
                        assert(out@[k] == before[k]);
                    }
                }
            }
            p = e;
        }
    }
    proof {
        assert(words_from(s@, p as int).len() == 0) by {
            lemma_skip_space(s@, p as int);
        }
    }
    out
}

/// The words of `s`, each as its characters.
pub fn split_words(s: &Vec<char>) -> (r: Vec<Vec<char>>)
    ensures
        char_views(r@) == words(s@),
{
    let spans = word_spans(s);
    let mut out: Vec<Vec<char>> = Vec::new();
    let mut k: usize = 0;
    while k < spans.len()
        invariant
            k <= spans.len(),
            spans@.len() == words_from(s@, 0).len(),
            forall|j: int| 0 <= j < spans@.len() ==> (#[trigger] spans@[j]).0 as int == words_from(s@, 0)[j].0
                && spans@[j].1 as int == words_from(s@, 0)[j].1 && spans@[j].0 <= spans@[j].1 <= s.len(),
            char_views(out@) == words(s@).subrange(0, k as int),
        decreases spans.len() - k,
    {
        let (a, b) = spans[k];
        let w = sub_chars(s, a, b);
        let ghost before = out@;
        out.push(w);
        proof {
            assert(char_views(before).len() == k);
            assert(words(s@)[k as int] == s@.subrange(a as int, b as int));
            assert forall|j: int| 0 <= j < k + 1 implies char_views(out@)[j] == words(s@).subrange(0, k + 1)[j] by {
                if j < k {
                    assert(out@[j] == before[j]);
                    assert(char_views(before)[j] == words(s@).subrange(0, k as int)[j]);
                }
            }
            assert(char_views(out@) =~= words(s@).subrange(0, k + 1));
        }
        k += 1;
    }
    assert(words(s@).subrange(0, k as int) =~= words(s@));
    out
}

} // verus!
