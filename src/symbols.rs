//! Symbols of C and C++ sources and the index that completes names.
use vstd::prelude::*;

use crate::text::{chars_of, lemma_less_total, lemma_less_transitive, seq_less, str_less, starts_with_chars, starts_with_seq, str_eq};
use crate::types::Location;
use crate::ast::AstNode;
use vstd::multiset::Multiset;

verus! {

/// What a symbol names.
#[derive(Debug, Clone, Copy, PartialEq, Eq, Hash, Structural)]
pub enum SymbolKind {
    Function,
    Variable,
    Type,
    Macro,
    Constant,
    Field,
    EnumVariant,
    Parameter,
}

/// Where a kind comes in completion lists: types first, parameters last.
pub open spec fn kind_rank(k: SymbolKind) -> u8 {
    match k {
        SymbolKind::Type => 0,
        SymbolKind::Function => 1,
        SymbolKind::Macro => 2,
        SymbolKind::Constant => 3,
        SymbolKind::EnumVariant => 4,
        SymbolKind::Variable => 5,
        SymbolKind::Field => 6,
        SymbolKind::Parameter => 7,
    }
}

impl SymbolKind {
    pub fn sort_order(&self) -> (r: u8)
        ensures
            r == kind_rank(*self),
    {
        match self {
            SymbolKind::Type => 0,
            SymbolKind::Function => 1,
            SymbolKind::Macro => 2,
            SymbolKind::Constant => 3,
            SymbolKind::EnumVariant => 4,
            SymbolKind::Variable => 5,
            SymbolKind::Field => 6,
            SymbolKind::Parameter => 7,
        }
    }

    /// The display name of the kind.
    pub fn name(&self) -> (r: &'static str)
        ensures
            r@ == match *self {
                SymbolKind::Function => "function"@,
                SymbolKind::Variable => "variable"@,
                SymbolKind::Type => "type"@,
                SymbolKind::Macro => "macro"@,
                SymbolKind::Constant => "constant"@,
                SymbolKind::Field => "field"@,
                SymbolKind::EnumVariant => "enum"@,
                SymbolKind::Parameter => "parameter"@,
            },
    {
        match self {
            SymbolKind::Function => "function",
            SymbolKind::Variable => "variable",
            SymbolKind::Type => "type",
            SymbolKind::Macro => "macro",
            SymbolKind::Constant => "constant",
            SymbolKind::Field => "field",
            SymbolKind::EnumVariant => "enum",
            SymbolKind::Parameter => "parameter",
        }
    }
}

/// A named entity of a source file.
#[derive(Debug, Clone, PartialEq, Eq)]
pub struct Symbol {
    pub name: String,
    pub kind: SymbolKind,
    pub location: Location,
    pub scope: Vec<String>,
    pub signature: Option<String>,
}

impl Symbol {
    pub fn new(name: String, kind: SymbolKind, location: Location) -> (r: Self)
        ensures
            r.name == name,
            r.kind == kind,
            r.location == location,
            r.scope@.len() == 0,
            r.signature is None,
    {
        Symbol { name, kind, location, scope: Vec::new(), signature: None }
    }

    pub fn with_scope(self, scope: Vec<String>) -> (r: Self)
        ensures
            r.scope == scope,
            r.name == self.name,
            r.kind == self.kind,
            r.location == self.location,
            r.signature == self.signature,
    {
        Symbol { scope, ..self }
    }

    pub fn with_signature(self, signature: &str) -> (r: Self)
        ensures
            r.signature matches Some(s) && s@ == signature@,
            r.name == self.name,
            r.kind == self.kind,
            r.location == self.location,
            r.scope == self.scope,
    {
        Symbol { signature: Some(String::from_str(signature)), ..self }
    }
}

/// `a` comes strictly before `b`: by kind rank, then by name.
pub open spec fn symbol_before(a: Symbol, b: Symbol) -> bool {
    kind_rank(a.kind) < kind_rank(b.kind) || (kind_rank(a.kind) == kind_rank(b.kind) && seq_less(
        a.name@,
        b.name@,
    ))
}

/// Each symbol comes no later than those after it.
pub open spec fn symbols_sorted(v: Seq<Symbol>) -> bool {
    forall|i: int, j: int| 0 <= i < j < v.len() ==> !symbol_before(#[trigger] v[j], #[trigger] v[i])
}

proof fn lemma_not_before_transitive(a: Symbol, b: Symbol, c: Symbol)
    requires
        !symbol_before(b, a),
        !symbol_before(c, b),
    ensures
        !symbol_before(c, a),
{
    if kind_rank(a.kind) == kind_rank(b.kind) && kind_rank(b.kind) == kind_rank(c.kind) {
        lemma_less_total(a.name@, b.name@);
        lemma_less_total(b.name@, c.name@);
        lemma_less_total(a.name@, c.name@);
        if seq_less(c.name@, a.name@) {
            if a.name@ == b.name@ {
            } else if b.name@ == c.name@ {
            } else {
                lemma_less_transitive(a.name@, b.name@, c.name@);
            }
        }
    }
}

fn before_exec(a: &Symbol, b: &Symbol) -> (r: bool)
    ensures
        r == symbol_before(*a, *b),
{
    let ra = a.kind.sort_order();
    let rb = b.kind.sort_order();
    ra < rb || (ra == rb && str_less(a.name.as_str(), b.name.as_str()))
}

/// Sorts symbols by kind rank, then by name; equal symbols keep their order.
pub fn sort_symbols(v: &mut Vec<Symbol>)
    ensures
        final(v)@.to_multiset() == old(v)@.to_multiset(),
        symbols_sorted(final(v)@),
{
    broadcast use vstd::seq_lib::group_to_multiset_ensures, vstd::multiset::group_multiset_axioms, vstd::seq_lib::to_multiset_insert;
    let mut out: Vec<Symbol> = Vec::new();
    let ghost orig = v@;
    assert(out@.to_multiset() =~= Multiset::<Symbol>::empty());
    assert(out@.to_multiset().add(v@.to_multiset()) =~= orig.to_multiset());
    while v.len() > 0
        invariant
            symbols_sorted(out@),
            out@.to_multiset().add(v@.to_multiset()) == orig.to_multiset(),
        decreases v.len(),
    {
        let ghost before_v = v@;
        let x = v.remove(0);
        assert(before_v.remove(0) == v@);
        let mut p: usize = 0;
        while p < out.len() && !before_exec(&x, &out[p])
            invariant
                p <= out.len(),
                forall|i: int| 0 <= i < p ==> !symbol_before(x, #[trigger] out@[i]),
            decreases out.len() - p,
        {
            p += 1;
        }
        let ghost old_out = out@;
        proof {
            assert forall|j: int| p <= j < old_out.len() implies !symbol_before(#[trigger] old_out[j], x) by {
                assert(symbol_before(x, old_out[p as int]));
                lemma_less_total(x.name@, old_out[p as int].name@);
                if j > p {
                    assert(!symbol_before(old_out[j], old_out[p as int]));
                    lemma_not_before_transitive(x, old_out[p as int], old_out[j]);
                }
            }
        }
        out.insert(p, x);
        proof {
            assert forall|i: int, j: int| 0 <= i < j < out@.len() implies !symbol_before(#[trigger] out@[j], #[trigger] out@[i]) by {
                if i < p && j < p {
                    assert(out@[i] == old_out[i] && out@[j] == old_out[j]);
                } else if i < p && j == p {
                } else if i < p {
                    assert(out@[i] == old_out[i] && out@[j] == old_out[j - 1]);
                } else if i == p {
                    assert(out@[j] == old_out[j - 1]);
                } else {
                    assert(out@[i] == old_out[i - 1] && out@[j] == old_out[j - 1]);
                }
            }
            assert(out@ == old_out.insert(p as int, x));
            vstd::seq_lib::to_multiset_remove(before_v, 0);
            assert(before_v[0] == x);
            assert(before_v.contains(x));
            vstd::seq_lib::to_multiset_contains(before_v, x);
            assert(before_v.to_multiset().count(x) > 0);
            assert(before_v.to_multiset() =~= v@.to_multiset().insert(x));
            vstd::seq_lib::to_multiset_insert(old_out, p as int, x);
            assert(out@.to_multiset() == old_out.to_multiset().insert(x));
            assert(old_out.to_multiset().add(before_v.to_multiset()) == orig.to_multiset());
            assert forall|y: Symbol| #[trigger] out@.to_multiset().add(v@.to_multiset()).count(y) == orig.to_multiset().count(y) by {
                assert(orig.to_multiset().count(y) == old_out.to_multiset().count(y) + before_v.to_multiset().count(y));
            }
            assert(out@.to_multiset().add(v@.to_multiset()) =~= orig.to_multiset());
        }
    }
    proof {
        assert(v@.to_multiset().len() == 0);
        assert(v@.to_multiset() =~= Multiset::<Symbol>::empty());
        assert(out@.to_multiset() =~= orig.to_multiset());
    }
    *v = out;
}

} // verus!

verus! {

/// The text with every character in lower case, as `str::to_lowercase` gives it.
pub uninterp spec fn lower_of(s: Seq<char>) -> Seq<char>;

/// Relies on `str::to_lowercase`: the lower-case text depends on the
/// characters alone.
#[verifier::external_body]
pub(crate) fn lowercase(s: &str) -> (r: String)
    ensures
        r@ == lower_of(s@),
{
    s.to_lowercase()
}

/// The symbols of one indexed file, in sorted order.
#[derive(Debug)]
pub struct FileSymbols {
    pub path: String,
    pub symbols: Vec<Symbol>,
}

/// Symbols of indexed files, for name completion.
#[derive(Debug)]
pub struct SymbolIndex {
    pub files: Vec<FileSymbols>,
}

/// Every symbol of the index, file by file.
pub open spec fn all_symbols(files: Seq<FileSymbols>) -> Seq<Symbol>
    decreases files.len(),
{
    if files.len() == 0 {
        Seq::empty()
    } else {
        all_symbols(files.drop_last()) + files.last().symbols@
    }
}

/// The name of `s`, in lower case, starts with `prefix` in lower case.
pub open spec fn completes(s: Symbol, prefix: Seq<char>) -> bool {
    starts_with_seq(lower_of(s.name@), lower_of(prefix))
}

/// The symbols of `v` that complete `prefix`, in order.
pub open spec fn completions_of(v: Seq<Symbol>, prefix: Seq<char>) -> Seq<Symbol>
    decreases v.len(),
{
    if v.len() == 0 {
        Seq::empty()
    } else {
        completions_of(v.drop_last(), prefix) + if completes(v.last(), prefix) {
            seq![v.last()]
        } else {
            Seq::empty()
        }
    }
}

pub open spec fn deref_all(v: Seq<&Symbol>) -> Seq<Symbol> {
    v.map_values(|s: &Symbol| *s)
}

impl SymbolIndex {
    pub fn new() -> (r: Self)
        ensures
            r.files@.len() == 0,
    {
        SymbolIndex { files: Vec::new() }
    }

    fn position_of(&self, path: &str) -> (r: Option<usize>)
        ensures
            match r {
                Some(i) => i < self.files.len() && self.files@[i as int].path@ == path@,
                None => forall|i: int| 0 <= i < self.files.len() ==> (#[trigger] self.files@[i]).path@ != path@,
            },
    {
        let mut i: usize = 0;
        while i < self.files.len()
            invariant
                i <= self.files.len(),
                forall|j: int| 0 <= j < i ==> (#[trigger] self.files@[j]).path@ != path@,
            decreases self.files.len() - i,
        {
            if str_eq(self.files[i].path.as_str(), path) {
                return Some(i);
            }
            i += 1;
        }
        None
    }

    /// Records `symbols` as those of the file at `path`, sorted, replacing
    /// those it had.
    fn store_file(&mut self, path: String, symbols: Vec<Symbol>)
        ensures
            exists|i: int| 0 <= i < final(self).files.len() && (#[trigger] final(self).files@[i]).path@ == path@
                && symbols_sorted(final(self).files@[i].symbols@)
                && final(self).files@[i].symbols@.to_multiset() == symbols@.to_multiset(),
            forall|i: int| 0 <= i < old(self).files.len() && (#[trigger] old(self).files@[i]).path@ != path@
                ==> final(self).files@.contains(old(self).files@[i]),
    {
        let mut sorted = symbols;
        sort_symbols(&mut sorted);
        let entry = FileSymbols { path, symbols: sorted };
        match self.position_of(entry.path.as_str()) {
            Some(i) => {
                let ghost before = self.files@;
                self.files.remove(i);
                self.files.insert(i, entry);
                assert(self.files@[i as int] == entry);
                assert forall|j: int| 0 <= j < before.len() && (#[trigger] before[j]).path@ != entry.path@ implies self.files@.contains(before[j]) by {
                    assert(self.files@[j] == before[j]);
                }
            },
            None => {
                let ghost before = self.files@;
                self.files.push(entry);
                assert(self.files@[before.len() as int] == entry);
                assert forall|j: int| 0 <= j < before.len() && (#[trigger] before[j]).path@ != entry.path@ implies self.files@.contains(before[j]) by {
                    assert(self.files@[j] == before[j]);
                }
            },
        }
    }

    /// Drops the symbols of the file at `path`.
    pub fn remove_file(&mut self, path: &str)
        ensures
            (forall|i: int| 0 <= i < old(self).files.len() ==> (#[trigger] old(self).files@[i]).path@ != path@)
                ==> final(self).files@ == old(self).files@,
            (exists|i: int| 0 <= i < old(self).files.len() && (#[trigger] old(self).files@[i]).path@ == path@)
                ==> exists|i: int| 0 <= i < old(self).files.len() && (#[trigger] old(self).files@[i]).path@ == path@
                && final(self).files@ == old(self).files@.remove(i),
    {
        match self.position_of(path) {
            Some(i) => {
                self.files.remove(i);
            },
            None => {},
        }
    }

    /// The symbols of the file at `path`, if it is indexed.
    pub fn symbols_in_file(&self, path: &str) -> (r: Option<&Vec<Symbol>>)
        ensures
            match r {
                Some(v) => exists|i: int| 0 <= i < self.files.len() && (#[trigger] self.files@[i]).path@ == path@
                    && self.files@[i].symbols == *v,
                None => forall|i: int| 0 <= i < self.files.len() ==> (#[trigger] self.files@[i]).path@ != path@,
            },
    {
        match self.position_of(path) {
            Some(i) => Some(&self.files[i].symbols),
            None => None,
        }
    }

    /// Number of indexed symbols.
    pub fn len(&self) -> (r: usize)
        requires
            all_symbols(self.files@).len() <= usize::MAX,
        ensures
            r == all_symbols(self.files@).len(),
    {
        let mut n: usize = 0;
        let mut i: usize = 0;
        while i < self.files.len()
            invariant
                i <= self.files.len(),
                all_symbols(self.files@).len() <= usize::MAX,
                n == all_symbols(self.files@.subrange(0, i as int)).len(),
            decreases self.files.len() - i,
        {
            proof {
                assert(self.files@.subrange(0, i + 1).drop_last() =~= self.files@.subrange(0, i as int));
                lemma_all_symbols_prefix(self.files@, i + 1);
            }
            n = n + self.files[i].symbols.len();
            i += 1;
        }
        assert(self.files@.subrange(0, i as int) =~= self.files@);
        n
    }

    /// Whether no file is indexed.
    pub fn is_empty(&self) -> (r: bool)
        ensures
            r == (self.files@.len() == 0),
    {
        self.files.len() == 0
    }

    /// The symbols whose name starts with `prefix`, letter case aside, in
    /// order of kind rank and then name.
    pub fn complete(&self, prefix: &str) -> (r: Vec<&Symbol>)
        ensures
            deref_all(r@).to_multiset() == completions_of(all_symbols(self.files@), prefix@).to_multiset(),
            symbols_sorted(deref_all(r@)),
    {
        broadcast use vstd::seq_lib::group_to_multiset_ensures, vstd::multiset::group_multiset_axioms;
        let want = chars_of(lowercase(prefix).as_str());
        let mut out: Vec<&Symbol> = Vec::new();
        assert(deref_all(out@).to_multiset() =~= Multiset::<Symbol>::empty());
        assert(completions_of(all_symbols(self.files@.subrange(0, 0)), prefix@) =~= Seq::<Symbol>::empty());
        let mut f: usize = 0;
        while f < self.files.len()
            invariant
                f <= self.files.len(),
                want@ == lower_of(prefix@),
                symbols_sorted(deref_all(out@)),
                deref_all(out@).to_multiset() == completions_of(all_symbols(self.files@.subrange(0, f as int)), prefix@).to_multiset(),
            decreases self.files.len() - f,
        {
            let syms = &self.files[f].symbols;
            let ghost base = all_symbols(self.files@.subrange(0, f as int));
            proof {
                assert(self.files@.subrange(0, f + 1).drop_last() =~= self.files@.subrange(0, f as int));
                assert(all_symbols(self.files@.subrange(0, f + 1)) == base + syms@);
            }
            let mut k: usize = 0;
            assert(base + syms@.subrange(0, 0) =~= base);
            while k < syms.len()
                invariant
                    k <= syms.len(),
                    want@ == lower_of(prefix@),
                    symbols_sorted(deref_all(out@)),
                    deref_all(out@).to_multiset() == completions_of(base + syms@.subrange(0, k as int), prefix@).to_multiset(),
                decreases syms.len() - k,
            {
                let s = &syms[k];
                let ghost seq_k = base + syms@.subrange(0, k as int);
                proof {
                    assert((base + syms@.subrange(0, k + 1)).drop_last() =~= seq_k);
                    assert((base + syms@.subrange(0, k + 1)).last() == *s);
                }
                let name = chars_of(lowercase(s.name.as_str()).as_str());
                if starts_with_chars(&name, &want) {
                    let mut p: usize = 0;
                    while p < out.len() && !before_exec(s, out[p])
                        invariant
                            p <= out.len(),
                            forall|i: int| 0 <= i < p ==> !symbol_before(*s, #[trigger] deref_all(out@)[i]),
                        decreases out.len() - p,
                    {
                        p += 1;
                    }
                    let ghost old_out = deref_all(out@);
                    proof {
                        assert forall|j: int| p <= j < old_out.len() implies !symbol_before(#[trigger] old_out[j], *s) by {
                            assert(symbol_before(*s, old_out[p as int]));
                            lemma_less_total(s.name@, old_out[p as int].name@);
                            if j > p {
                                assert(!symbol_before(old_out[j], old_out[p as int]));
                                lemma_not_before_transitive(*s, old_out[p as int], old_out[j]);
                            }
                        }
                    }
                    out.insert(p, s);
                    proof {
                        let nw = deref_all(out@);
                        assert(nw =~= old_out.insert(p as int, *s));
                        assert forall|i: int, j: int| 0 <= i < j < nw.len() implies !symbol_before(#[trigger] nw[j], #[trigger] nw[i]) by {
                            if i < p && j < p {
                                assert(nw[i] == old_out[i] && nw[j] == old_out[j]);
                            } else if i < p && j == p {
                            } else if i < p {
                                assert(nw[i] == old_out[i] && nw[j] == old_out[j - 1]);
                            } else if i == p {
                                assert(nw[j] == old_out[j - 1]);
                            } else {
                                assert(nw[i] == old_out[i - 1] && nw[j] == old_out[j - 1]);
                            }
                        }
                        vstd::seq_lib::to_multiset_insert(old_out, p as int, *s);
                        assert(completions_of(base + syms@.subrange(0, k + 1), prefix@) == completions_of(seq_k, prefix@).push(*s));
                        vstd::seq_lib::to_multiset_build(completions_of(seq_k, prefix@), *s);
                    }
                } else {
                    assert(completions_of(base + syms@.subrange(0, k + 1), prefix@) == completions_of(seq_k, prefix@));
                }
                k += 1;
            }
            assert(base + syms@.subrange(0, k as int) =~= all_symbols(self.files@.subrange(0, f + 1)));
            f += 1;
        }
        assert(self.files@.subrange(0, f as int) =~= self.files@);
        out
    }
}

proof fn lemma_all_symbols_prefix(files: Seq<FileSymbols>, k: int)
    requires
        0 <= k <= files.len(),
    ensures
        all_symbols(files.subrange(0, k)).len() <= all_symbols(files).len(),
    decreases files.len(),
{
    if k < files.len() {
        assert(files.drop_last().subrange(0, k) =~= files.subrange(0, k));
        lemma_all_symbols_prefix(files.drop_last(), k);
    } else {
        assert(files.subrange(0, k) =~= files);
    }
}

} // verus!

verus! {

/// What a symbol says, as character sequences.
pub struct SymbolView {
    pub name: Seq<char>,
    pub kind: SymbolKind,
    pub path: Seq<char>,
    pub range: crate::types::Range,
    pub scope: Seq<Seq<char>>,
}

pub open spec fn symbol_view(s: Symbol) -> SymbolView {
    SymbolView {
        name: s.name@,
        kind: s.kind,
        path: s.location.path@,
        range: s.location.range,
        scope: crate::text::views(s.scope@),
    }
}

pub open spec fn symbol_views(v: Seq<Symbol>) -> Seq<SymbolView> {
    v.map_values(|s: Symbol| symbol_view(s))
}

pub open spec fn text_of(n: AstNode) -> Option<Seq<char>> {
    match n.text {
        Some(t) => Some(t@),
        None => None,
    }
}

/// The text of the first identifier in the tree under `n`, in pre-order; an
/// identifier without text ends the search of its own subtree only.
pub open spec fn find_id(n: AstNode) -> Option<Seq<char>>
    decreases n, n.children.len() + 1,
{
    if n.kind@ == "identifier"@ {
        text_of(n)
    } else {
        find_id_from(n, 0)
    }
}

pub open spec fn find_id_from(n: AstNode, i: int) -> Option<Seq<char>>
    decreases n, n.children.len() - i,
{
    if i < 0 || i >= n.children.len() {
        None
    } else {
        match find_id(n.children[i]) {
            Some(x) => Some(x),
            None => find_id_from(n, i + 1),
        }
    }
}

/// The first direct child of `n` from the `i`-th on whose kind is one of
/// `a` and `b`.
pub open spec fn child_of_kind(n: AstNode, i: int, a: Seq<char>, b: Seq<char>) -> Option<AstNode>
    decreases n.children.len() - i,
{
    if i < 0 || i >= n.children.len() {
        None
    } else if n.children[i].kind@ == a || n.children[i].kind@ == b {
        Some(n.children[i])
    } else {
        child_of_kind(n, i + 1, a, b)
    }
}

/// The name a struct, class or enum specifier gives its type.
pub open spec fn declared_type_name(n: AstNode) -> Option<Seq<char>> {
    match child_of_kind(n, 0, "type_identifier"@, "identifier"@) {
        Some(c) => text_of(c),
        None => None,
    }
}

/// The name a macro definition gives its macro.
pub open spec fn macro_name(n: AstNode) -> Option<Seq<char>> {
    match child_of_kind(n, 0, "identifier"@, "identifier"@) {
        Some(c) => text_of(c),
        None => None,
    }
}

/// A declaration that holds a type definition declares a type.
pub open spec fn is_type_declaration(n: AstNode) -> bool {
    child_of_kind(n, 0, "type_definition"@, "type_definition"@) is Some
}

pub open spec fn sym(name: Seq<char>, kind: SymbolKind, path: Seq<char>, n: AstNode, scope: Seq<Seq<char>>) -> SymbolView {
    SymbolView { name, kind, path, range: n.range, scope }
}

pub open spec fn opt_sym(name: Option<Seq<char>>, kind: SymbolKind, path: Seq<char>, n: AstNode, scope: Seq<Seq<char>>) -> Seq<SymbolView> {
    match name {
        Some(x) => seq![sym(x, kind, path, n, scope)],
        None => Seq::empty(),
    }
}

/// The symbols a node declares itself, where it is no type specifier.
pub open spec fn own_symbols(n: AstNode, path: Seq<char>, scope: Seq<Seq<char>>) -> Seq<SymbolView> {
    let k = n.kind@;
    if k == "function_definition"@ || k == "function_declarator"@ {
        opt_sym(find_id(n), SymbolKind::Function, path, n, scope)
    } else if k == "declaration"@ {
        opt_sym(find_id(n), if is_type_declaration(n) { SymbolKind::Type } else { SymbolKind::Variable }, path, n, scope)
    } else if k == "preproc_def"@ || k == "preproc_function_def"@ {
        opt_sym(macro_name(n), SymbolKind::Macro, path, n, scope)
    } else if k == "field_declaration"@ {
        opt_sym(find_id(n), SymbolKind::Field, path, n, scope)
    } else if k == "enumerator"@ {
        opt_sym(find_id(n), SymbolKind::EnumVariant, path, n, scope)
    } else {
        Seq::empty()
    }
}

pub open spec fn is_type_specifier(n: AstNode) -> bool {
    n.kind@ == "struct_specifier"@ || n.kind@ == "class_specifier"@ || n.kind@ == "enum_specifier"@
}

/// The symbols of the tree under `n`, in pre-order: a named struct, class or
/// enum is a type whose members are scoped under its name.
pub open spec fn extracted(n: AstNode, path: Seq<char>, scope: Seq<Seq<char>>) -> Seq<SymbolView>
    decreases n, n.children.len() + 1,
{
    if is_type_specifier(n) && declared_type_name(n) is Some {
        let name = declared_type_name(n)->0;
        seq![sym(name, SymbolKind::Type, path, n, scope)] + extracted_from(n, 0, path, scope.push(name))
    } else {
        own_symbols(n, path, scope) + extracted_from(n, 0, path, scope)
    }
}

pub open spec fn extracted_from(n: AstNode, i: int, path: Seq<char>, scope: Seq<Seq<char>>) -> Seq<SymbolView>
    decreases n, n.children.len() - i,
{
    if i < 0 || i >= n.children.len() {
        Seq::empty()
    } else {
        extracted(n.children[i], path, scope) + extracted_from(n, i + 1, path, scope)
    }
}

} // verus!

verus! {

fn text_copy(n: &AstNode) -> (r: Option<String>)
    ensures
        match r {
            Some(t) => text_of(*n) == Some(t@),
            None => text_of(*n) is None,
        },
{
    match &n.text {
        Some(t) => Some(crate::text::copy_string(t)),
        None => None,
    }
}

fn kind_is(n: &AstNode, k: &str) -> (r: bool)
    ensures
        r == (n.kind@ == k@),
{
    str_eq(n.kind.as_str(), k)
}

fn find_id_exec(n: &AstNode) -> (r: Option<String>)
    ensures
        match r {
            Some(t) => find_id(*n) == Some(t@),
            None => find_id(*n) is None,
        },
    decreases n,
{
    if kind_is(n, "identifier") {
        return text_copy(n);
    }
    let mut i: usize = 0;
    while i < n.children.len()
        invariant
            i <= n.children.len(),
            n.kind@ != "identifier"@,
            find_id(*n) == find_id_from(*n, i as int),
        decreases n.children.len() - i,
    {
        proof {
            vstd::std_specs::vec::axiom_vec_index_decreases(n.children, i as int);
        }
        match find_id_exec(&n.children[i]) {
            Some(t) => {
                return Some(t);
            },
            None => {},
        }
        i += 1;
    }
    None
}

fn child_of_kind_exec(n: &AstNode, a: &str, b: &str) -> (r: Option<usize>)
    ensures
        match r {
            Some(i) => i < n.children.len() && child_of_kind(*n, 0, a@, b@) == Some(n.children@[i as int]),
            None => child_of_kind(*n, 0, a@, b@) is None,
        },
{
    let mut i: usize = 0;
    while i < n.children.len()
        invariant
            i <= n.children.len(),
            child_of_kind(*n, 0, a@, b@) == child_of_kind(*n, i as int, a@, b@),
        decreases n.children.len() - i,
    {
        if kind_is(&n.children[i], a) || kind_is(&n.children[i], b) {
            return Some(i);
        }
        i += 1;
    }
    None
}

fn child_text(n: &AstNode, a: &str, b: &str) -> (r: Option<String>)
    ensures
        match r {
            Some(t) => (match child_of_kind(*n, 0, a@, b@) { Some(c) => text_of(c), None => None }) == Some(t@),
            None => (match child_of_kind(*n, 0, a@, b@) { Some(c) => text_of(c), None => None }) is None,
        },
{
    match child_of_kind_exec(n, a, b) {
        Some(i) => text_copy(&n.children[i]),
        None => None,
    }
}

fn copy_strings(v: &Vec<String>) -> (r: Vec<String>)
    ensures
        crate::text::views(r@) == crate::text::views(v@),
{
    let mut out: Vec<String> = Vec::new();
    crate::text::extend_strings(&mut out, v);
    assert(crate::text::views(out@) =~= crate::text::views(v@));
    out
}

fn push_symbol(out: &mut Vec<Symbol>, name: String, kind: SymbolKind, path: &str, n: &AstNode, scope: &Vec<String>)
    ensures
        symbol_views(final(out)@) == symbol_views(old(out)@).push(sym(name@, kind, path@, *n, crate::text::views(scope@))),
{
    let s = Symbol::new(name, kind, crate::types::Location::new(String::from_str(path), n.range)).with_scope(copy_strings(scope));
    let ghost before = out@;
    out.push(s);
    assert(symbol_views(out@) =~= symbol_views(before).push(symbol_view(s)));
}

fn push_opt(out: &mut Vec<Symbol>, name: Option<String>, kind: SymbolKind, path: &str, n: &AstNode, scope: &Vec<String>)
    ensures
        symbol_views(final(out)@) == symbol_views(old(out)@) + opt_sym(match name { Some(t) => Some(t@), None => None }, kind, path@, *n, crate::text::views(scope@)),
{
    match name {
        Some(t) => {
            push_symbol(out, t, kind, path, n, scope);
        },
        None => {
            assert(symbol_views(out@) =~= symbol_views(out@) + Seq::<SymbolView>::empty());
        },
    }
}

fn extract(n: &AstNode, path: &str, scope: &mut Vec<String>, out: &mut Vec<Symbol>)
    ensures
        crate::text::views(final(scope)@) == crate::text::views(old(scope)@),
        symbol_views(final(out)@) == symbol_views(old(out)@) + extracted(*n, path@, crate::text::views(old(scope)@)),
    decreases n,
{
    let ghost sc = crate::text::views(scope@);
    let ghost start = symbol_views(out@);
    let is_spec = kind_is(n, "struct_specifier") || kind_is(n, "class_specifier") || kind_is(n, "enum_specifier");
    let tname = if is_spec { child_text(n, "type_identifier", "identifier") } else { None };
    let ghost inner: Seq<Seq<char>>;
    let scoped = tname.is_some();
    match tname {
        Some(name) => {
            let name2 = crate::text::copy_string(&name);
            push_symbol(out, name, SymbolKind::Type, path, n, scope);
            let ghost b = scope@;
            scope.push(name2);
            proof {
                crate::text::lemma_views_push(b, scope@.last());
                inner = sc.push(name2@);
            }
        },
        None => {
            if kind_is(n, "function_definition") || kind_is(n, "function_declarator") {
                push_opt(out, find_id_exec(n), SymbolKind::Function, path, n, scope);
            } else if kind_is(n, "declaration") {
                let k = if child_of_kind_exec(n, "type_definition", "type_definition").is_some() {
                    SymbolKind::Type
                } else {
                    SymbolKind::Variable
                };
                push_opt(out, find_id_exec(n), k, path, n, scope);
            } else if kind_is(n, "preproc_def") || kind_is(n, "preproc_function_def") {
                push_opt(out, child_text(n, "identifier", "identifier"), SymbolKind::Macro, path, n, scope);
            } else if kind_is(n, "field_declaration") {
                push_opt(out, find_id_exec(n), SymbolKind::Field, path, n, scope);
            } else if kind_is(n, "enumerator") {
                push_opt(out, find_id_exec(n), SymbolKind::EnumVariant, path, n, scope);
            } else {
                assert(own_symbols(*n, path@, sc) =~= Seq::<SymbolView>::empty());
                assert(symbol_views(out@) =~= start + Seq::<SymbolView>::empty());
            }
            proof {
                inner = sc;
            }
        },
    }
    let ghost head = symbol_views(out@);
    assert(head + extracted_from(*n, 0, path@, inner) == start + extracted(*n, path@, sc));
    let mut i: usize = 0;
    while i < n.children.len()
        invariant
            i <= n.children.len(),
            crate::text::views(scope@) == inner,
            symbol_views(out@) + extracted_from(*n, i as int, path@, inner) == start + extracted(*n, path@, sc),
        decreases n.children.len() - i,
    {
        proof {
            vstd::std_specs::vec::axiom_vec_index_decreases(n.children, i as int);
        }
        let ghost before = symbol_views(out@);
        extract(&n.children[i], path, scope, out);
        assert(symbol_views(out@) + extracted_from(*n, i + 1, path@, inner) =~= before + extracted_from(*n, i as int, path@, inner));
        i += 1;
    }
    assert(symbol_views(out@) =~= start + extracted(*n, path@, sc));
    if scoped {
        let ghost b = scope@;
        scope.pop();
        assert(crate::text::views(scope@) =~= crate::text::views(b).drop_last());
    }
}

/// The symbols declared in the syntax tree `ast` of the file at `path`, in
/// pre-order.
pub fn extract_symbols(path: &str, ast: &AstNode) -> (r: Vec<Symbol>)
    ensures
        symbol_views(r@) == extracted(*ast, path@, Seq::empty()),
{
    let mut scope: Vec<String> = Vec::new();
    let mut out: Vec<Symbol> = Vec::new();
    assert(crate::text::views(scope@) =~= Seq::<Seq<char>>::empty());
    assert(symbol_views(out@) =~= Seq::<SymbolView>::empty());
    extract(ast, path, &mut scope, &mut out);
    assert(symbol_views(out@) =~= extracted(*ast, path@, Seq::empty()));
    out
}

impl SymbolIndex {
    /// Indexes the symbols declared in `ast`, the syntax tree of the file at
    /// `path`, sorted, in place of those the file had.
    pub fn index_file(&mut self, path: String, ast: &AstNode)
        ensures
            exists|i: int| 0 <= i < final(self).files.len() && (#[trigger] final(self).files@[i]).path@ == path@
                && symbols_sorted(final(self).files@[i].symbols@)
                && exists|v: Seq<Symbol>| symbol_views(v) == extracted(*ast, path@, Seq::empty())
                    && final(self).files@[i].symbols@.to_multiset() == #[trigger] v.to_multiset(),
            forall|i: int| 0 <= i < old(self).files.len() && (#[trigger] old(self).files@[i]).path@ != path@
                ==> final(self).files@.contains(old(self).files@[i]),
    {
        let symbols = extract_symbols(path.as_str(), ast);
        let ghost v = symbols@;
        self.store_file(path, symbols);
        proof {
            let i = choose|i: int| 0 <= i < self.files.len() && (#[trigger] self.files@[i]).path@ == path@
                && symbols_sorted(self.files@[i].symbols@)
                && self.files@[i].symbols@.to_multiset() == v.to_multiset();
            assert(symbol_views(v) == extracted(*ast, path@, Seq::empty()));
        }
    }
}

} // verus!
