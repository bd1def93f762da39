//! The identifiers that are worth searching for when files change.
use vstd::prelude::*;

use crate::list::{deduplicate_preserving_order, distinct};
use crate::order::{
    keys, lemma_text_before_total, lemma_text_le_transitive, sort, sorted, text_le, Ranked,
    Sortable,
};
use crate::symbols::{
    identifiers, identifiers_of, line_views, one_of, specific, stable, stable_identifier, stop_word,
    text_identifier_is_specific, text_stop_word, AddedLine, MAX_CHANGED_SYMBOLS,
};
use crate::text::{ends_with, has_char, opt_view, same_text, views};

verus! {

// ---------------------------------------------------------------------------
// Plain text
// ---------------------------------------------------------------------------

/// An identifier that is worth searching for.
pub open spec fn searchable(identifier: Seq<char>) -> bool {
    stable(identifier) && !stop_word(identifier) && specific(identifier)
}

/// The identifiers worth searching for among these.
pub open spec fn searchable_in(identifiers: Seq<Seq<char>>) -> Seq<Seq<char>> {
    identifiers.filter(|t: Seq<char>| searchable(t))
}

/// The identifiers worth searching for on these lines, as often as they occur.
pub open spec fn searchable_tokens(lines: Seq<(usize, Seq<char>)>) -> Seq<Seq<char>>
    decreases lines.len(),
{
    if lines.len() == 0 {
        Seq::empty()
    } else {
        searchable_tokens(lines.drop_last()) + searchable_in(identifiers_of(lines.last().1))
    }
}

/// How often a text occurs.
pub open spec fn occurrences(tokens: Seq<Seq<char>>, t: Seq<char>) -> nat
    decreases tokens.len(),
{
    if tokens.len() == 0 {
        0
    } else {
        occurrences(tokens.drop_last(), t) + if tokens.last() == t {
            1nat
        } else {
            0nat
        }
    }
}

/// An identifier with how often it occurs. Those with an underscore come first, then
/// the more frequent, then in the order of their characters.
pub struct TokenRank {
    pub plain: bool,
    pub count: nat,
    pub name: Seq<char>,
}

impl Ranked for TokenRank {
    open spec fn at_most(self, other: Self) -> bool {
        if self.plain != other.plain {
            other.plain
        } else if self.count != other.count {
            self.count > other.count
        } else {
            text_le(self.name, other.name)
        }
    }

    proof fn total(a: Self, b: Self) {
        lemma_text_before_total(a.name, b.name);
    }

    proof fn transitive(a: Self, b: Self, c: Self) {
        if text_le(a.name, b.name) && text_le(b.name, c.name) {
            lemma_text_le_transitive(a.name, b.name, c.name);
        }
    }
}

/// Each identifier with how often it occurs.
pub open spec fn token_ranks(tokens: Seq<Seq<char>>) -> Seq<TokenRank> {
    distinct(tokens).map_values(
        |t: Seq<char>|
            TokenRank { plain: !t.contains('_'), count: occurrences(tokens, t), name: t },
    )
}

/// The names of ranked identifiers.
pub open spec fn rank_names(ranks: Seq<TokenRank>) -> Seq<Seq<char>> {
    ranks.map_values(|r: TokenRank| r.name)
}

/// The first `n` items.
pub open spec fn first_n<A>(s: Seq<A>, n: nat) -> Seq<A> {
    if s.len() <= n {
        s
    } else {
        s.take(n as int)
    }
}

/// The identifiers that lines of plain text offer for the search.
pub open spec fn text_symbols(lines: Seq<(usize, Seq<char>)>) -> Seq<Seq<char>> {
    first_n(
        rank_names(sorted(token_ranks(searchable_tokens(lines)))),
        MAX_CHANGED_SYMBOLS as nat,
    )
}

struct Token {
    plain: bool,
    count: usize,
    name: String,
}

impl Sortable for Token {
    type Key = TokenRank;

    closed spec fn key(self) -> TokenRank {
        TokenRank { plain: self.plain, count: self.count as nat, name: self.name@ }
    }

    fn is_at_most(&self, other: &Self) -> (r: bool) {
        if self.plain != other.plain {
            return other.plain;
        }
        if self.count != other.count {
            return self.count > other.count;
        }
        self.name.is_at_most(&other.name)
    }
}

fn add_searchable(line: &str, tokens: &mut Vec<String>)
    ensures
        views(final(tokens)@) == views(old(tokens)@) + searchable_in(identifiers_of(line@)),
{
    let found = identifiers(line);
    let ghost all = views(found@);
    let ghost before = views(tokens@);
    let mut i: usize = 0;
    proof {
        assert(searchable_in(all.take(0)) =~= Seq::empty());
        assert(views(tokens@) =~= before + Seq::empty());
    }
    while i < found.len()
        invariant
            i <= found@.len(),
            all == views(found@),
            all == identifiers_of(line@),
            views(tokens@) == before + searchable_in(all.take(i as int)),
        decreases found@.len() - i,
    {
        let ghost so_far = views(tokens@);
        let t = &found[i];
        proof {
            assert(all.take(i + 1) =~= all.take(i as int).push(t@));
            assert(all.take(i + 1).drop_last() =~= all.take(i as int));
            assert(all.take(i + 1).last() == t@);
            reveal(Seq::filter);
        }
        if stable_identifier(t.as_str()) && !text_stop_word(t.as_str())
            && text_identifier_is_specific(t.as_str()) {
            tokens.push(t.clone());
            proof {
                assert(views(tokens@) =~= so_far.push(t@));
                assert(views(tokens@) =~= before + searchable_in(all.take(i as int)).push(t@));
            }
        }
        i += 1;
    }
    proof {
        assert(all.take(all.len() as int) =~= all);
    }
}

fn count_of(tokens: &Vec<String>, t: &String) -> (r: usize)
    ensures
        r == occurrences(views(tokens@), t@),
{
    let ghost all = views(tokens@);
    let mut n: usize = 0;
    let mut i: usize = 0;
    while i < tokens.len()
        invariant
            i <= tokens@.len(),
            n <= i,
            all == views(tokens@),
            n == occurrences(all.take(i as int), t@),
        decreases tokens@.len() - i,
    {
        proof {
            assert(all.take(i + 1).drop_last() =~= all.take(i as int));
            assert(all.take(i + 1).last() == tokens@[i as int]@);
        }
        if same_text(tokens[i].as_str(), t.as_str()) {
            n += 1;
        }
        i += 1;
    }
    proof {
        assert(all.take(all.len() as int) =~= all);
    }
    n
}

/// The identifiers that lines of plain text offer for the search: those with an
/// underscore first, then the more frequent, then in order, and no more than fit.
pub fn extract_text_changed_symbols(added_lines: &Vec<AddedLine>) -> (r: Vec<String>)
    ensures
        views(r@) == text_symbols(line_views(added_lines@)),
{
    let ghost all = line_views(added_lines@);
    let mut tokens: Vec<String> = Vec::new();
    let mut i: usize = 0;
    proof {
        assert(views(tokens@) =~= Seq::empty());
        assert(all.take(0) =~= Seq::empty());
    }
    while i < added_lines.len()
        invariant
            i <= added_lines@.len(),
            all == line_views(added_lines@),
            views(tokens@) == searchable_tokens(all.take(i as int)),
        decreases added_lines@.len() - i,
    {
        proof {
            assert(all.take(i + 1).drop_last() =~= all.take(i as int));
            assert(all.take(i + 1).last() == added_lines@[i as int]@);
        }
        add_searchable(added_lines[i].text.as_str(), &mut tokens);
        i += 1;
    }
    proof {
        assert(all.take(all.len() as int) =~= all);
    }
    let ghost found = views(tokens@);
    let mut names = crate::list::copy_texts(&tokens);
    deduplicate_preserving_order(&mut names);
    let mut ranked: Vec<Token> = Vec::new();
    let mut j: usize = 0;
    while j < names.len()
        invariant
            j <= names@.len(),
            found == views(tokens@),
            views(names@) == distinct(found),
            ranked@.len() == j,
            forall|k: int|
                0 <= k < j ==> (#[trigger] ranked@[k]).key() == token_ranks(found)[k],
        decreases names@.len() - j,
    {
        let name = &names[j];
        proof {
            assert(views(names@)[j as int] == name@);
        }
        ranked.push(
            Token {
                plain: !has_char(name.as_str(), '_'),
                count: count_of(&tokens, name),
                name: name.clone(),
            },
        );
        j += 1;
    }
    proof {
        assert(keys(ranked@) =~= token_ranks(found));
    }
    let ordered = sort(ranked);
    let ghost order = sorted(token_ranks(found));
    let mut r: Vec<String> = Vec::new();
    let mut n: usize = 0;
    while n < ordered.len() && n < MAX_CHANGED_SYMBOLS
        invariant
            n <= ordered@.len(),
            n <= MAX_CHANGED_SYMBOLS,
            keys(ordered@) == order,
            views(r@) == rank_names(order).take(n as int),
        decreases ordered@.len() - n,
    {
        let ghost before = views(r@);
        proof {
            assert(keys(ordered@)[n as int] == ordered@[n as int].key());
        }
        r.push(ordered[n].name.clone());
        proof {
            assert(views(r@) =~= before.push(ordered@[n as int].name@));
            assert(rank_names(order).take(n + 1) =~= rank_names(order).take(n as int).push(
                rank_names(order)[n as int],
            ));
        }
        n += 1;
    }
    proof {
        assert(order.len() == ordered@.len()) by {
            assert(keys(ordered@).len() == ordered@.len());
        }
        assert(views(r@) =~= text_symbols(all));
    }
    r
}

/// The words that introduce a Rust definition.
pub open spec fn rust_keywords() -> Seq<Seq<char>> {
    seq!["fn"@, "struct"@, "enum"@, "trait"@, "type"@, "const"@, "static"@, "mod"@]
}

/// The names that stand behind a word that introduces a Rust definition.
pub open spec fn defined_names(tokens: Seq<Seq<char>>, upto: int) -> Seq<Seq<char>>
    decreases upto,
{
    if upto <= 0 {
        Seq::empty()
    } else {
        let rest = defined_names(tokens, upto - 1);
        if rust_keywords().contains(tokens[upto - 1]) && upto < tokens.len() && stable(
            tokens[upto],
        ) {
            rest.push(tokens[upto])
        } else {
            rest
        }
    }
}

/// The names that these lines of Rust define.
pub open spec fn names_defined_on(lines: Seq<(usize, Seq<char>)>) -> Seq<Seq<char>>
    decreases lines.len(),
{
    if lines.len() == 0 {
        Seq::empty()
    } else {
        let tokens = identifiers_of(lines.last().1);
        names_defined_on(lines.drop_last()) + defined_names(tokens, tokens.len() as int)
    }
}

/// The identifiers that removed lines offer for the search.
pub open spec fn deleted_symbols(
    path: Seq<char>,
    lines: Seq<(usize, Seq<char>)>,
) -> Seq<Seq<char>> {
    if ".rs"@.is_suffix_of(path) {
        sorted(distinct(names_defined_on(lines)))
    } else {
        text_symbols(lines)
    }
}

fn is_rust_keyword(t: &str) -> (r: bool)
    ensures
        r == rust_keywords().contains(t@),
{
    let words: Vec<&str> = vec!["fn", "struct", "enum", "trait", "type", "const", "static", "mod"];
    proof {
        assert(words@.map_values(|w: &str| w@) =~= rust_keywords());
    }
    one_of(t, &words)
}

/// The identifiers that removed lines offer for the search: for Rust the names that
/// they defined, in order and each once.
pub fn extract_deleted_symbols(path: &str, lines: &Vec<AddedLine>) -> (r: Vec<String>)
    ensures
        views(r@) == deleted_symbols(path@, line_views(lines@)),
{
    if !ends_with(path, ".rs") {
        return extract_text_changed_symbols(lines);
    }
    let ghost all = line_views(lines@);
    let mut found: Vec<String> = Vec::new();
    let mut i: usize = 0;
    proof {
        assert(views(found@) =~= Seq::empty());
        assert(all.take(0) =~= Seq::empty());
    }
    while i < lines.len()
        invariant
            i <= lines@.len(),
            all == line_views(lines@),
            views(found@) == names_defined_on(all.take(i as int)),
        decreases lines@.len() - i,
    {
        proof {
            assert(all.take(i + 1).drop_last() =~= all.take(i as int));
            assert(all.take(i + 1).last() == lines@[i as int]@);
        }
        let tokens = identifiers(lines[i].text.as_str());
        let ghost words = views(tokens@);
        let ghost before = views(found@);
        let mut k: usize = 0;
        proof {
            assert(before + defined_names(words, 0) =~= before);
        }
        while k < tokens.len()
            invariant
                k <= tokens@.len(),
                words == views(tokens@),
                views(found@) == before + defined_names(words, k as int),
            decreases tokens@.len() - k,
        {
            let ghost so_far = views(found@);
            proof {
                assert(words[k as int] == tokens@[k as int]@);
            }
            if is_rust_keyword(tokens[k].as_str()) && k + 1 < tokens.len() {
                proof {
                    assert(words[k + 1] == tokens@[k + 1]@);
                }
                if stable_identifier(tokens[k + 1].as_str()) {
                    found.push(tokens[k + 1].clone());
                    proof {
                        assert(views(found@) =~= so_far.push(words[k + 1]));
                        assert(views(found@) =~= before + defined_names(words, k as int).push(
                            words[k + 1],
                        ));
                    }
                }
            }
            k += 1;
        }
        i += 1;
    }
    proof {
        assert(all.take(all.len() as int) =~= all);
    }
    deduplicate_preserving_order(&mut found);
    let r = sort(found);
    proof {
        assert(keys(found@) =~= views(found@));
        assert(keys(r@) =~= views(r@));
    }
    r
}

// ---------------------------------------------------------------------------
// Rust
// ---------------------------------------------------------------------------

/// A node of a syntax tree, with the rows that it spans, counted from zero, and the
/// text of its field `name`.
#[derive(Debug, PartialEq, Eq)]
pub struct SyntaxNode {
    pub kind: String,
    pub start_row: usize,
    pub end_row: usize,
    pub name: Option<String>,
    pub children: Vec<SyntaxNode>,
}

/// What a node of a syntax tree says.
pub struct SyntaxView {
    pub kind: Seq<char>,
    pub start_row: usize,
    pub end_row: usize,
    pub name: Option<Seq<char>>,
    pub children: Seq<SyntaxView>,
}

/// What a node of a syntax tree says.
pub open spec fn syntax_view(node: SyntaxNode) -> SyntaxView
    decreases node,
{
    SyntaxView {
        kind: node.kind@,
        start_row: node.start_row,
        end_row: node.end_row,
        name: opt_view(node.name),
        children: Seq::new(
            node.children@.len(),
            |i: int|
                if 0 <= i < node.children@.len() {
                    syntax_view(node.children@[i])
                } else {
                    arbitrary()
                },
        ),
    }
}

impl View for SyntaxNode {
    type V = SyntaxView;

    open spec fn view(&self) -> SyntaxView {
        syntax_view(*self)
    }
}

/// The kinds of nodes that define a name.
pub open spec fn definition_kinds() -> Seq<Seq<char>> {
    seq![
        "function_item"@,
        "struct_item"@,
        "enum_item"@,
        "trait_item"@,
        "type_item"@,
        "const_item"@,
        "static_item"@,
        "mod_item"@,
        "macro_definition"@,
    ]
}

/// One of the lines, counted from one, lies in the node.
pub open spec fn touched(node: SyntaxView, lines: Seq<usize>) -> bool {
    exists|k: int|
        0 <= k < lines.len() && node.start_row + 1 <= #[trigger] lines[k] <= node.end_row + 1
}

/// The names defined in a list of nodes, up to the node `upto`.
pub open spec fn definitions_upto(
    nodes: Seq<SyntaxView>,
    lines: Seq<usize>,
    upto: int,
) -> Seq<Seq<char>>
    decreases nodes, upto,
{
    if upto <= 0 || upto > nodes.len() {
        Seq::empty()
    } else {
        definitions_upto(nodes, lines, upto - 1) + definitions(nodes[upto - 1], lines)
    }
}

/// The name that a node itself defines, where a line in it changed.
pub open spec fn own_definition(node: SyntaxView, lines: Seq<usize>) -> Seq<Seq<char>> {
    match node.name {
        Some(name) => if definition_kinds().contains(node.kind) && touched(node, lines) && stable(
            name,
        ) {
            seq![name]
        } else {
            Seq::empty()
        },
        None => Seq::empty(),
    }
}

/// The names of the definitions in which a line changed: that of the node before
/// those below it.
pub open spec fn definitions(node: SyntaxView, lines: Seq<usize>) -> Seq<Seq<char>>
    decreases node, node.children.len() + 1,
{
    own_definition(node, lines) + definitions_upto(
        node.children,
        lines,
        node.children.len() as int,
    )
}

fn is_definition_kind(kind: &str) -> (r: bool)
    ensures
        r == definition_kinds().contains(kind@),
{
    let kinds: Vec<&str> = vec![
        "function_item",
        "struct_item",
        "enum_item",
        "trait_item",
        "type_item",
        "const_item",
        "static_item",
        "mod_item",
        "macro_definition",
    ];
    proof {
        assert(kinds@.map_values(|w: &str| w@) =~= definition_kinds());
    }
    one_of(kind, &kinds)
}

fn touches(node: &SyntaxNode, lines: &Vec<usize>) -> (r: bool)
    ensures
        r == touched(node@, lines@),
{
    let mut i: usize = 0;
    while i < lines.len()
        invariant
            i <= lines@.len(),
            forall|k: int|
                0 <= k < i ==> !(node@.start_row + 1 <= #[trigger] lines@[k] <= node@.end_row + 1),
        decreases lines@.len() - i,
    {
        let n: usize = lines[i];
        if n > 0 && node.start_row <= n - 1 && n - 1 <= node.end_row {
            return true;
        }
        i += 1;
    }
    false
}

/// Appends the names of the definitions in which a line changed.
pub fn collect_changed_rust_definitions(
    node: &SyntaxNode,
    changed_lines: &Vec<usize>,
    symbols: &mut Vec<String>,
)
    ensures
        views(final(symbols)@) == views(old(symbols)@) + definitions(node@, changed_lines@),
    decreases node,
{
    let ghost before = views(symbols@);
    let ghost lines = changed_lines@;
    if let Some(name) = &node.name {
        if is_definition_kind(node.kind.as_str()) && touches(node, changed_lines)
            && stable_identifier(name.as_str()) {
            symbols.push(name.clone());
        }
    }
    proof {
        assert(views(symbols@) =~= before + own_definition(node@, lines));
        assert(before + own_definition(node@, lines) + definitions_upto(node@.children, lines, 0)
            =~= views(symbols@));
    }
    let mut i: usize = 0;
    while i < node.children.len()
        invariant
            i <= node.children@.len(),
            lines == changed_lines@,
            node@.children.len() == node.children@.len(),
            views(symbols@) == before + own_definition(node@, lines) + definitions_upto(
                node@.children,
                lines,
                i as int,
            ),
        decreases node.children@.len() - i,
    {
        let ghost so_far = views(symbols@);
        proof {
            assert(node@.children[i as int] == node.children@[i as int]@);
            assert(decreases_to!(node => node.children@[i as int]));
        }
        collect_changed_rust_definitions(&node.children[i], changed_lines, symbols);
        proof {
            assert(views(symbols@) =~= before + own_definition(node@, lines) + (
            definitions_upto(node@.children, lines, i as int) + definitions(
                node@.children[i as int],
                lines,
            )));
        }
        i += 1;
    }
    proof {
        assert(views(symbols@) =~= before + definitions(node@, lines));
    }
}

#[verifier::external_type_specification]
#[verifier::external_body]
pub struct ExNode<'a>(tree_sitter::Node<'a>);

/// The syntax tree of a Rust source, or none where the parser has no language.
pub uninterp spec fn rust_syntax(source: Seq<char>) -> Option<SyntaxView>;

/// A `tree_sitter::Node` with its kind, rows, field `name` and children moved into a
/// `SyntaxNode`.
#[verifier::external_body]
fn syntax_from_node(node: tree_sitter::Node<'_>, source: &[u8]) -> (r: SyntaxNode) {
    SyntaxNode {
        kind: node.kind().to_owned(),
        start_row: node.start_position().row,
        end_row: node.end_position().row,
        name: node.child_by_field_name("name").and_then(|n| n.utf8_text(source).ok()).map(
            str::to_owned,
        ),
        children: node.children(&mut node.walk()).map(|c| syntax_from_node(c, source)).collect(),
    }
}

/// Trusted: `tree_sitter::Parser::parse` with the grammar of `tree_sitter_rust`. The
/// tree, or that there is none, depends on the source alone.
#[verifier::external_body]
fn read_rust(source: &str) -> (r: Option<SyntaxNode>)
    ensures
        match r {
            Some(node) => rust_syntax(source@) == Some(node@),
            None => rust_syntax(source@) is None,
        },
{
    let mut parser = tree_sitter::Parser::new();
    parser.set_language(&tree_sitter_rust::LANGUAGE.into()).ok()?;
    let tree = parser.parse(source, None)?;
    Some(syntax_from_node(tree.root_node(), source.as_bytes()))
}

/// The names of the definitions of a syntax tree in which a line changed, each once.
pub open spec fn tree_symbols(tree: Option<SyntaxView>, lines: Seq<usize>) -> Seq<Seq<char>> {
    match tree {
        Some(node) => distinct(definitions(node, lines)),
        None => Seq::empty(),
    }
}

/// The names of the definitions of a Rust source in which a line changed, each once.
pub fn extract_rust_changed_symbols(source: &str, changed_lines: &Vec<usize>) -> (r: Vec<String>)
    ensures
        views(r@) == tree_symbols(rust_syntax(source@), changed_lines@),
{
    let mut symbols: Vec<String> = Vec::new();
    if let Some(node) = read_rust(source) {
        collect_changed_rust_definitions(&node, changed_lines, &mut symbols);
        proof {
            assert(views(symbols@) =~= definitions(node@, changed_lines@));
        }
        deduplicate_preserving_order(&mut symbols);
    } else {
        proof {
            assert(views(symbols@) =~= Seq::empty());
        }
    }
    symbols
}

// ---------------------------------------------------------------------------
// What holds of it
// ---------------------------------------------------------------------------

/// The identifiers that lines offer are those of each line that are worth a search, line by
/// line.
pub proof fn law_offered_identifiers(
    a: Seq<(usize, Seq<char>)>,
    b: Seq<(usize, Seq<char>)>,
    t: Seq<char>,
)
    ensures
        searchable_tokens(a + b) == searchable_tokens(a) + searchable_tokens(b),
        searchable_tokens(a).contains(t) <==> exists|i: int|
            0 <= i < a.len() && identifiers_of((#[trigger] a[i]).1).contains(t) && stable(t)
                && !stop_word(t) && specific(t),
    decreases b.len(), a.len(),
{
    if b.len() == 0 {
        assert(a + b =~= a);
        assert(searchable_tokens(a) + searchable_tokens(b) =~= searchable_tokens(a));
    } else {
        assert((a + b).drop_last() =~= a + b.drop_last());
        law_offered_identifiers(a, b.drop_last(), t);
        assert(searchable_tokens(a + b) =~= searchable_tokens(a) + searchable_tokens(b));
    }
    if a.len() > 0 {
        let rest = a.drop_last();
        law_offered_identifiers(rest, Seq::empty(), t);
        let found = searchable_tokens(rest);
        let own = identifiers_of(a.last().1);
        let last = searchable_in(own);
        let p = |x: Seq<char>| searchable(x);
        lemma_filter_holds(own, p, t);
        assert((found + last).contains(t) <==> found.contains(t) || last.contains(t)) by {
            if found.contains(t) {
                let k = choose|k: int| 0 <= k < found.len() && found[k] == t;
                assert((found + last)[k] == t);
            }
            if last.contains(t) {
                let k = choose|k: int| 0 <= k < last.len() && last[k] == t;
                assert((found + last)[found.len() + k] == t);
            }
            if (found + last).contains(t) {
                let k = choose|k: int| 0 <= k < (found + last).len() && (found + last)[k] == t;
                if k < found.len() {
                    assert(found[k] == t);
                } else {
                    assert(last[k - found.len()] == t);
                }
            }
        }
        assert(a[a.len() - 1] == a.last());
        if found.contains(t) {
            let i = choose|i: int|
                0 <= i < rest.len() && identifiers_of((#[trigger] rest[i]).1).contains(t)
                    && stable(t) && !stop_word(t) && specific(t);
            assert(a[i] == rest[i]);
        }
        if exists|i: int|
            0 <= i < a.len() && identifiers_of((#[trigger] a[i]).1).contains(t) && stable(t)
                && !stop_word(t) && specific(t) {
            let i = choose|i: int|
                0 <= i < a.len() && identifiers_of((#[trigger] a[i]).1).contains(t) && stable(t)
                    && !stop_word(t) && specific(t);
            if i < rest.len() {
                assert(rest[i] == a[i]);
            } else {
                assert(searchable(t));
            }
        }
    }
}

proof fn lemma_filter_holds(s: Seq<Seq<char>>, p: spec_fn(Seq<char>) -> bool, t: Seq<char>)
    ensures
        s.filter(p).contains(t) ==> s.contains(t) && p(t),
        s.contains(t) && p(t) ==> s.filter(p).contains(t),
{
    broadcast use vstd::seq_lib::group_filter_ensures;

    if s.filter(p).contains(t) {
        let k = choose|k: int| 0 <= k < s.filter(p).len() && s.filter(p)[k] == t;
        assert(p(s.filter(p)[k]));
        s.lemma_filter_contains_rev(p, t);
    }
    if s.contains(t) && p(t) {
        let k = choose|k: int| 0 <= k < s.len() && s[k] == t;
        assert(s.filter(p).contains(s[k]));
    }
}

/// What plain text offers a search: nothing but identifiers of the lines that are worth
/// one, each once, no more than fit, and all of them where they fit.
pub proof fn law_text_symbols(lines: Seq<(usize, Seq<char>)>, t: Seq<char>)
    ensures
        text_symbols(lines).len() <= 24,
        text_symbols(lines).contains(t) ==> searchable_tokens(lines).contains(t),
        distinct(searchable_tokens(lines)).len() <= 24 ==> (text_symbols(lines).contains(t)
            <==> searchable_tokens(lines).contains(t)),
        text_symbols(lines).len() == 24 || text_symbols(lines).len() == distinct(
            searchable_tokens(lines),
        ).len(),
{
    let tokens = searchable_tokens(lines);
    let ranks = token_ranks(tokens);
    let s = sorted(ranks);
    let names = rank_names(s);
    crate::list::law_distinct(tokens);
    crate::order::law_sorted_keeps_items(ranks);
    ranks.to_multiset_ensures();
    s.to_multiset_ensures();
    assert(names.contains(t) <==> tokens.contains(t)) by {
        if names.contains(t) {
            let k = choose|k: int| 0 <= k < names.len() && names[k] == t;
            assert(s.contains(s[k]));
            assert(s.to_multiset().contains(s[k]));
            assert(ranks.to_multiset().contains(s[k]));
            assert(ranks.contains(s[k]));
            let j = choose|j: int| 0 <= j < ranks.len() && ranks[j] == s[k];
            assert(distinct(tokens)[j] == t);
            assert(distinct(tokens).contains(t));
        }
        if tokens.contains(t) {
            assert(distinct(tokens).contains(t));
            let j = choose|j: int| 0 <= j < distinct(tokens).len() && distinct(tokens)[j] == t;
            let r = ranks[j];
            assert(r.name == t);
            assert(ranks.contains(r));
            assert(ranks.to_multiset().contains(r));
            assert(s.to_multiset().contains(r));
            assert(s.contains(r));
            let k = choose|k: int| 0 <= k < s.len() && s[k] == r;
            assert(names[k] == t);
        }
    }
    if text_symbols(lines).contains(t) {
        let k = choose|k: int| 0 <= k < text_symbols(lines).len() && text_symbols(lines)[k] == t;
        assert(names[k] == t);
    }
}

/// Identifiers with an underscore come before others, those that occur more often before
/// those that occur less often, and of the rest the smaller first.
pub proof fn law_text_symbols_are_ranked(lines: Seq<(usize, Seq<char>)>, i: int, j: int)
    requires
        0 <= i < j < text_symbols(lines).len(),
    ensures
        ({
            let a = text_symbols(lines)[i];
            let b = text_symbols(lines)[j];
            let tokens = searchable_tokens(lines);
            &&& !a.contains('_') ==> !b.contains('_')
            &&& a.contains('_') == b.contains('_') ==> occurrences(tokens, a) >= occurrences(
                tokens,
                b,
            )
            &&& a.contains('_') == b.contains('_') && occurrences(tokens, a) == occurrences(
                tokens,
                b,
            ) ==> text_le(a, b)
        }),
{
    let tokens = searchable_tokens(lines);
    let ranks = token_ranks(tokens);
    let s = sorted(ranks);
    crate::order::law_sorted_is_in_order(ranks);
    assert(s[i].at_most(s[j]));
    lemma_ranks_tell(tokens, s[i]);
    lemma_ranks_tell(tokens, s[j]);
}

proof fn lemma_ranks_tell(tokens: Seq<Seq<char>>, r: TokenRank)
    requires
        sorted(token_ranks(tokens)).contains(r),
    ensures
        r.plain == !r.name.contains('_'),
        r.count == occurrences(tokens, r.name),
{
    let ranks = token_ranks(tokens);
    let s = sorted(ranks);
    crate::order::law_sorted_keeps_items(ranks);
    ranks.to_multiset_ensures();
    s.to_multiset_ensures();
    assert(s.to_multiset().contains(r));
    assert(ranks.to_multiset().contains(r));
    assert(ranks.contains(r));
}

/// How often an identifier occurs.
pub proof fn law_occurrences_are_counted(tokens: Seq<Seq<char>>, t: Seq<char>, other: Seq<char>)
    ensures
        occurrences(Seq::empty(), t) == 0,
        occurrences(tokens.push(t), t) == occurrences(tokens, t) + 1,
        other != t ==> occurrences(tokens.push(other), t) == occurrences(tokens, t),
{
    assert(tokens.push(t).drop_last() =~= tokens);
    assert(tokens.push(other).drop_last() =~= tokens);
}

/// A line of Rust defines the name behind a keyword that defines something, if the name is
/// long enough.
pub proof fn law_names_behind_keywords_are_defined(tokens: Seq<Seq<char>>, n: int, i: int)
    requires
        0 <= i < n <= tokens.len(),
        i + 1 < tokens.len(),
        stable(tokens[i + 1]),
        tokens[i] == "fn"@ || tokens[i] == "struct"@ || tokens[i] == "enum"@ || tokens[i]
            == "trait"@ || tokens[i] == "type"@ || tokens[i] == "const"@ || tokens[i] == "static"@
            || tokens[i] == "mod"@,
    ensures
        defined_names(tokens, n).contains(tokens[i + 1]),
    decreases n,
{
    let words = rust_keywords();
    assert(words[0] == "fn"@ && words[1] == "struct"@ && words[2] == "enum"@ && words[3]
        == "trait"@ && words[4] == "type"@ && words[5] == "const"@ && words[6] == "static"@
        && words[7] == "mod"@);
    assert(words.contains(tokens[i]));
    let all = defined_names(tokens, n);
    if i == n - 1 {
        assert(all[all.len() - 1] == tokens[i + 1]);
    } else {
        law_names_behind_keywords_are_defined(tokens, n - 1, i);
        let rest = defined_names(tokens, n - 1);
        let k = choose|k: int| 0 <= k < rest.len() && rest[k] == tokens[i + 1];
        assert(all[k] == tokens[i + 1]);
    }
}

/// What removed lines offer: of Rust the names that they define, each once and in order; of
/// anything else what the text offers.
pub proof fn law_deleted_symbols(path: Seq<char>, lines: Seq<(usize, Seq<char>)>, t: Seq<char>)
    ensures
        !".rs"@.is_suffix_of(path) ==> deleted_symbols(path, lines) == text_symbols(lines),
        ".rs"@.is_suffix_of(path) ==> (deleted_symbols(path, lines).contains(t)
            <==> names_defined_on(lines).contains(t)),
        ".rs"@.is_suffix_of(path) ==> crate::order::in_order(deleted_symbols(path, lines)),
{
    if ".rs"@.is_suffix_of(path) {
        crate::order::law_ordered_set(names_defined_on(lines));
        assert(crate::order::ordered_set(names_defined_on(lines)) == deleted_symbols(path, lines));
    }
}

/// The names that lines define are those of each line, line by line.
pub proof fn law_defined_names_of_lines(
    a: Seq<(usize, Seq<char>)>,
    b: Seq<(usize, Seq<char>)>,
    line: (usize, Seq<char>),
)
    ensures
        names_defined_on(a + b) == names_defined_on(a) + names_defined_on(b),
        names_defined_on(seq![line]) == defined_names(
            identifiers_of(line.1),
            identifiers_of(line.1).len() as int,
        ),
    decreases b.len(),
{
    assert(seq![line].drop_last() =~= Seq::empty());
    reveal_with_fuel(names_defined_on, 2);
    assert(names_defined_on(seq![line]) =~= defined_names(
        identifiers_of(line.1),
        identifiers_of(line.1).len() as int,
    ));
    if b.len() == 0 {
        assert(a + b =~= a);
        assert(names_defined_on(a) + names_defined_on(b) =~= names_defined_on(a));
    } else {
        assert((a + b).drop_last() =~= a + b.drop_last());
        law_defined_names_of_lines(a, b.drop_last(), line);
        assert(names_defined_on(a + b) =~= names_defined_on(a) + names_defined_on(b));
    }
}

/// A definition whose rows meet a changed line is found by its name; its rows are counted
/// from zero, lines from one.
pub proof fn law_touched_definitions_are_found(node: SyntaxView, lines: Seq<usize>, k: int)
    requires
        0 <= k < lines.len(),
        node.name is Some,
        stable(node.name->0),
        node.start_row < lines[k],
        lines[k] <= node.end_row + 1,
        node.kind == "function_item"@ || node.kind == "struct_item"@ || node.kind
            == "enum_item"@ || node.kind == "trait_item"@ || node.kind == "type_item"@
            || node.kind == "const_item"@ || node.kind == "static_item"@ || node.kind
            == "mod_item"@ || node.kind == "macro_definition"@,
    ensures
        definitions(node, lines).contains(node.name->0),
        tree_symbols(Some(node), lines).contains(node.name->0),
{
    let kinds = definition_kinds();
    assert(kinds[0] == "function_item"@ && kinds[1] == "struct_item"@ && kinds[2]
        == "enum_item"@ && kinds[3] == "trait_item"@ && kinds[4] == "type_item"@ && kinds[5]
        == "const_item"@ && kinds[6] == "static_item"@ && kinds[7] == "mod_item"@ && kinds[8]
        == "macro_definition"@);
    assert(kinds.contains(node.kind));
    assert(node.start_row + 1 <= lines[k] <= node.end_row + 1);
    assert(touched(node, lines));
    assert(definitions(node, lines)[0] == node.name->0);
    let found = definitions(node, lines);
    crate::list::law_distinct(found);
    assert(found.contains(node.name->0));
    assert(distinct(found).contains(node.name->0));
}

/// What is found in a part of a tree is found in the tree.
pub proof fn law_inner_definitions_are_found(
    node: SyntaxView,
    lines: Seq<usize>,
    i: int,
    name: Seq<char>,
)
    requires
        0 <= i < node.children.len(),
        definitions(node.children[i], lines).contains(name),
    ensures
        definitions(node, lines).contains(name),
{
    let n = node.children.len() as int;
    lemma_found_upto(node.children, lines, n, i, name);
    let inner = definitions_upto(node.children, lines, n);
    let k = choose|k: int| 0 <= k < inner.len() && inner[k] == name;
    let own = own_definition(node, lines);
    assert(definitions(node, lines)[own.len() + k] == name);
}

proof fn lemma_found_upto(
    nodes: Seq<SyntaxView>,
    lines: Seq<usize>,
    n: int,
    i: int,
    name: Seq<char>,
)
    requires
        0 <= i < n <= nodes.len(),
        definitions(nodes[i], lines).contains(name),
    ensures
        definitions_upto(nodes, lines, n).contains(name),
    decreases n,
{
    let head = definitions_upto(nodes, lines, n - 1);
    let last = definitions(nodes[n - 1], lines);
    if i == n - 1 {
        let k = choose|k: int| 0 <= k < last.len() && last[k] == name;
        assert((head + last)[head.len() + k] == name);
    } else {
        lemma_found_upto(nodes, lines, n - 1, i, name);
        let k = choose|k: int| 0 <= k < head.len() && head[k] == name;
        assert((head + last)[k] == name);
    }
}

/// Where no line changed, nothing is found.
pub proof fn law_unchanged_trees_define_nothing(node: SyntaxView)
    ensures
        definitions(node, Seq::empty()).len() == 0,
    decreases node, node.children.len() + 1,
{
    lemma_unchanged_upto(node.children, node.children.len() as int);
    assert(own_definition(node, Seq::empty()).len() == 0);
}

proof fn lemma_unchanged_upto(nodes: Seq<SyntaxView>, n: int)
    requires
        0 <= n <= nodes.len(),
    ensures
        definitions_upto(nodes, Seq::empty(), n).len() == 0,
    decreases nodes, n,
{
    if n > 0 {
        lemma_unchanged_upto(nodes, n - 1);
        law_unchanged_trees_define_nothing(nodes[n - 1]);
    }
}

} // verus!
