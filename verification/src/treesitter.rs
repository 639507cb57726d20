//! The boundary to the tree-sitter parser: the grammars, the parser, and the
//! conversion of the syntax tree it builds into a `SyntaxNode`.
//!
//! A node of a tree-sitter tree is identified by the source and language the
//! tree was parsed from and by its path: the child indices that lead to it
//! from the root. What tree-sitter reports about a node is named as a function
//! of these three values.
use vstd::prelude::*;
use crate::language::SourceLanguage;
use crate::syntax::{SyntaxNode, Field, FieldChildren, field_label, well_formed, same_shape, rows_inside, rows_follow};

verus! {

/// `Node::kind` of the node at `path`.
pub uninterp spec fn ts_kind(source: Seq<u8>, language: SourceLanguage, path: Seq<nat>) -> Seq<char>;

/// `Node::start_position` of the node at `path`, as (row, column).
pub uninterp spec fn ts_start_position(source: Seq<u8>, language: SourceLanguage, path: Seq<nat>) -> (
    usize,
    usize,
);

/// `Node::end_position` of the node at `path`, as (row, column).
pub uninterp spec fn ts_end_position(source: Seq<u8>, language: SourceLanguage, path: Seq<nat>) -> (
    usize,
    usize,
);

/// `Node::start_byte` of the node at `path`.
pub uninterp spec fn ts_start_byte(source: Seq<u8>, language: SourceLanguage, path: Seq<nat>) -> usize;

/// `Node::end_byte` of the node at `path`.
pub uninterp spec fn ts_end_byte(source: Seq<u8>, language: SourceLanguage, path: Seq<nat>) -> usize;

/// `Node::child_count` of the node at `path`.
pub uninterp spec fn ts_child_count(source: Seq<u8>, language: SourceLanguage, path: Seq<nat>) -> usize;


/// `Node::descendant_count` of the node at `path`: the number of nodes in its
/// subtree, itself included.
pub uninterp spec fn ts_descendant_count(source: Seq<u8>, language: SourceLanguage, path: Seq<nat>) -> usize;

/// `Node::child_by_field_name` on the node at `path`: the path of the node it
/// hands back, if any.
pub uninterp spec fn ts_field_child(
    source: Seq<u8>,
    language: SourceLanguage,
    path: Seq<nat>,
    field: Seq<char>,
) -> Option<Seq<nat>>;

/// A tree-sitter grammar, with the language it parses.
pub struct Grammar {
    grammar: tree_sitter::Language,
    language: Ghost<SourceLanguage>,
}

impl View for Grammar {
    type V = SourceLanguage;

    closed spec fn view(&self) -> SourceLanguage {
        self.language@
    }
}

/// A tree-sitter parser, with the language it has been set to, if any.
pub struct SourceParser {
    parser: tree_sitter::Parser,
    language: Ghost<Option<SourceLanguage>>,
}

impl View for SourceParser {
    type V = Option<SourceLanguage>;

    closed spec fn view(&self) -> Option<SourceLanguage> {
        self.language@
    }
}

/// A tree-sitter syntax tree, with the source and language it was parsed from.
pub struct SourceTree {
    tree: tree_sitter::Tree,
    source: Ghost<Seq<u8>>,
    language: Ghost<SourceLanguage>,
}

impl View for SourceTree {
    type V = (Seq<u8>, SourceLanguage);

    closed spec fn view(&self) -> (Seq<u8>, SourceLanguage) {
        (self.source@, self.language@)
    }
}

/// A node of a tree-sitter tree, with the tree it belongs to and its path.
pub struct TreeNode<'t> {
    node: tree_sitter::Node<'t>,
    tree: &'t SourceTree,
    path: Ghost<Seq<nat>>,
}

impl<'t> View for TreeNode<'t> {
    type V = (Seq<u8>, SourceLanguage, Seq<nat>);

    closed spec fn view(&self) -> (Seq<u8>, SourceLanguage, Seq<nat>) {
        (self.tree@.0, self.tree@.1, self.path@)
    }
}

impl<'t> TreeNode<'t> {
    /// Whether two nodes belong to the same tree.
    pub closed spec fn same_tree(&self, other: &TreeNode<'t>) -> bool {
        self.tree == other.tree
    }
}

/// `tree_sitter_python::LANGUAGE`, converted into a `tree_sitter::Language`.
/// Claimed: the grammar parses Python.
#[verifier::external_body]
fn python_grammar() -> (g: Grammar)
    ensures
        g@ == SourceLanguage::Python,
{
    Grammar { grammar: tree_sitter_python::LANGUAGE.into(), language: Ghost(SourceLanguage::Python) }
}

/// `tree_sitter_javascript::LANGUAGE`, converted into a `tree_sitter::Language`.
/// Claimed: the grammar parses JavaScript.
#[verifier::external_body]
fn javascript_grammar() -> (g: Grammar)
    ensures
        g@ == SourceLanguage::JavaScript,
{
    Grammar {
        grammar: tree_sitter_javascript::LANGUAGE.into(),
        language: Ghost(SourceLanguage::JavaScript),
    }
}

/// `tree_sitter_typescript::LANGUAGE_TYPESCRIPT`, converted into a
/// `tree_sitter::Language`. Claimed: the grammar parses TypeScript.
#[verifier::external_body]
fn typescript_grammar() -> (g: Grammar)
    ensures
        g@ == SourceLanguage::TypeScript,
{
    Grammar {
        grammar: tree_sitter_typescript::LANGUAGE_TYPESCRIPT.into(),
        language: Ghost(SourceLanguage::TypeScript),
    }
}

/// `tree_sitter_typescript::LANGUAGE_TSX`, converted into a
/// `tree_sitter::Language`. Claimed: the grammar parses TSX.
#[verifier::external_body]
fn tsx_grammar() -> (g: Grammar)
    ensures
        g@ == SourceLanguage::Tsx,
{
    Grammar {
        grammar: tree_sitter_typescript::LANGUAGE_TSX.into(),
        language: Ghost(SourceLanguage::Tsx),
    }
}

/// `tree_sitter_rust::LANGUAGE`, converted into a `tree_sitter::Language`.
/// Claimed: the grammar parses Rust.
#[verifier::external_body]
fn rust_grammar() -> (g: Grammar)
    ensures
        g@ == SourceLanguage::Rust,
{
    Grammar { grammar: tree_sitter_rust::LANGUAGE.into(), language: Ghost(SourceLanguage::Rust) }
}

/// `tree_sitter_c_sharp::LANGUAGE`, converted into a `tree_sitter::Language`.
/// Claimed: the grammar parses C#.
#[verifier::external_body]
fn csharp_grammar() -> (g: Grammar)
    ensures
        g@ == SourceLanguage::CSharp,
{
    Grammar {
        grammar: tree_sitter_c_sharp::LANGUAGE.into(),
        language: Ghost(SourceLanguage::CSharp),
    }
}

/// The tree-sitter grammar for a language.
pub fn grammar_for(language: SourceLanguage) -> (g: Grammar)
    ensures
        g@ == language,
{
    match language {
        SourceLanguage::Python => python_grammar(),
        SourceLanguage::JavaScript => javascript_grammar(),
        SourceLanguage::TypeScript => typescript_grammar(),
        SourceLanguage::Tsx => tsx_grammar(),
        SourceLanguage::Rust => rust_grammar(),
        SourceLanguage::CSharp => csharp_grammar(),
    }
}

/// `tree_sitter::Parser::new`. Claimed: the new parser has no language.
#[verifier::external_body]
fn new_parser() -> (p: SourceParser)
    ensures
        p@ is None,
{
    SourceParser { parser: tree_sitter::Parser::new(), language: Ghost(None) }
}

/// `Parser::set_language`. Claimed: it succeeds, and the parser then parses
/// the grammar's language. It accepts every grammar whose ABI version lies in
/// 13..=15, and the six grammars a `Grammar` can hold are built for ABI 14 or 15.
#[verifier::external_body]
fn set_language(p: &mut SourceParser, g: &Grammar) -> (r: Result<(), tree_sitter::LanguageError>)
    ensures
        r is Ok,
        r is Ok ==> final(p)@ == Some(g@),
        r is Err ==> final(p)@ == old(p)@,
{
    match p.parser.set_language(&g.grammar) {
        Ok(()) => {
            p.language = Ghost(Some(g.language@));
            Ok(())
        },
        Err(e) => Err(e),
    }
}

/// `Parser::parse` on the whole source, with no earlier tree. Claimed: a tree
/// is returned, and it is the tree of `source` in the parser's language.
/// `Parser::parse` returns no tree only when no language is set, a timeout ran
/// out or a cancellation flag was flipped (or a wasm scanner failed); a
/// `SourceParser` has a language here, never sets a timeout or a cancellation
/// flag, and holds only native grammars.
#[verifier::external_body]
fn parse(p: &mut SourceParser, source: &[u8]) -> (r: Option<SourceTree>)
    requires
        old(p)@ is Some,
    ensures
        r is Some,
        final(p)@ == old(p)@,
        r matches Some(t) ==> t@ == (source@, old(p)@->0),
{
    match p.parser.parse(source, None) {
        Some(tree) => Some(
            SourceTree { tree, source: Ghost(source@), language: Ghost(p.language@->0) },
        ),
        None => None,
    }
}

/// `Tree::root_node`. Claimed: the node at the empty path.
#[verifier::external_body]
fn root_node<'t>(t: &'t SourceTree) -> (n: TreeNode<'t>)
    ensures
        n@ == (t@.0, t@.1, Seq::<nat>::empty()),
{
    TreeNode { node: t.tree.root_node(), tree: t, path: Ghost(Seq::empty()) }
}

/// `Node::kind`. Claimed: `ts_kind` of the node.
#[verifier::external_body]
fn node_kind(n: &TreeNode) -> (k: String)
    ensures
        k@ == ts_kind(n@.0, n@.1, n@.2),
{
    n.node.kind().to_string()
}

/// `Node::start_position`, as (row, column). Claimed: `ts_start_position` of
/// the node; and, for a source shorter than `u32::MAX` bytes (tree-sitter
/// counts in `u32`), a row no larger than the start byte, since the lexer
/// moves to the next row only on a `'\n'`, which takes a byte of its own.
#[verifier::external_body]
fn start_position(n: &TreeNode) -> (p: (usize, usize))
    ensures
        p == ts_start_position(n@.0, n@.1, n@.2),
        n@.0.len() < u32::MAX ==> p.0 <= ts_start_byte(n@.0, n@.1, n@.2),
{
    let point = n.node.start_position();
    (point.row, point.column)
}

/// `Node::end_position`, as (row, column). Claimed: `ts_end_position` of the
/// node; and, for a source shorter than `u32::MAX` bytes, a row no smaller
/// than the start row (the end is the start plus the node's extent) and no
/// larger than the end byte (the row advances only on a `'\n'` byte).
#[verifier::external_body]
fn end_position(n: &TreeNode) -> (p: (usize, usize))
    ensures
        p == ts_end_position(n@.0, n@.1, n@.2),
        n@.0.len() < u32::MAX ==> ts_start_position(n@.0, n@.1, n@.2).0 <= p.0 <= ts_end_byte(
            n@.0,
            n@.1,
            n@.2,
        ),
{
    let point = n.node.end_position();
    (point.row, point.column)
}

/// `Node::start_byte`. Claimed: `ts_start_byte` of the node; and, for a
/// source shorter than `u32::MAX` bytes, no larger than the end byte (the end
/// is the start plus the node's size).
#[verifier::external_body]
fn start_byte(n: &TreeNode) -> (b: usize)
    ensures
        b == ts_start_byte(n@.0, n@.1, n@.2),
        n@.0.len() < u32::MAX ==> b <= ts_end_byte(n@.0, n@.1, n@.2),
{
    n.node.start_byte()
}

/// `Node::end_byte`. Claimed: `ts_end_byte` of the node; and, for a source
/// shorter than `u32::MAX` bytes, within the source, since every node lies
/// within the root, which ends where the lexer stopped: at the end of input.
#[verifier::external_body]
fn end_byte(n: &TreeNode) -> (b: usize)
    ensures
        b == ts_end_byte(n@.0, n@.1, n@.2),
        n@.0.len() < u32::MAX ==> b <= n@.0.len(),
{
    n.node.end_byte()
}

/// `Node::child_count`. Claimed: `ts_child_count` of the node.
#[verifier::external_body]
fn child_count(n: &TreeNode) -> (c: usize)
    ensures
        c == ts_child_count(n@.0, n@.1, n@.2),
{
    n.node.child_count()
}

/// `Node::descendant_count`. Claimed: `ts_descendant_count` of the node.
#[verifier::external_body]
fn descendant_count(n: &TreeNode) -> (c: usize)
    ensures
        c == ts_descendant_count(n@.0, n@.1, n@.2),
{
    n.node.descendant_count()
}

/// `Node::child`, for an index below `Node::child_count` (the binding cuts the
/// index to `u32`, which such an index fits). Claimed: a node is returned (the
/// count is the number of children `ts_node_child` walks); it is the `i`-th
/// child, of the same tree, and (being one of the node's descendants) has a
/// smaller descendant count than the node. For a source shorter than
/// `u32::MAX` bytes, its rows lie within the node's and it starts no earlier
/// than the row its predecessor ends on: children are laid out in order from
/// the node's start, each position the previous one plus a length, and the
/// node's size is the sum of theirs.
#[verifier::external_body]
fn child<'t>(n: &TreeNode<'t>, i: usize) -> (r: Option<TreeNode<'t>>)
    requires
        i < ts_child_count(n@.0, n@.1, n@.2),
    ensures
        r is Some,
        r matches Some(c) ==> {
            &&& c@ == (n@.0, n@.1, n@.2.push(i as nat))
            &&& c.same_tree(n)
            &&& ts_descendant_count(c@.0, c@.1, c@.2) < ts_descendant_count(n@.0, n@.1, n@.2)
        },
        r matches Some(c) ==> (n@.0.len() < u32::MAX ==> {
            &&& ts_start_position(n@.0, n@.1, n@.2).0 <= ts_start_position(c@.0, c@.1, c@.2).0
            &&& ts_end_position(c@.0, c@.1, c@.2).0 <= ts_end_position(n@.0, n@.1, n@.2).0
            &&& i > 0 ==> ts_end_position(n@.0, n@.1, n@.2.push((i - 1) as nat)).0 <= ts_start_position(
                c@.0,
                c@.1,
                c@.2,
            ).0
        }),
{
    match n.node.child(i) {
        Some(c) => Some(TreeNode { node: c, tree: n.tree, path: Ghost(n.path@.push(i as nat)) }),
        None => None,
    }
}

/// `Node::child_by_field_name`. Claimed: a node is returned exactly when
/// `ts_field_child` names one, and it is that node, of the same tree.
#[verifier::external_body]
fn child_by_field_name<'t>(n: &TreeNode<'t>, field: &str) -> (r: Option<TreeNode<'t>>)
    ensures
        r is Some <==> ts_field_child(n@.0, n@.1, n@.2, field@) is Some,
        r matches Some(c) ==> {
            &&& ts_field_child(n@.0, n@.1, n@.2, field@) == Some(c@.2)
            &&& c@.0 == n@.0
            &&& c@.1 == n@.1
            &&& c.same_tree(n)
        },
{
    match n.node.child_by_field_name(field) {
        Some(c) => Some(
            TreeNode {
                node: c,
                tree: n.tree,
                path: Ghost(ts_field_child(n.tree@.0, n.tree@.1, n.path@, field@)->0),
            },
        ),
        None => None,
    }
}

/// `==` on `Node`, which compares node ids. Claimed: for two nodes of one
/// tree, true exactly when they are the same node, since no two nodes of a
/// tree share an id.
#[verifier::external_body]
fn same_node(a: &TreeNode, b: &TreeNode) -> (r: bool)
    requires
        a.same_tree(b),
    ensures
        r == (a@ == b@),
{
    a.node == b.node
}

/// Whether a recorded field child agrees with `child_by_field_name`.
pub open spec fn field_matches(
    index: Option<usize>,
    source: Seq<u8>,
    language: SourceLanguage,
    path: Seq<nat>,
    label: Seq<char>,
) -> bool {
    match ts_field_child(source, language, path, label) {
        None => index is None,
        Some(p) => index matches Some(j) && p == path.push(j as nat),
    }
}

/// `t` holds what tree-sitter reports about the node at `path` of the tree of
/// `source` in `language`, and about all the nodes below it.
pub open spec fn mirrors(t: SyntaxNode, source: Seq<u8>, language: SourceLanguage, path: Seq<nat>) -> bool
    decreases t,
{
    &&& t.kind@ == ts_kind(source, language, path)
    &&& t.start_row == ts_start_position(source, language, path).0
    &&& t.end_row == ts_end_position(source, language, path).0
    &&& t.start_byte == ts_start_byte(source, language, path)
    &&& t.end_byte == ts_end_byte(source, language, path)
    &&& t.children@.len() == ts_child_count(source, language, path)
    &&& forall|f: Field|
        field_matches(#[trigger] t.fields.get(f), source, language, path, field_label(f))
    &&& forall|i: int|
        0 <= i < t.children@.len() ==> mirrors(
            #[trigger] t.children@[i],
            source,
            language,
            path.push(i as nat),
        )
}

/// Every node that `Node::child_by_field_name` hands back in the tree of
/// `source` in `language` is one of the children of the node it was asked of.
pub open spec fn fields_within_children(source: Seq<u8>, language: SourceLanguage) -> bool {
    forall|path: Seq<nat>, label: Seq<char>| #[trigger]
        ts_field_child(source, language, path, label) is Some ==> exists|j: int|
            0 <= j < ts_child_count(source, language, path) && ts_field_child(source, language, path, label)->0
                == #[trigger] path.push(j as nat)
}

/// Tree-sitter's tree has, at `path`, a subtree that a `SyntaxNode` well formed
/// for a source of `src_len` bytes can hold.
pub open spec fn has_tree(source: Seq<u8>, language: SourceLanguage, path: Seq<nat>, src_len: nat) -> bool {
    exists|t: SyntaxNode| mirrors(t, source, language, path) && well_formed(t, src_len)
}

/// No subtree can be held where one of its children's cannot.
proof fn lemma_no_tree_child_has_none(
    source: Seq<u8>,
    language: SourceLanguage,
    path: Seq<nat>,
    src_len: nat,
    i: nat,
)
    requires
        i < ts_child_count(source, language, path),
        !has_tree(source, language, path.push(i), src_len),
    ensures
        !has_tree(source, language, path, src_len),
{
    assert forall|t: SyntaxNode| !(mirrors(t, source, language, path) && well_formed(t, src_len)) by {
        if mirrors(t, source, language, path) && well_formed(t, src_len) {
            let c = t.children@[i as int];
            assert(mirrors(c, source, language, path.push(i)) && well_formed(c, src_len));
        }
    }
}

/// No subtree can be held where a child's rows reach outside the node's.
proof fn lemma_no_tree_rows_outside(
    source: Seq<u8>,
    language: SourceLanguage,
    path: Seq<nat>,
    src_len: nat,
    i: nat,
    c: SyntaxNode,
)
    requires
        i < ts_child_count(source, language, path),
        mirrors(c, source, language, path.push(i)),
        !(ts_start_position(source, language, path).0 <= c.start_row && c.end_row <= ts_end_position(
            source,
            language,
            path,
        ).0),
    ensures
        !has_tree(source, language, path, src_len),
{
    assert forall|t: SyntaxNode| !(mirrors(t, source, language, path) && well_formed(t, src_len)) by {
        if mirrors(t, source, language, path) && well_formed(t, src_len) {
            let d = t.children@[i as int];
            assert(mirrors(d, source, language, path.push(i)));
            assert(rows_inside(d, t));
            assert(d.start_row == c.start_row && d.end_row == c.end_row);
        }
    }
}

/// No subtree can be held where a child starts before its predecessor ends.
proof fn lemma_no_tree_rows_unordered(
    source: Seq<u8>,
    language: SourceLanguage,
    path: Seq<nat>,
    src_len: nat,
    i: nat,
    prev: SyntaxNode,
    c: SyntaxNode,
)
    requires
        0 < i < ts_child_count(source, language, path),
        mirrors(prev, source, language, path.push((i - 1) as nat)),
        mirrors(c, source, language, path.push(i)),
        prev.end_row > c.start_row,
    ensures
        !has_tree(source, language, path, src_len),
{
    assert forall|t: SyntaxNode| !(mirrors(t, source, language, path) && well_formed(t, src_len)) by {
        if mirrors(t, source, language, path) && well_formed(t, src_len) {
            let ii = i as int;
            let d = t.children@[ii];
            let e = t.children@[ii - 1];
            assert(mirrors(d, source, language, path.push(ii as nat)));
            assert(mirrors(e, source, language, path.push((ii - 1) as nat)));
            assert(rows_follow(e, d));
        }
    }
}

/// No subtree can be held where `child_by_field_name` hands back a node that is
/// not one of the node's children.
proof fn lemma_no_tree_field_elsewhere(
    source: Seq<u8>,
    language: SourceLanguage,
    path: Seq<nat>,
    src_len: nat,
    f: Field,
)
    requires
        ts_field_child(source, language, path, field_label(f)) is Some,
        forall|k: int|
            0 <= k < ts_child_count(source, language, path) ==> ts_field_child(
                source,
                language,
                path,
                field_label(f),
            )->0 != #[trigger] path.push(k as nat),
    ensures
        !has_tree(source, language, path, src_len),
        !fields_within_children(source, language),
{
    let label = field_label(f);
    if fields_within_children(source, language) {
        assert(ts_field_child(source, language, path, label) is Some);
        let j = choose|j: int|
            0 <= j < ts_child_count(source, language, path) && ts_field_child(source, language, path, label)->0
                == #[trigger] path.push(j as nat);
        assert(ts_field_child(source, language, path, label)->0 != path.push(j as nat));
    }
    assert forall|t: SyntaxNode| !(mirrors(t, source, language, path) && well_formed(t, src_len)) by {
        if mirrors(t, source, language, path) && well_formed(t, src_len) {
            assert(field_matches(t.fields.get(f), source, language, path, field_label(f)));
            let j = t.fields.get(f)->0;
            let q = ts_field_child(source, language, path, field_label(f))->0;
            assert(j < t.children@.len());
            assert(q == path.push(j as nat));
            let jj = j as int;
            assert(0 <= jj < ts_child_count(source, language, path));
            assert(q != path.push(jj as nat));
        }
    }
}

/// The child index of the node `child_by_field_name` hands back for `field`:
/// `Some(None)` when there is none, `None` when it is not among `handles`.
fn field_index<'t>(n: &TreeNode<'t>, handles: &Vec<TreeNode<'t>>, field: &str) -> (r: Option<
    Option<usize>,
>)
    requires
        forall|k: int|
            0 <= k < handles@.len() ==> {
                &&& (#[trigger] handles@[k])@ == (n@.0, n@.1, n@.2.push(k as nat))
                &&& handles@[k].same_tree(n)
            },
    ensures
        r matches Some(ix) ==> {
            &&& field_matches(ix, n@.0, n@.1, n@.2, field@)
            &&& ix matches Some(j) ==> j < handles@.len()
        },
        r is None <==> (ts_field_child(n@.0, n@.1, n@.2, field@) matches Some(q) && forall|k: int|
            0 <= k < handles@.len() ==> q != #[trigger] n@.2.push(k as nat)),
{
    match child_by_field_name(n, field) {
        None => Some(None),
        Some(f) => {
            let mut j: usize = 0;
            while j < handles.len()
                invariant
                    j <= handles@.len(),
                    f.same_tree(n),
                    f@.0 == n@.0 && f@.1 == n@.1,
                    ts_field_child(n@.0, n@.1, n@.2, field@) == Some(f@.2),
                    forall|k: int| 0 <= k < j ==> f@.2 != #[trigger] n@.2.push(k as nat),
                    forall|k: int|
                        0 <= k < handles@.len() ==> {
                            &&& (#[trigger] handles@[k])@ == (n@.0, n@.1, n@.2.push(k as nat))
                            &&& handles@[k].same_tree(n)
                        },
                decreases handles@.len() - j,
            {
                let h = &handles[j];
                assert(f.same_tree(h)) by {
                    reveal(TreeNode::same_tree);
                }
                if same_node(&f, h) {
                    return Some(Some(j));
                }
                assert(f@.2 != n@.2.push(j as nat));
                j = j + 1;
            }
            None
        },
    }
}

/// The `SyntaxNode` of the subtree at `n`; `None` when a field child is not
/// among the node's children, or when the subtree is not well formed for a
/// source of `src_len` bytes.
fn convert_node<'t>(n: &TreeNode<'t>, fuel: usize, src_len: usize) -> (r: Option<SyntaxNode>)
    requires
        fuel == ts_descendant_count(n@.0, n@.1, n@.2),
    ensures
        r matches Some(t) ==> mirrors(t, n@.0, n@.1, n@.2) && well_formed(t, src_len as nat),
        r is None ==> !has_tree(n@.0, n@.1, n@.2, src_len as nat),
        src_len == n@.0.len() < u32::MAX && fields_within_children(n@.0, n@.1) ==> r is Some,
    decreases fuel,
{
    let kind = node_kind(n);
    let (start_row, _) = start_position(n);
    let (end_row, _) = end_position(n);
    let start = start_byte(n);
    let end = end_byte(n);
    if !(start_row < usize::MAX && end_row < usize::MAX && start_row <= end_row && start <= end && end
        <= src_len) {
        proof {
            assert forall|t: SyntaxNode|
                !(mirrors(t, n@.0, n@.1, n@.2) && well_formed(t, src_len as nat)) by {
                if mirrors(t, n@.0, n@.1, n@.2) && well_formed(t, src_len as nat) {
                    assert(t.start_row == start_row && t.end_row == end_row);
                }
            }
        }
        return None;
    }
    let count = child_count(n);
    let mut children: Vec<SyntaxNode> = Vec::new();
    let mut handles: Vec<TreeNode<'t>> = Vec::new();
    let mut i: usize = 0;
    while i < count
        invariant
            i <= count,
            count == ts_child_count(n@.0, n@.1, n@.2),
            fuel == ts_descendant_count(n@.0, n@.1, n@.2),
            children@.len() == i,
            handles@.len() == i,
            start_row == ts_start_position(n@.0, n@.1, n@.2).0,
            end_row == ts_end_position(n@.0, n@.1, n@.2).0,
            forall|k: int|
                0 <= k < i ==> {
                    &&& mirrors(#[trigger] children@[k], n@.0, n@.1, n@.2.push(k as nat))
                    &&& well_formed(children@[k], src_len as nat)
                    &&& start_row <= children@[k].start_row
                    &&& children@[k].end_row <= end_row
                },
            forall|k: int| 0 < k < i ==> rows_follow(children@[k - 1], #[trigger] children@[k]),
            src_len == n@.0.len() < u32::MAX ==> start_row <= end_row <= end <= src_len,
            forall|k: int|
                0 <= k < i ==> {
                    &&& (#[trigger] handles@[k])@ == (n@.0, n@.1, n@.2.push(k as nat))
                    &&& handles@[k].same_tree(n)
                },
        decreases count - i,
    {
        let c = child(n, i).unwrap();
        let child_fuel = descendant_count(&c);
        let t = match convert_node(&c, child_fuel, src_len) {
            Some(t) => t,
            None => {
                proof {
                    lemma_no_tree_child_has_none(n@.0, n@.1, n@.2, src_len as nat, i as nat);
                }
                return None;
            },
        };
        if !(start_row <= t.start_row && t.end_row <= end_row) {
            proof {
                lemma_no_tree_rows_outside(n@.0, n@.1, n@.2, src_len as nat, i as nat, t);
            }
            return None;
        }
        if i > 0 && children[i - 1].end_row > t.start_row {
            proof {
                let prev = (i - 1) as int;
                assert(mirrors(children@[prev], n@.0, n@.1, n@.2.push(prev as nat)));
                lemma_no_tree_rows_unordered(n@.0, n@.1, n@.2, src_len as nat, i as nat, children@[i - 1], t);
            }
            return None;
        }
        children.push(t);
        handles.push(c);
        i = i + 1;
    }
    let name = match field_index(n, &handles, "name") {
        Some(x) => x,
        None => {
            proof {
                lemma_no_tree_field_elsewhere(n@.0, n@.1, n@.2, src_len as nat, Field::Name);
            }
            return None;
        },
    };
    let module_name = match field_index(n, &handles, "module_name") {
        Some(x) => x,
        None => {
            proof {
                lemma_no_tree_field_elsewhere(n@.0, n@.1, n@.2, src_len as nat, Field::ModuleName);
            }
            return None;
        },
    };
    let function = match field_index(n, &handles, "function") {
        Some(x) => x,
        None => {
            proof {
                lemma_no_tree_field_elsewhere(n@.0, n@.1, n@.2, src_len as nat, Field::Function);
            }
            return None;
        },
    };
    let attribute = match field_index(n, &handles, "attribute") {
        Some(x) => x,
        None => {
            proof {
                lemma_no_tree_field_elsewhere(n@.0, n@.1, n@.2, src_len as nat, Field::Attribute);
            }
            return None;
        },
    };
    let parameters = match field_index(n, &handles, "parameters") {
        Some(x) => x,
        None => {
            proof {
                lemma_no_tree_field_elsewhere(n@.0, n@.1, n@.2, src_len as nat, Field::Parameters);
            }
            return None;
        },
    };
    let value = match field_index(n, &handles, "value") {
        Some(x) => x,
        None => {
            proof {
                lemma_no_tree_field_elsewhere(n@.0, n@.1, n@.2, src_len as nat, Field::Value);
            }
            return None;
        },
    };
    let source = match field_index(n, &handles, "source") {
        Some(x) => x,
        None => {
            proof {
                lemma_no_tree_field_elsewhere(n@.0, n@.1, n@.2, src_len as nat, Field::Source);
            }
            return None;
        },
    };
    let property = match field_index(n, &handles, "property") {
        Some(x) => x,
        None => {
            proof {
                lemma_no_tree_field_elsewhere(n@.0, n@.1, n@.2, src_len as nat, Field::Property);
            }
            return None;
        },
    };
    let type_ = match field_index(n, &handles, "type") {
        Some(x) => x,
        None => {
            proof {
                lemma_no_tree_field_elsewhere(n@.0, n@.1, n@.2, src_len as nat, Field::Type);
            }
            return None;
        },
    };
    let field = match field_index(n, &handles, "field") {
        Some(x) => x,
        None => {
            proof {
                lemma_no_tree_field_elsewhere(n@.0, n@.1, n@.2, src_len as nat, Field::FieldName);
            }
            return None;
        },
    };
    let macro_ = match field_index(n, &handles, "macro") {
        Some(x) => x,
        None => {
            proof {
                lemma_no_tree_field_elsewhere(n@.0, n@.1, n@.2, src_len as nat, Field::Macro);
            }
            return None;
        },
    };
    let return_type = match field_index(n, &handles, "return_type") {
        Some(x) => x,
        None => {
            proof {
                lemma_no_tree_field_elsewhere(n@.0, n@.1, n@.2, src_len as nat, Field::ReturnType);
            }
            return None;
        },
    };
    let returns_ = match field_index(n, &handles, "returns") {
        Some(x) => x,
        None => {
            proof {
                lemma_no_tree_field_elsewhere(n@.0, n@.1, n@.2, src_len as nat, Field::Returns);
            }
            return None;
        },
    };
    let fields = FieldChildren {
        name,
        module_name,
        function,
        attribute,
        parameters,
        value,
        source,
        property,
        type_,
        field,
        macro_,
        return_type,
        returns_,
    };
    let t = SyntaxNode {
        kind,
        start_row,
        end_row,
        start_byte: start,
        end_byte: end,
        fields,
        children,
    };
    assert forall|f: Field|
        field_matches(#[trigger] t.fields.get(f), n@.0, n@.1, n@.2, field_label(f)) by {
        match f {
            Field::Name => {},
            Field::ModuleName => {},
            Field::Function => {},
            Field::Attribute => {},
            Field::Parameters => {},
            Field::Value => {},
            Field::Source => {},
            Field::Property => {},
            Field::Type => {},
            Field::FieldName => {},
            Field::Macro => {},
            Field::ReturnType => {},
            Field::Returns => {},
        }
    }
    assert(forall|f: Field| #[trigger] t.fields.get(f) matches Some(j) ==> j < t.children@.len());
    Some(t)
}

/// Two trees that both hold what tree-sitter reports about the same node have
/// the same shape.
pub proof fn lemma_mirrors_same_shape(
    a: SyntaxNode,
    b: SyntaxNode,
    source: Seq<u8>,
    language: SourceLanguage,
    path: Seq<nat>,
)
    requires
        mirrors(a, source, language, path),
        mirrors(b, source, language, path),
    ensures
        same_shape(a, b),
    decreases a,
{
    assert forall|f: Field| #[trigger] a.fields.get(f) == b.fields.get(f) by {
        assert(field_matches(a.fields.get(f), source, language, path, field_label(f)));
        assert(field_matches(b.fields.get(f), source, language, path, field_label(f)));
        if let Some(q) = ts_field_child(source, language, path, field_label(f)) {
            let ja = a.fields.get(f)->0;
            let jb = b.fields.get(f)->0;
            assert(path.push(ja as nat)[path.len() as int] == ja as nat);
            assert(path.push(jb as nat)[path.len() as int] == jb as nat);
        }
    }
    assert(a.fields.get(Field::Name) == b.fields.get(Field::Name));
    assert(a.fields.get(Field::ModuleName) == b.fields.get(Field::ModuleName));
    assert(a.fields.get(Field::Function) == b.fields.get(Field::Function));
    assert(a.fields.get(Field::Attribute) == b.fields.get(Field::Attribute));
    assert(a.fields.get(Field::Parameters) == b.fields.get(Field::Parameters));
    assert(a.fields.get(Field::Value) == b.fields.get(Field::Value));
    assert(a.fields.get(Field::Source) == b.fields.get(Field::Source));
    assert(a.fields.get(Field::Property) == b.fields.get(Field::Property));
    assert(a.fields.get(Field::Type) == b.fields.get(Field::Type));
    assert(a.fields.get(Field::FieldName) == b.fields.get(Field::FieldName));
    assert(a.fields.get(Field::Macro) == b.fields.get(Field::Macro));
    assert(a.fields.get(Field::ReturnType) == b.fields.get(Field::ReturnType));
    assert(a.fields.get(Field::Returns) == b.fields.get(Field::Returns));
    assert forall|i: int| 0 <= i < a.children@.len() implies same_shape(
        #[trigger] a.children@[i],
        b.children@[i],
    ) by {
        lemma_mirrors_same_shape(a.children@[i], b.children@[i], source, language, path.push(i as nat));
    }
}

/// Why a source could not be turned into a syntax tree.
#[derive(Debug, Clone, Copy, PartialEq, Eq, Structural)]
pub enum ParseError {
    /// The parser refused the grammar (`Parser::set_language` failed); this
    /// does not happen with the grammars this library ships.
    IncompatibleGrammar,
    /// The parser returned no tree; this does not happen with the grammars
    /// this library ships.
    ParseFailed,
    /// The tree had a shape the converter does not accept: a field child that
    /// is not a child, a node outside the source or on a row too large to
    /// number, a node ending on an earlier row than it starts on, or a child
    /// reaching outside its parent's rows or starting before its predecessor
    /// ends. For a source shorter than `u32::MAX` bytes only the first can
    /// happen.
    MalformedTree,
}

/// The syntax tree tree-sitter builds for `source` in `language`, converted.
///
/// It succeeds exactly when a well-formed `SyntaxNode` can hold tree-sitter's
/// tree, and fails with `MalformedTree` otherwise; it succeeds on every source
/// shorter than `u32::MAX` bytes on which each node that `child_by_field_name`
/// hands back is a child of the node it was asked of.
pub fn syntax_tree(source: &[u8], language: SourceLanguage) -> (r: Result<SyntaxNode, ParseError>)
    ensures
        r matches Ok(t) ==> mirrors(t, source@, language, Seq::empty()) && well_formed(
            t,
            source@.len(),
        ),
        r is Ok <==> has_tree(source@, language, Seq::empty(), source@.len()),
        source@.len() < u32::MAX && fields_within_children(source@, language) ==> r is Ok,
        r is Err ==> r matches Err(ParseError::MalformedTree),
{
    let grammar = grammar_for(language);
    let mut parser = new_parser();
    match set_language(&mut parser, &grammar) {
        Ok(()) => {},
        Err(_) => {
            return Err(ParseError::IncompatibleGrammar);
        },
    }
    let tree = match parse(&mut parser, source) {
        Some(t) => t,
        None => {
            return Err(ParseError::ParseFailed);
        },
    };
    let root = root_node(&tree);
    let fuel = descendant_count(&root);
    match convert_node(&root, fuel, source.len()) {
        Some(t) => Ok(t),
        None => Err(ParseError::MalformedTree),
    }
}

} // verus!
