use vstd::prelude::*;
use vstd::utf8::*;
use crate::text::{decode_utf8_bytes, same_text};
use crate::model::shift_line;

verus! {

/// The grammar field names whose children the extractor reads.
#[derive(Clone, Copy, Debug, PartialEq, Eq, Structural)]
pub enum Field {
    Name,
    ModuleName,
    Function,
    Attribute,
    Parameters,
    Value,
    Source,
    Property,
    Type,
    FieldName,
    Macro,
    ReturnType,
    Returns,
}

/// The name of a field as the grammars spell it.
pub open spec fn field_label(f: Field) -> Seq<char> {
    match f {
        Field::Name => "name"@,
        Field::ModuleName => "module_name"@,
        Field::Function => "function"@,
        Field::Attribute => "attribute"@,
        Field::Parameters => "parameters"@,
        Field::Value => "value"@,
        Field::Source => "source"@,
        Field::Property => "property"@,
        Field::Type => "type"@,
        Field::FieldName => "field"@,
        Field::Macro => "macro"@,
        Field::ReturnType => "return_type"@,
        Field::Returns => "returns"@,
    }
}

/// For each field, the index among the node's children of the first child
/// with that field name, if there is one.
#[derive(Clone, Copy, Debug)]
pub struct FieldChildren {
    pub name: Option<usize>,
    pub module_name: Option<usize>,
    pub function: Option<usize>,
    pub attribute: Option<usize>,
    pub parameters: Option<usize>,
    pub value: Option<usize>,
    pub source: Option<usize>,
    pub property: Option<usize>,
    pub type_: Option<usize>,
    pub field: Option<usize>,
    pub macro_: Option<usize>,
    pub return_type: Option<usize>,
    pub returns_: Option<usize>,
}

impl FieldChildren {
    /// No field children at all.
    pub fn none() -> (r: FieldChildren)
        ensures
            forall|f: Field| #[trigger] r.get(f) is None,
    {
        FieldChildren {
            name: None,
            module_name: None,
            function: None,
            attribute: None,
            parameters: None,
            value: None,
            source: None,
            property: None,
            type_: None,
            field: None,
            macro_: None,
            return_type: None,
            returns_: None,
        }
    }

    pub open spec fn get(self, f: Field) -> Option<usize> {
        match f {
            Field::Name => self.name,
            Field::ModuleName => self.module_name,
            Field::Function => self.function,
            Field::Attribute => self.attribute,
            Field::Parameters => self.parameters,
            Field::Value => self.value,
            Field::Source => self.source,
            Field::Property => self.property,
            Field::Type => self.type_,
            Field::FieldName => self.field,
            Field::Macro => self.macro_,
            Field::ReturnType => self.return_type,
            Field::Returns => self.returns_,
        }
    }

    /// The child index recorded for field `f`.
    pub fn lookup(&self, f: Field) -> (r: Option<usize>)
        ensures
            r == self.get(f),
    {
        match f {
            Field::Name => self.name,
            Field::ModuleName => self.module_name,
            Field::Function => self.function,
            Field::Attribute => self.attribute,
            Field::Parameters => self.parameters,
            Field::Value => self.value,
            Field::Source => self.source,
            Field::Property => self.property,
            Field::Type => self.type_,
            Field::FieldName => self.field,
            Field::Macro => self.macro_,
            Field::ReturnType => self.return_type,
            Field::Returns => self.returns_,
        }
    }
}

/// A node of a concrete syntax tree: its kind, its position in the source
/// (rows counted from 0, byte offsets into the source), which of its children
/// carry the fields the extractor reads, and its children in order.
#[derive(Debug)]
pub struct SyntaxNode {
    pub kind: String,
    pub start_row: usize,
    pub end_row: usize,
    pub start_byte: usize,
    pub end_byte: usize,
    pub fields: FieldChildren,
    pub children: Vec<SyntaxNode>,
}

/// The tree is usable with a source of `src_len` bytes: byte ranges lie inside
/// the source, rows leave room for a one-based line number, a node ends on or
/// after the row it starts on, its children lie within its rows, each child
/// starts on or after the row its predecessor ends on, and every field refers
/// to an existing child.
pub open spec fn well_formed(node: SyntaxNode, src_len: nat) -> bool
    decreases node,
{
    &&& node.start_row < usize::MAX
    &&& node.end_row < usize::MAX
    &&& node.start_row <= node.end_row
    &&& forall|i: int|
        0 <= i < node.children@.len() ==> rows_inside(#[trigger] node.children@[i], node)
    &&& forall|i: int|
        0 < i < node.children@.len() ==> rows_follow(node.children@[i - 1], #[trigger] node.children@[i])
    &&& node.start_byte <= node.end_byte
    &&& node.end_byte <= src_len
    &&& forall|f: Field| #[trigger] node.fields.get(f) matches Some(j) ==> j < node.children@.len()
    &&& forall|i: int|
        0 <= i < node.children@.len() ==> well_formed(#[trigger] node.children@[i], src_len)
}

/// The rows of `inner` lie within those of `outer`.
pub open spec fn rows_inside(inner: SyntaxNode, outer: SyntaxNode) -> bool {
    outer.start_row <= inner.start_row && inner.end_row <= outer.end_row
}

/// `later` starts on or after the row on which `earlier` ends.
pub open spec fn rows_follow(earlier: SyntaxNode, later: SyntaxNode) -> bool {
    earlier.end_row <= later.start_row
}

/// The child carrying field `f`, if any.
pub open spec fn field_child(node: SyntaxNode, f: Field) -> Option<SyntaxNode> {
    match node.fields.get(f) {
        Some(j) => if j < node.children@.len() {
            Some(node.children@[j as int])
        } else {
            None
        },
        None => None,
    }
}

/// The text a node spans: its bytes decoded as UTF-8, or nothing when they are
/// not valid UTF-8.
pub open spec fn node_text(node: SyntaxNode, src: Seq<u8>) -> Seq<char> {
    let bytes = src.subrange(node.start_byte as int, node.end_byte as int);
    if valid_utf8(bytes) {
        decode_utf8(bytes)
    } else {
        Seq::empty()
    }
}

/// The text of the child carrying field `f`, or `default` when there is none.
pub open spec fn field_text_or(node: SyntaxNode, f: Field, src: Seq<u8>, default: Seq<char>) -> Seq<
    char,
> {
    match field_child(node, f) {
        Some(c) => node_text(c, src),
        None => default,
    }
}

/// One-based line on which a node starts.
pub open spec fn start_line(node: SyntaxNode) -> usize {
    (node.start_row + 1) as usize
}

/// One-based line on which a node ends.
pub open spec fn end_line(node: SyntaxNode) -> usize {
    (node.end_row + 1) as usize
}

impl SyntaxNode {
    /// Whether this node's kind is `k`.
    pub fn is_kind(&self, k: &str) -> (r: bool)
        ensures
            r == (self.kind@ == k@),
    {
        same_text(self.kind.as_str(), k)
    }

    /// The child carrying field `f`, if any.
    pub fn child_by_field(&self, f: Field) -> (r: Option<&SyntaxNode>)
        ensures
            match r {
                Some(c) => field_child(*self, f) == Some(*c),
                None => field_child(*self, f) is None,
            },
    {
        match self.fields.lookup(f) {
            Some(j) => if j < self.children.len() {
                Some(&self.children[j])
            } else {
                None
            },
            None => None,
        }
    }

    /// The text this node spans in `src`.
    pub fn text<'a>(&self, src: &'a [u8]) -> (t: &'a str)
        requires
            self.start_byte <= self.end_byte <= src@.len(),
        ensures
            t@ == node_text(*self, src@),
    {
        let bytes = &src[self.start_byte..self.end_byte];
        assert(bytes@ == src@.subrange(self.start_byte as int, self.end_byte as int));
        match decode_utf8_bytes(bytes) {
            Some(t) => t,
            None => {
                proof {
                    reveal_strlit("");
                }
                ""
            },
        }
    }

    /// One-based line on which this node starts.
    pub fn start_line(&self) -> (l: usize)
        requires
            self.start_row < usize::MAX,
        ensures
            l == start_line(*self),
    {
        self.start_row + 1
    }

    /// One-based line on which this node ends.
    pub fn end_line(&self) -> (l: usize)
        requires
            self.end_row < usize::MAX,
        ensures
            l == end_line(*self),
    {
        self.end_row + 1
    }
}

} // verus!

verus! {

/// The children and field children of a well-formed node are well formed.
pub proof fn lemma_parts_well_formed(node: SyntaxNode, src_len: nat)
    requires
        well_formed(node, src_len),
    ensures
        forall|f: Field| #[trigger]
            field_child(node, f) matches Some(c) ==> well_formed(c, src_len) && rows_inside(c, node),
        forall|i: int|
            0 <= i < node.children@.len() ==> #[trigger] well_formed(node.children@[i], src_len),
        forall|i: int|
            0 <= i < node.children@.len() ==> #[trigger] rows_inside(node.children@[i], node),
        forall|i: int|
            0 < i < node.children@.len() ==> rows_follow(node.children@[i - 1], #[trigger] node.children@[i]),
        node.start_row <= node.end_row,
{
    assert forall|f: Field| #[trigger]
        field_child(node, f) is Some implies well_formed(field_child(node, f)->0, src_len)
        && rows_inside(field_child(node, f)->0, node) by {
        if let Some(j) = node.fields.get(f) {
            if j < node.children@.len() {
                assert(well_formed(node.children@[j as int], src_len));
                assert(rows_inside(node.children@[j as int], node));
            }
        }
    }
}

} // verus!

verus! {

/// `b` is `a` read in `src_b` rather than `src_a`, lying `lines` lines
/// further on: node by node, the same kinds, texts, field children and
/// children, with each line number moved by `lines`.
pub open spec fn moved(a: SyntaxNode, b: SyntaxNode, src_a: Seq<u8>, src_b: Seq<u8>, lines: int) -> bool
    decreases a,
{
    &&& a.kind@ == b.kind@
    &&& node_text(b, src_b) == node_text(a, src_a)
    &&& start_line(b) == shift_line(start_line(a), lines)
    &&& end_line(b) == shift_line(end_line(a), lines)
    &&& a.fields == b.fields
    &&& a.children@.len() == b.children@.len()
    &&& forall|i: int|
        0 <= i < a.children@.len() ==> moved(#[trigger] a.children@[i], b.children@[i], src_a, src_b, lines)
}

/// `b` has the kinds, field children and children of `a`, with its rows
/// `lines` further on and its bytes `bytes` further on, node by node.
pub open spec fn offset_by(a: SyntaxNode, b: SyntaxNode, lines: int, bytes: int) -> bool
    decreases a,
{
    &&& a.kind@ == b.kind@
    &&& b.start_row == a.start_row + lines
    &&& b.end_row == a.end_row + lines
    &&& b.start_byte == a.start_byte + bytes
    &&& b.end_byte == a.end_byte + bytes
    &&& a.fields == b.fields
    &&& a.children@.len() == b.children@.len()
    &&& forall|i: int|
        0 <= i < a.children@.len() ==> offset_by(#[trigger] a.children@[i], b.children@[i], lines, bytes)
}

/// The field children of moved trees are moved, with the same texts.
pub proof fn lemma_moved_parts(a: SyntaxNode, b: SyntaxNode, src_a: Seq<u8>, src_b: Seq<u8>, lines: int)
    requires
        moved(a, b, src_a, src_b, lines),
    ensures
        forall|f: Field| #[trigger]
            field_child(a, f) is Some <==> field_child(b, f) is Some,
        forall|f: Field| #[trigger]
            field_child(a, f) is Some ==> moved(
                field_child(a, f)->0,
                field_child(b, f)->0,
                src_a,
                src_b,
                lines,
            ),
        forall|f: Field, d: Seq<char>| #[trigger]
            field_text_or(b, f, src_b, d) == field_text_or(a, f, src_a, d),
{
    assert forall|f: Field| #[trigger] field_child(a, f) is Some implies moved(
        field_child(a, f)->0,
        field_child(b, f)->0,
        src_a,
        src_b,
        lines,
    ) by {
        let j = a.fields.get(f)->0;
        assert(moved(a.children@[j as int], b.children@[j as int], src_a, src_b, lines));
    }
    assert forall|f: Field, d: Seq<char>| #[trigger]
        field_text_or(b, f, src_b, d) == field_text_or(a, f, src_a, d) by {
        if field_child(a, f) is Some {
            let j = a.fields.get(f)->0;
            assert(moved(a.children@[j as int], b.children@[j as int], src_a, src_b, lines));
        }
    }
}

/// A tree and one of the same shape, read in the same source, are moved by no lines.
pub proof fn lemma_same_shape_moved(a: SyntaxNode, b: SyntaxNode, src: Seq<u8>)
    requires
        same_shape(a, b),
    ensures
        moved(a, b, src, src, 0),
    decreases a,
{
    assert forall|i: int| 0 <= i < a.children@.len() implies moved(
        #[trigger] a.children@[i],
        b.children@[i],
        src,
        src,
        0,
    ) by {
        lemma_same_shape_moved(a.children@[i], b.children@[i], src);
    }
}

/// A well-formed tree whose rows and bytes are offset, read in its source
/// behind a prefix of as many bytes, is moved by as many lines.
pub proof fn lemma_offset_moved(a: SyntaxNode, b: SyntaxNode, src: Seq<u8>, prefix: Seq<u8>, lines: int)
    requires
        well_formed(a, src.len()),
        well_formed(b, (prefix + src).len()),
        offset_by(a, b, lines, prefix.len() as int),
    ensures
        moved(a, b, src, prefix + src, lines),
    decreases a,
{
    let whole = prefix + src;
    assert(whole.subrange(b.start_byte as int, b.end_byte as int) =~= src.subrange(
        a.start_byte as int,
        a.end_byte as int,
    ));
    assert forall|i: int| 0 <= i < a.children@.len() implies moved(
        #[trigger] a.children@[i],
        b.children@[i],
        src,
        whole,
        lines,
    ) by {
        assert(offset_by(a.children@[i], b.children@[i], lines, prefix.len() as int));
        lemma_offset_moved(a.children@[i], b.children@[i], src, prefix, lines);
    }
}

/// `d` is a child of `node`, or lies below a child of `node` that `through`
/// lets a search pass into.
pub open spec fn reaches(node: SyntaxNode, d: SyntaxNode, through: spec_fn(SyntaxNode) -> bool) -> bool
    decreases node,
{
    exists|i: int|
        0 <= i < node.children@.len() && (#[trigger] node.children@[i] == d || (through(
            node.children@[i],
        ) && reaches(node.children@[i], d, through)))
}

/// Two trees hold the same kinds, positions, field children and children,
/// node by node.
pub open spec fn same_shape(a: SyntaxNode, b: SyntaxNode) -> bool
    decreases a,
{
    &&& a.kind@ == b.kind@
    &&& a.start_row == b.start_row
    &&& a.end_row == b.end_row
    &&& a.start_byte == b.start_byte
    &&& a.end_byte == b.end_byte
    &&& a.fields == b.fields
    &&& a.children@.len() == b.children@.len()
    &&& forall|i: int|
        0 <= i < a.children@.len() ==> same_shape(#[trigger] a.children@[i], b.children@[i])
}

} // verus!
