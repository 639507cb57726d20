//! Parsing a source file and extracting its symbols, imports and calls.
use vstd::prelude::*;
use vstd::utf8::encode_utf8;
use crate::language::SourceLanguage;
use crate::model::{ParseResult, ParseView, empty_view, shift_view, lemma_shift_zero};
use crate::syntax::{SyntaxNode, well_formed, moved, offset_by, lemma_same_shape_moved, lemma_offset_moved};
use crate::treesitter::{ParseError, syntax_tree, mirrors, lemma_mirrors_same_shape, has_tree, fields_within_children};
use crate::consistency::{consistent, in_source_order, starts_by};
use crate::python::{python_extract, python_node, py_scan_sound, py_scan_moved, py_scan_ordered};
use crate::javascript::{js_extract, js_node, js_scan_sound, js_scan_moved, js_scan_ordered};
use crate::rust_lang::{rust_extract, rust_node, rs_scan_sound, rs_scan_moved, rs_scan_ordered};
use crate::csharp::{csharp_extract, csharp_node, cs_scan_sound, cs_scan_moved, cs_scan_ordered};

verus! {

/// Everything extracted from the syntax tree `root` of `src` in `language`.
pub open spec fn extract_spec(root: SyntaxNode, src: Seq<u8>, language: SourceLanguage) -> ParseView {
    match language {
        SourceLanguage::Python => python_extract(root, src, empty_view()),
        SourceLanguage::JavaScript => js_extract(root, src, empty_view()),
        SourceLanguage::TypeScript => js_extract(root, src, empty_view()),
        SourceLanguage::Tsx => js_extract(root, src, empty_view()),
        SourceLanguage::Rust => rust_extract(root, src, empty_view()),
        SourceLanguage::CSharp => csharp_extract(root, src, empty_view()),
    }
}

/// Every extraction result is consistent: each call's `caller_index` names a
/// function, method or constructor among the symbols and the call's line lies
/// within that symbol's lines, each symbol's `parent_index` names a symbol
/// listed before it, all line numbers are one-based and no symbol ends before
/// it starts, every symbol kind is one the language's
/// rules produce, and in Python, Rust and C# a symbol is a method exactly when
/// it is a function nested in another symbol. (Indices are machine integers, so this is stated for results
/// whose symbols can be counted in a `usize`, as all real results can.)
pub proof fn lemma_extraction_consistent(root: SyntaxNode, src: Seq<u8>, language: SourceLanguage)
    requires
        well_formed(root, src.len()),
    ensures
        extract_spec(root, src, language).symbols.len() <= usize::MAX ==> consistent(
            extract_spec(root, src, language),
            language,
        ),
{
    assert(consistent(empty_view(), language));
    match language {
        SourceLanguage::Python => py_scan_sound(root, 0, src, empty_view(), None),
        SourceLanguage::Rust => rs_scan_sound(root, 0, src, empty_view(), None),
        SourceLanguage::CSharp => cs_scan_sound(root, 0, src, empty_view(), None),
        _ => js_scan_sound(root, 0, src, empty_view(), None, language),
    }
}

/// Extraction lists symbols in source order: a symbol never starts on a later
/// line than one listed after it, so an enclosing definition comes before
/// the definitions nested in it.
pub proof fn lemma_extraction_in_source_order(root: SyntaxNode, src: Seq<u8>, language: SourceLanguage)
    requires
        well_formed(root, src.len()),
    ensures
        in_source_order(extract_spec(root, src, language)),
{
    let e = empty_view();
    assert(in_source_order(e));
    assert(starts_by(e, 0));
    match language {
        SourceLanguage::Python => py_scan_ordered(root, 0, src, e, None),
        SourceLanguage::Rust => rs_scan_ordered(root, 0, src, e, None),
        SourceLanguage::CSharp => cs_scan_ordered(root, 0, src, e, None),
        _ => js_scan_ordered(root, 0, src, e, None),
    }
}

/// Extraction depends on where a tree lies in its source only through line
/// numbers: a tree that differs from another only in where it lies, read in
/// its own source, gives the same symbols, imports and calls, with every line
/// number moved by as many lines as the tree was.
pub proof fn lemma_extraction_moved(
    a: SyntaxNode,
    b: SyntaxNode,
    src_a: Seq<u8>,
    src_b: Seq<u8>,
    lines: int,
    language: SourceLanguage,
)
    requires
        moved(a, b, src_a, src_b, lines),
    ensures
        extract_spec(b, src_b, language) == shift_view(extract_spec(a, src_a, language), lines),
{
    let e = empty_view();
    assert(shift_view(e, lines) == e) by {
        assert(shift_view(e, lines).symbols =~= e.symbols);
        assert(shift_view(e, lines).calls =~= e.calls);
    }
    match language {
        SourceLanguage::Python => py_scan_moved(a, b, 0, src_a, src_b, e, None, lines),
        SourceLanguage::Rust => rs_scan_moved(a, b, 0, src_a, src_b, e, None, lines),
        SourceLanguage::CSharp => cs_scan_moved(a, b, 0, src_a, src_b, e, None, lines),
        _ => js_scan_moved(a, b, 0, src_a, src_b, e, None, lines),
    }
}

/// Text put before a source moves what is extracted by the lines the tree
/// moves: when the tree of `prefix + src` is that of `src` with its rows
/// `lines` and its bytes `prefix.len()` further on, extraction from it gives
/// the result for `src` with every line number moved by `lines`.
pub proof fn lemma_extraction_after_prefix(
    a: SyntaxNode,
    b: SyntaxNode,
    src: Seq<u8>,
    prefix: Seq<u8>,
    lines: int,
    language: SourceLanguage,
)
    requires
        well_formed(a, src.len()),
        well_formed(b, (prefix + src).len()),
        offset_by(a, b, lines, prefix.len() as int),
    ensures
        extract_spec(b, prefix + src, language) == shift_view(extract_spec(a, src, language), lines),
{
    lemma_offset_moved(a, b, src, prefix, lines);
    lemma_extraction_moved(a, b, src, prefix + src, lines, language);
}

/// Extraction is determined by what tree-sitter reports: any two trees that
/// hold what it reports for the same source and language give the same
/// result. Parsing the same source twice therefore gives the same result.
pub proof fn lemma_extraction_deterministic(
    source: Seq<u8>,
    language: SourceLanguage,
    t1: SyntaxNode,
    t2: SyntaxNode,
)
    requires
        mirrors(t1, source, language, Seq::empty()),
        mirrors(t2, source, language, Seq::empty()),
    ensures
        extract_spec(t1, source, language) == extract_spec(t2, source, language),
{
    lemma_mirrors_same_shape(t1, t2, source, language, Seq::empty());
    lemma_same_shape_moved(t1, t2, source);
    lemma_extraction_moved(t1, t2, source, source, 0, language);
    lemma_shift_zero(extract_spec(t1, source, language));
}

/// What extraction yields on the tree tree-sitter builds for `source` in `language`.
pub open spec fn tree_sitter_extraction(source: Seq<u8>, language: SourceLanguage) -> ParseView {
    extract_spec(
        choose|t: SyntaxNode| mirrors(t, source, language, Seq::empty()),
        source,
        language,
    )
}

/// The symbols, imports and calls in the syntax tree `root` of `src`, read
/// with the rules of `language`.
pub fn extract_symbols(root: &SyntaxNode, src: &[u8], language: SourceLanguage) -> (r: ParseResult)
    requires
        well_formed(*root, src@.len()),
    ensures
        r@ == extract_spec(*root, src@, language),
        consistent(r@, language),
        in_source_order(r@),
{
    proof {
        lemma_extraction_consistent(*root, src@, language);
        lemma_extraction_in_source_order(*root, src@, language);
    }
    let mut result = ParseResult::new();
    match language {
        SourceLanguage::Python => python_node(root, src, &mut result, None),
        SourceLanguage::JavaScript => js_node(root, src, &mut result, None),
        SourceLanguage::TypeScript | SourceLanguage::Tsx => js_node(root, src, &mut result, None),
        SourceLanguage::Rust => rust_node(root, src, &mut result, None),
        SourceLanguage::CSharp => csharp_node(root, src, &mut result, None),
    }
    let count = result.symbols.len();
    assert(result@.symbols.len() == count);
    result
}

/// Parse source code and extract symbols, imports, and calls.
///
/// On success the result is what `extract_symbols` yields on the tree
/// tree-sitter builds for the source; that tree is well formed for the source.
/// It succeeds exactly when a well-formed `SyntaxNode` can hold tree-sitter's
/// tree, and fails with `MalformedTree` otherwise. It succeeds on every source
/// shorter than `u32::MAX` bytes (tree-sitter counts bytes in `u32`) on which
/// each node that `child_by_field_name` hands back is a child of the node it
/// was asked of.
pub fn parse_source(source: &str, language: SourceLanguage) -> (r: Result<ParseResult, ParseError>)
    ensures
        r matches Ok(res) ==> {
            &&& res@ == tree_sitter_extraction(encode_utf8(source@), language)
            &&& exists|t: SyntaxNode|
                mirrors(t, encode_utf8(source@), language, Seq::empty()) && well_formed(
                    t,
                    encode_utf8(source@).len(),
                )
            &&& consistent(res@, language)
            &&& in_source_order(res@)
        },
        r is Ok <==> has_tree(
            encode_utf8(source@),
            language,
            Seq::empty(),
            encode_utf8(source@).len(),
        ),
        encode_utf8(source@).len() < u32::MAX && fields_within_children(encode_utf8(source@), language)
            ==> r is Ok,
        r is Err ==> r matches Err(ParseError::MalformedTree),
{
    let src = source.as_bytes();
    let tree = match syntax_tree(src, language) {
        Ok(t) => t,
        Err(e) => {
            return Err(e);
        },
    };
    let result = extract_symbols(&tree, src, language);
    proof {
        let chosen = choose|t: SyntaxNode| mirrors(t, src@, language, Seq::empty());
        lemma_extraction_deterministic(src@, language, tree, chosen);
    }
    Ok(result)
}

} // verus!
