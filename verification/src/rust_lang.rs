//! Definitions, `use` declarations and calls in Rust syntax trees.
use vstd::prelude::*;
use vstd::string::*;
use crate::consistency::{
    consistent,
    parent_ok,
    can_call,
    extends,
    callers_fresh,
    calls_appended,
    lemma_push_symbol,
    lemma_push_call,
    lemma_push_import,
    lemma_kind_names_differ,
    lemma_extends_chain,
    lemma_fresh_weaken,
    lemma_push_symbol_appends,
    lemma_push_import_appends,
    lemma_calls_appended_fresh,
    lemma_calls_appended_chain,
    in_source_order,
    starts_by,
    lemma_starts_by_weaken,
    lemma_push_symbol_ordered,
    calls_on_lines,
    lemma_calls_on_lines_chain,
};
use crate::language::SourceLanguage;
use crate::common::{symbol_of, call_of, spans_within, new_symbol, new_call};
use crate::model::{
    CallView,
    ParseResult,
    ParseView,
    ImportView,
    Import,
    SymbolView,
    shift_view,
    shift_symbol,
    shift_call,
    lemma_shift_push_symbol,
    lemma_shift_push_call,
    lemma_shift_push_import,
};
use crate::syntax::{
    SyntaxNode,
    rows_inside,
    rows_follow,
    start_line,
    end_line,
    Field,
    field_child,
    field_text_or,
    node_text,
    well_formed,
    lemma_parts_well_formed,
    moved,
    lemma_moved_parts,
    reaches,
};
use crate::text::{
    strip_prefix,
    trim,
    trim_end_semicolons,
    strip_prefix_str,
    trim_ws,
    trim_class,
    CharClass,
    concat3,
    same_text,
};

verus! {

/// `fn <name><parameters>` followed by ` -> <return type>` when there is one.
pub open spec fn rs_signature(item: SyntaxNode, src: Seq<u8>) -> Seq<char> {
    let ret = match field_child(item, Field::ReturnType) {
        Some(r) => " -> "@ + node_text(r, src),
        None => Seq::empty(),
    };
    "fn "@ + field_text_or(item, Field::Name, src, "?"@) + field_text_or(
        item,
        Field::Parameters,
        src,
        "()"@,
    ) + ret
}

/// Whether symbol `s` is a struct or enum named `name`.
pub open spec fn is_type_named(s: SymbolView, name: Seq<char>) -> bool {
    s.name == name && (s.kind == "struct"@ || s.kind == "enum"@)
}

/// The index of the first struct or enum named `name` among `symbols` from `i` on.
pub open spec fn find_type_from(symbols: Seq<SymbolView>, name: Seq<char>, i: nat) -> Option<usize>
    decreases symbols.len() - i,
{
    if i >= symbols.len() {
        None
    } else if is_type_named(symbols[i as int], name) {
        Some(i as usize)
    } else {
        find_type_from(symbols, name, i + 1)
    }
}

/// What the children of `node` from index `i` on add to `acc`.
pub open spec fn rs_scan(
    node: SyntaxNode,
    i: nat,
    src: Seq<u8>,
    acc: ParseView,
    parent: Option<usize>,
) -> ParseView
    decreases node, 0int, node.children@.len() - i,
{
    if i >= node.children@.len() {
        acc
    } else {
        rs_scan(node, i + 1, src, rs_child(node.children@[i as int], src, acc, parent), parent)
    }
}

/// What one child node adds to `acc`.
pub open spec fn rs_child(
    child: SyntaxNode,
    src: Seq<u8>,
    acc: ParseView,
    parent: Option<usize>,
) -> ParseView
    decreases child, 1int, 0int,
{
    if child.kind@ == "function_item"@ {
        match field_child(child, Field::Name) {
            Some(name) => {
                let idx = acc.symbols.len() as usize;
                let kind = if parent is Some {
                    "method"@
                } else {
                    "function"@
                };
                let sym = symbol_of(
                    node_text(name, src),
                    kind,
                    child,
                    parent,
                    Some(rs_signature(child, src)),
                );
                rs_calls(child, src, acc.push_symbol(sym), idx)
            },
            None => acc,
        }
    } else if child.kind@ == "struct_item"@ || child.kind@ == "enum_item"@ {
        match field_child(child, Field::Name) {
            Some(name) => {
                let kind = if child.kind@ == "struct_item"@ {
                    "struct"@
                } else {
                    "enum"@
                };
                acc.push_symbol(symbol_of(node_text(name, src), kind, child, parent, None))
            },
            None => acc,
        }
    } else if child.kind@ == "trait_item"@ {
        match field_child(child, Field::Name) {
            Some(name) => {
                let idx = acc.symbols.len() as usize;
                let sym = symbol_of(node_text(name, src), "trait"@, child, parent, None);
                rs_scan(child, 0, src, acc.push_symbol(sym), Some(idx))
            },
            None => acc,
        }
    } else if child.kind@ == "impl_item"@ {
        match field_child(child, Field::Type) {
            Some(ty) => rs_scan(
                child,
                0,
                src,
                acc,
                find_type_from(acc.symbols, node_text(ty, src), 0),
            ),
            None => rs_scan(child, 0, src, acc, parent),
        }
    } else if child.kind@ == "use_declaration"@ {
        match strip_prefix(node_text(child, src), "use "@) {
            Some(rest) => acc.push_import(
                ImportView { module: trim(trim_end_semicolons(rest)), names: None },
            ),
            None => acc,
        }
    } else {
        rs_scan(child, 0, src, acc, parent)
    }
}

/// The calls below `node` from child `i` on, attributed to symbol `caller`.
pub open spec fn rs_calls_scan(
    node: SyntaxNode,
    i: nat,
    src: Seq<u8>,
    acc: ParseView,
    caller: usize,
) -> ParseView
    decreases node, 0int, node.children@.len() - i,
{
    if i >= node.children@.len() {
        acc
    } else {
        rs_calls_scan(
            node,
            i + 1,
            src,
            rs_call_child(node.children@[i as int], src, acc, caller),
            caller,
        )
    }
}

/// The name a call expression calls: an identifier, the field of a field
/// expression, or the last name of a path (the whole path when it has no
/// name); `None` for any other callee.
pub open spec fn rs_callee(call: SyntaxNode, src: Seq<u8>) -> Option<Seq<char>> {
    let f = field_child(call, Field::Function)->0;
    if f.kind@ == "identifier"@ {
        Some(node_text(f, src))
    } else if f.kind@ == "field_expression"@ {
        match field_child(f, Field::FieldName) {
            Some(x) => Some(node_text(x, src)),
            None => None,
        }
    } else if f.kind@ == "scoped_identifier"@ {
        Some(field_text_or(f, Field::Name, src, node_text(f, src)))
    } else {
        None
    }
}

/// The calls and macro invocations found in one child and below it. The
/// subtree of a call whose callee has no name is not searched.
pub open spec fn rs_call_child(child: SyntaxNode, src: Seq<u8>, acc: ParseView, caller: usize) -> ParseView
    decreases child, 1int, 0int,
{
    if child.kind@ == "call_expression"@ && field_child(child, Field::Function) is Some {
        match rs_callee(child, src) {
            Some(name) => rs_calls_scan(
                child,
                0,
                src,
                acc.push_call(call_of(caller, name, child)),
                caller,
            ),
            None => acc,
        }
    } else if child.kind@ == "macro_invocation"@ && field_child(child, Field::Macro) is Some {
        let name = node_text(field_child(child, Field::Macro)->0, src);
        rs_calls_scan(child, 0, src, acc.push_call(call_of(caller, name, child)), caller)
    } else {
        rs_calls_scan(child, 0, src, acc, caller)
    }
}

/// The calls inside `node`, attributed to symbol `caller`.
pub open spec fn rs_calls(node: SyntaxNode, src: Seq<u8>, acc: ParseView, caller: usize) -> ParseView {
    rs_calls_scan(node, 0, src, acc, caller)
}

/// Everything extracted from a Rust tree.
pub open spec fn rust_extract(root: SyntaxNode, src: Seq<u8>, acc: ParseView) -> ParseView {
    rs_scan(root, 0, src, acc, None)
}

fn rust_signature(item: &SyntaxNode, src: &[u8]) -> (s: String)
    requires
        well_formed(*item, src@.len()),
    ensures
        s@ == rs_signature(*item, src@),
{
    proof {
        lemma_parts_well_formed(*item, src@.len());
        reveal_strlit("?");
        reveal_strlit("()");
    }
    let name = match item.child_by_field(Field::Name) {
        Some(n) => n.text(src),
        None => "?",
    };
    let params = match item.child_by_field(Field::Parameters) {
        Some(p) => p.text(src),
        None => "()",
    };
    let mut s = concat3("fn ", name, params);
    if let Some(r) = item.child_by_field(Field::ReturnType) {
        s.append(" -> ");
        s.append(r.text(src));
    }
    s
}

/// The index of the first struct or enum called `name` in `result`.
fn find_type(result: &ParseResult, name: &str) -> (r: Option<usize>)
    ensures
        r == find_type_from(result@.symbols, name@, 0),
{
    let mut i: usize = 0;
    while i < result.symbols.len()
        invariant
            i <= result.symbols@.len(),
            find_type_from(result@.symbols, name@, i as nat) == find_type_from(
                result@.symbols,
                name@,
                0,
            ),
        decreases result.symbols@.len() - i,
    {
        let s = &result.symbols[i];
        assert(result@.symbols[i as int] == s@);
        if same_text(s.name.as_str(), name) && (same_text(s.kind.as_str(), "struct") || same_text(
            s.kind.as_str(),
            "enum",
        )) {
            return Some(i);
        }
        i = i + 1;
    }
    None
}

/// Adds what the children of `node` hold to `result`.
pub fn rust_node(node: &SyntaxNode, src: &[u8], result: &mut ParseResult, parent: Option<usize>)
    requires
        well_formed(*node, src@.len()),
    ensures
        final(result)@ == rs_scan(*node, 0, src@, old(result)@, parent),
    decreases node, 0int,
{
    proof {
        lemma_parts_well_formed(*node, src@.len());
    }
    let mut i: usize = 0;
    while i < node.children.len()
        invariant
            i <= node.children@.len(),
            forall|k: int|
                0 <= k < node.children@.len() ==> well_formed(#[trigger] node.children@[k], src@.len()),
            rs_scan(*node, i as nat, src@, result@, parent) == rs_scan(
                *node,
                0,
                src@,
                old(result)@,
                parent,
            ),
        decreases node.children@.len() - i,
    {
        rust_child(&node.children[i], src, result, parent);
        i = i + 1;
    }
}

fn rust_child(child: &SyntaxNode, src: &[u8], result: &mut ParseResult, parent: Option<usize>)
    requires
        well_formed(*child, src@.len()),
    ensures
        final(result)@ == rs_child(*child, src@, old(result)@, parent),
    decreases child, 1int,
{
    proof {
        lemma_parts_well_formed(*child, src@.len());
    }
    if child.is_kind("function_item") {
        if let Some(name_node) = child.child_by_field(Field::Name) {
            let kind = if parent.is_some() {
                "method"
            } else {
                "function"
            };
            let sig = rust_signature(child, src);
            let idx = result.symbol_count();
            result.add_symbol(new_symbol(name_node.text(src), kind, child, parent, Some(sig)));
            rust_calls(child, src, result, idx);
        }
    } else if child.is_kind("struct_item") || child.is_kind("enum_item") {
        if let Some(name_node) = child.child_by_field(Field::Name) {
            let kind = if child.is_kind("struct_item") {
                "struct"
            } else {
                "enum"
            };
            result.add_symbol(new_symbol(name_node.text(src), kind, child, parent, None));
        }
    } else if child.is_kind("trait_item") {
        if let Some(name_node) = child.child_by_field(Field::Name) {
            let idx = result.symbol_count();
            result.add_symbol(new_symbol(name_node.text(src), "trait", child, parent, None));
            rust_node(child, src, result, Some(idx));
        }
    } else if child.is_kind("impl_item") {
        match child.child_by_field(Field::Type) {
            Some(ty) => {
                let impl_parent = find_type(result, ty.text(src));
                rust_node(child, src, result, impl_parent);
            },
            None => {
                rust_node(child, src, result, parent);
            },
        }
    } else if child.is_kind("use_declaration") {
        if let Some(rest) = strip_prefix_str(child.text(src), "use ") {
            let module = trim_ws(trim_class(rest, CharClass::Semicolon, false, true));
            result.add_import(Import { module: String::from_str(module), names: None });
        }
    } else {
        rust_node(child, src, result, parent);
    }
}

/// Adds the calls inside `node` to `result`, attributed to symbol `caller`.
fn rust_calls(node: &SyntaxNode, src: &[u8], result: &mut ParseResult, caller: usize)
    requires
        well_formed(*node, src@.len()),
    ensures
        final(result)@ == rs_calls_scan(*node, 0, src@, old(result)@, caller),
    decreases node, 0int,
{
    proof {
        lemma_parts_well_formed(*node, src@.len());
    }
    let mut i: usize = 0;
    while i < node.children.len()
        invariant
            i <= node.children@.len(),
            forall|k: int|
                0 <= k < node.children@.len() ==> well_formed(#[trigger] node.children@[k], src@.len()),
            rs_calls_scan(*node, i as nat, src@, result@, caller) == rs_calls_scan(
                *node,
                0,
                src@,
                old(result)@,
                caller,
            ),
        decreases node.children@.len() - i,
    {
        rust_call_child(&node.children[i], src, result, caller);
        i = i + 1;
    }
}

fn rust_call_child(child: &SyntaxNode, src: &[u8], result: &mut ParseResult, caller: usize)
    requires
        well_formed(*child, src@.len()),
    ensures
        final(result)@ == rs_call_child(*child, src@, old(result)@, caller),
    decreases child, 1int,
{
    proof {
        lemma_parts_well_formed(*child, src@.len());
    }
    if child.is_kind("call_expression") {
        if let Some(func) = child.child_by_field(Field::Function) {
            proof {
                lemma_parts_well_formed(*func, src@.len());
            }
            let name: &str = if func.is_kind("identifier") {
                func.text(src)
            } else if func.is_kind("field_expression") {
                match func.child_by_field(Field::FieldName) {
                    Some(field) => field.text(src),
                    None => {
                        return ;
                    },
                }
            } else if func.is_kind("scoped_identifier") {
                match func.child_by_field(Field::Name) {
                    Some(name) => name.text(src),
                    None => func.text(src),
                }
            } else {
                return ;
            };
            result.add_call(new_call(caller, name, child));
            rust_calls(child, src, result, caller);
            return ;
        }
    }
    if child.is_kind("macro_invocation") {
        if let Some(mac) = child.child_by_field(Field::Macro) {
            result.add_call(new_call(caller, mac.text(src), child));
        }
    }
    rust_calls(child, src, result, caller);
}


/// A found type is one of the symbols.
proof fn lemma_find_type_in_range(symbols: Seq<SymbolView>, name: Seq<char>, i: nat)
    ensures
        find_type_from(symbols, name, i) matches Some(p) ==> p < symbols.len(),
    decreases symbols.len() - i,
{
    if i < symbols.len() && !is_type_named(symbols[i as int], name) {
        lemma_find_type_in_range(symbols, name, i + 1);
    }
}

/// Call extraction appends calls attributed to `caller` and changes nothing else.
pub proof fn rs_calls_scan_appends(node: SyntaxNode, i: nat, src: Seq<u8>, acc: ParseView, caller: usize)
    ensures
        calls_appended(acc, rs_calls_scan(node, i, src, acc, caller), caller),
    decreases node, 0int, node.children@.len() - i,
{
    if i < node.children@.len() {
        let c = node.children@[i as int];
        let m = rs_call_child(c, src, acc, caller);
        rs_call_child_appends(c, src, acc, caller);
        rs_calls_scan_appends(node, i + 1, src, m, caller);
        lemma_calls_appended_chain(acc, m, rs_calls_scan(node, i + 1, src, m, caller), caller);
    }
}

proof fn rs_call_child_appends(child: SyntaxNode, src: Seq<u8>, acc: ParseView, caller: usize)
    ensures
        calls_appended(acc, rs_call_child(child, src, acc, caller), caller),
    decreases child, 1int, 0int,
{
    if child.kind@ == "call_expression"@ && field_child(child, Field::Function) is Some {
        if let Some(name) = rs_callee(child, src) {
            let a1 = acc.push_call(call_of(caller, name, child));
            rs_calls_scan_appends(child, 0, src, a1, caller);
            lemma_calls_appended_chain(acc, a1, rs_calls_scan(child, 0, src, a1, caller), caller);
        }
    } else if child.kind@ == "macro_invocation"@ && field_child(child, Field::Macro) is Some {
        let name = node_text(field_child(child, Field::Macro)->0, src);
        let a1 = acc.push_call(call_of(caller, name, child));
        rs_calls_scan_appends(child, 0, src, a1, caller);
        lemma_calls_appended_chain(acc, a1, rs_calls_scan(child, 0, src, a1, caller), caller);
    } else {
        rs_calls_scan_appends(child, 0, src, acc, caller);
    }
}

/// Every call that call extraction appends lies on the lines of `node`.
pub proof fn rs_calls_scan_lines(node: SyntaxNode, i: nat, src: Seq<u8>, acc: ParseView, caller: usize)
    requires
        well_formed(node, src.len()),
    ensures
        calls_on_lines(
            acc,
            rs_calls_scan(node, i, src, acc, caller),
            start_line(node) as int,
            end_line(node) as int,
        ),
    decreases node, 0int, node.children@.len() - i,
{
    if i < node.children@.len() {
        lemma_parts_well_formed(node, src.len());
        let c = node.children@[i as int];
        let m = rs_call_child(c, src, acc, caller);
        let r = rs_calls_scan(node, i + 1, src, m, caller);
        assert(rows_inside(c, node) && well_formed(c, src.len()));
        rs_call_child_lines(c, src, acc, caller);
        rs_calls_scan_lines(node, i + 1, src, m, caller);
        rs_call_child_appends(c, src, acc, caller);
        rs_calls_scan_appends(node, i + 1, src, m, caller);
        lemma_calls_on_lines_chain(
            acc,
            m,
            r,
            start_line(c) as int,
            end_line(c) as int,
            start_line(node) as int,
            end_line(node) as int,
            start_line(node) as int,
            end_line(node) as int,
        );
    }
}

proof fn rs_call_child_lines(child: SyntaxNode, src: Seq<u8>, acc: ParseView, caller: usize)
    requires
        well_formed(child, src.len()),
    ensures
        calls_on_lines(
            acc,
            rs_call_child(child, src, acc, caller),
            start_line(child) as int,
            end_line(child) as int,
        ),
    decreases child, 1int, 0int,
{
    let lo = start_line(child) as int;
    let hi = end_line(child) as int;
    if child.kind@ == "call_expression"@ && field_child(child, Field::Function) is Some {
        if let Some(name) = rs_callee(child, src) {
            let a1 = acc.push_call(call_of(caller, name, child));
            let r = rs_calls_scan(child, 0, src, a1, caller);
            rs_calls_scan_lines(child, 0, src, a1, caller);
            rs_calls_scan_appends(child, 0, src, a1, caller);
            lemma_calls_on_lines_chain(acc, a1, r, lo, hi, lo, hi, lo, hi);
        }
    } else if child.kind@ == "macro_invocation"@ && field_child(child, Field::Macro) is Some {
        let name = node_text(field_child(child, Field::Macro)->0, src);
        let a1 = acc.push_call(call_of(caller, name, child));
        let r = rs_calls_scan(child, 0, src, a1, caller);
        rs_calls_scan_lines(child, 0, src, a1, caller);
        rs_calls_scan_appends(child, 0, src, a1, caller);
        lemma_calls_on_lines_chain(acc, a1, r, lo, hi, lo, hi, lo, hi);
    } else {
        rs_calls_scan_lines(child, 0, src, acc, caller);
    }
}

/// Call extraction keeps a result consistent when the caller exists.
proof fn rs_calls_scan_sound(node: SyntaxNode, i: nat, src: Seq<u8>, acc: ParseView, caller: usize)
    requires
        well_formed(node, src.len()),
        consistent(acc, SourceLanguage::Rust),
        can_call(acc.symbols, caller),
        spans_within(node, acc.symbols[caller as int]),
    ensures
        consistent(rs_calls_scan(node, i, src, acc, caller), SourceLanguage::Rust),
    decreases node, 0int, node.children@.len() - i,
{
    if i < node.children@.len() {
        lemma_parts_well_formed(node, src.len());
        let c = node.children@[i as int];
        assert(rows_inside(c, node) && well_formed(c, src.len()));
        rs_call_child_appends(c, src, acc, caller);
        rs_call_child_sound(c, src, acc, caller);
        rs_calls_scan_sound(node, i + 1, src, rs_call_child(c, src, acc, caller), caller);
    }
}

proof fn rs_call_child_sound(child: SyntaxNode, src: Seq<u8>, acc: ParseView, caller: usize)
    requires
        well_formed(child, src.len()),
        consistent(acc, SourceLanguage::Rust),
        can_call(acc.symbols, caller),
        spans_within(child, acc.symbols[caller as int]),
    ensures
        consistent(rs_call_child(child, src, acc, caller), SourceLanguage::Rust),
    decreases child, 1int, 0int,
{
    if child.kind@ == "call_expression"@ && field_child(child, Field::Function) is Some {
        if let Some(name) = rs_callee(child, src) {
            let c = call_of(caller, name, child);
            lemma_push_call(acc, c, SourceLanguage::Rust);
            rs_calls_scan_sound(child, 0, src, acc.push_call(c), caller);
        }
    } else if child.kind@ == "macro_invocation"@ && field_child(child, Field::Macro) is Some {
        let c = call_of(caller, node_text(field_child(child, Field::Macro)->0, src), child);
        lemma_push_call(acc, c, SourceLanguage::Rust);
        rs_calls_scan_sound(child, 0, src, acc.push_call(c), caller);
    } else {
        rs_calls_scan_sound(child, 0, src, acc, caller);
    }
}

/// Extraction only appends to the result, and every call it appends is
/// attributed to a symbol it appended (as far as the indices can be counted
/// in a `usize`). Methods of an `impl` block hang below the struct or enum
/// found for it, which may come before what this step appended.
pub proof fn rs_scan_appends(node: SyntaxNode, i: nat, src: Seq<u8>, acc: ParseView, parent: Option<usize>)
    ensures
        extends(acc, rs_scan(node, i, src, acc, parent)),
        rs_scan(node, i, src, acc, parent).symbols.len() <= usize::MAX ==> callers_fresh(
            acc,
            rs_scan(node, i, src, acc, parent),
            acc.symbols.len() as int,
        ),
    decreases node, 0int, node.children@.len() - i,
{
    if i < node.children@.len() {
        let c = node.children@[i as int];
        let m = rs_child(c, src, acc, parent);
        let r = rs_scan(node, i + 1, src, m, parent);
        rs_child_appends(c, src, acc, parent);
        rs_scan_appends(node, i + 1, src, m, parent);
        lemma_extends_chain(acc, m, r, acc.symbols.len() as int, parent);
        lemma_fresh_weaken(m, r, m.symbols.len() as int, parent, acc.symbols.len() as int, parent);
    }
}

proof fn rs_child_appends(child: SyntaxNode, src: Seq<u8>, acc: ParseView, parent: Option<usize>)
    ensures
        extends(acc, rs_child(child, src, acc, parent)),
        rs_child(child, src, acc, parent).symbols.len() <= usize::MAX ==> callers_fresh(
            acc,
            rs_child(child, src, acc, parent),
            acc.symbols.len() as int,
        ),
    decreases child, 1int, 0int,
{
    let base = acc.symbols.len() as int;
    if child.kind@ == "function_item"@ {
        if let Some(name) = field_child(child, Field::Name) {
            let idx = acc.symbols.len() as usize;
            let kind = if parent is Some {
                "method"@
            } else {
                "function"@
            };
            let sym = symbol_of(node_text(name, src), kind, child, parent, Some(rs_signature(child, src)));
            let a1 = acc.push_symbol(sym);
            let r = rs_calls(child, src, a1, idx);
            lemma_push_symbol_appends(acc, sym);
            rs_calls_scan_appends(child, 0, src, a1, idx);
            lemma_calls_appended_fresh(a1, r, idx, base, parent);
            lemma_extends_chain(acc, a1, r, base, parent);
        }
    } else if child.kind@ == "struct_item"@ || child.kind@ == "enum_item"@ {
        if let Some(name) = field_child(child, Field::Name) {
            let kind = if child.kind@ == "struct_item"@ {
                "struct"@
            } else {
                "enum"@
            };
            lemma_push_symbol_appends(acc, symbol_of(node_text(name, src), kind, child, parent, None));
        }
    } else if child.kind@ == "trait_item"@ {
        if let Some(name) = field_child(child, Field::Name) {
            let idx = acc.symbols.len() as usize;
            let sym = symbol_of(node_text(name, src), "trait"@, child, parent, None);
            let a1 = acc.push_symbol(sym);
            let r = rs_scan(child, 0, src, a1, Some(idx));
            lemma_push_symbol_appends(acc, sym);
            rs_scan_appends(child, 0, src, a1, Some(idx));
            lemma_extends_chain(acc, a1, r, base, parent);
            lemma_fresh_weaken(a1, r, a1.symbols.len() as int, Some(idx), base, parent);
        }
    } else if child.kind@ == "impl_item"@ {
        match field_child(child, Field::Type) {
            Some(ty) => rs_scan_appends(child, 0, src, acc, find_type_from(acc.symbols, node_text(ty, src), 0)),
            None => rs_scan_appends(child, 0, src, acc, parent),
        }
    } else if child.kind@ == "use_declaration"@ {
        if let Some(rest) = strip_prefix(node_text(child, src), "use "@) {
            lemma_push_import_appends(
                acc,
                ImportView { module: trim(trim_end_semicolons(rest)), names: None },
                base,
                parent,
            );
        }
    } else {
        rs_scan_appends(child, 0, src, acc, parent);
    }
}

/// Extraction lists the symbols it finds in the order of the lines they start
/// on, after those already found, and none of them starts after `node` ends.
pub proof fn rs_scan_ordered(node: SyntaxNode, i: nat, src: Seq<u8>, acc: ParseView, parent: Option<usize>)
    requires
        well_formed(node, src.len()),
        in_source_order(acc),
        i < node.children@.len() ==> starts_by(acc, start_line(node.children@[i as int]) as int),
        i >= node.children@.len() ==> starts_by(acc, end_line(node) as int),
    ensures
        in_source_order(rs_scan(node, i, src, acc, parent)),
        starts_by(rs_scan(node, i, src, acc, parent), end_line(node) as int),
    decreases node, 0int, node.children@.len() - i,
{
    if i < node.children@.len() {
        lemma_parts_well_formed(node, src.len());
        let c = node.children@[i as int];
        let m = rs_child(c, src, acc, parent);
        assert(rows_inside(c, node));
        rs_child_ordered(c, src, acc, parent);
        if i + 1 < node.children@.len() {
            assert(rows_follow(c, node.children@[i + 1 as int]));
            assert(well_formed(node.children@[i + 1 as int], src.len()));
            lemma_starts_by_weaken(m, end_line(c) as int, start_line(node.children@[i + 1 as int]) as int);
        } else {
            lemma_starts_by_weaken(m, end_line(c) as int, end_line(node) as int);
        }
        rs_scan_ordered(node, i + 1, src, m, parent);
    }
}

proof fn rs_child_ordered(child: SyntaxNode, src: Seq<u8>, acc: ParseView, parent: Option<usize>)
    requires
        well_formed(child, src.len()),
        in_source_order(acc),
        starts_by(acc, start_line(child) as int),
    ensures
        in_source_order(rs_child(child, src, acc, parent)),
        starts_by(rs_child(child, src, acc, parent), end_line(child) as int),
    decreases child, 1int, 0int,
{
    lemma_parts_well_formed(child, src.len());
    let first = start_line(child) as int;
    let last = end_line(child) as int;
    let next = if child.children@.len() > 0 {
        assert(rows_inside(child.children@[0], child));
        assert(well_formed(child.children@[0], src.len()));
        start_line(child.children@[0]) as int
    } else {
        last
    };
    lemma_starts_by_weaken(acc, first, last);
    lemma_starts_by_weaken(acc, first, next);
    if child.kind@ == "function_item"@ {
        if let Some(name) = field_child(child, Field::Name) {
            let idx = acc.symbols.len() as usize;
            let kind = if parent is Some {
                "method"@
            } else {
                "function"@
            };
            let sym = symbol_of(node_text(name, src), kind, child, parent, Some(rs_signature(child, src)));
            let a1 = acc.push_symbol(sym);
            let r = rs_calls(child, src, a1, idx);
            lemma_push_symbol_ordered(acc, sym);
            rs_calls_scan_appends(child, 0, src, a1, idx);
            assert(r.symbols == a1.symbols);
            lemma_starts_by_weaken(r, first, last);
        }
    } else if child.kind@ == "struct_item"@ || child.kind@ == "enum_item"@ {
        if let Some(name) = field_child(child, Field::Name) {
            let kind = if child.kind@ == "struct_item"@ {
                "struct"@
            } else {
                "enum"@
            };
            let sym = symbol_of(node_text(name, src), kind, child, parent, None);
            lemma_push_symbol_ordered(acc, sym);
            lemma_starts_by_weaken(acc.push_symbol(sym), first, last);
        }
    } else if child.kind@ == "trait_item"@ {
        if let Some(name) = field_child(child, Field::Name) {
            let idx = acc.symbols.len() as usize;
            let sym = symbol_of(node_text(name, src), "trait"@, child, parent, None);
            let a1 = acc.push_symbol(sym);
            lemma_push_symbol_ordered(acc, sym);
            lemma_starts_by_weaken(a1, first, next);
            rs_scan_ordered(child, 0, src, a1, Some(idx));
        }
    } else if child.kind@ == "impl_item"@ {
        match field_child(child, Field::Type) {
            Some(ty) => rs_scan_ordered(child, 0, src, acc, find_type_from(acc.symbols, node_text(ty, src), 0)),
            None => rs_scan_ordered(child, 0, src, acc, parent),
        }
    } else if child.kind@ == "use_declaration"@ {
    } else {
        rs_scan_ordered(child, 0, src, acc, parent);
    }
}

/// Extraction keeps a result consistent, as long as its symbols can be counted.
pub proof fn rs_scan_sound(node: SyntaxNode, i: nat, src: Seq<u8>, acc: ParseView, parent: Option<usize>)
    requires
        well_formed(node, src.len()),
        consistent(acc, SourceLanguage::Rust),
        parent_ok(parent, acc),
    ensures
        rs_scan(node, i, src, acc, parent).symbols.len() <= usize::MAX ==> consistent(
            rs_scan(node, i, src, acc, parent),
            SourceLanguage::Rust,
        ),
    decreases node, 0int, node.children@.len() - i,
{
    if i < node.children@.len() {
        lemma_parts_well_formed(node, src.len());
        let c = node.children@[i as int];
        let m = rs_child(c, src, acc, parent);
        rs_child_appends(c, src, acc, parent);
        rs_scan_appends(node, i + 1, src, m, parent);
        if m.symbols.len() <= usize::MAX {
            rs_child_sound(c, src, acc, parent);
            rs_scan_sound(node, i + 1, src, m, parent);
        }
    }
}

proof fn rs_child_sound(child: SyntaxNode, src: Seq<u8>, acc: ParseView, parent: Option<usize>)
    requires
        well_formed(child, src.len()),
        consistent(acc, SourceLanguage::Rust),
        parent_ok(parent, acc),
    ensures
        rs_child(child, src, acc, parent).symbols.len() <= usize::MAX ==> consistent(
            rs_child(child, src, acc, parent),
            SourceLanguage::Rust,
        ),
    decreases child, 1int, 0int,
{
    lemma_parts_well_formed(child, src.len());
    lemma_kind_names_differ();
    let r = rs_child(child, src, acc, parent);
    if child.kind@ == "function_item"@ {
        if let Some(name) = field_child(child, Field::Name) {
            let idx = acc.symbols.len() as usize;
            let kind = if parent is Some {
                "method"@
            } else {
                "function"@
            };
            let sym = symbol_of(node_text(name, src), kind, child, parent, Some(rs_signature(child, src)));
            let a1 = acc.push_symbol(sym);
            rs_calls_scan_appends(child, 0, src, a1, idx);
            if r.symbols.len() <= usize::MAX {
                lemma_push_symbol(acc, sym, SourceLanguage::Rust);
                rs_calls_scan_sound(child, 0, src, a1, idx);
            }
        }
    } else if child.kind@ == "struct_item"@ || child.kind@ == "enum_item"@ {
        if let Some(name) = field_child(child, Field::Name) {
            let kind = if child.kind@ == "struct_item"@ {
                "struct"@
            } else {
                "enum"@
            };
            lemma_push_symbol(acc, symbol_of(node_text(name, src), kind, child, parent, None), SourceLanguage::Rust);
        }
    } else if child.kind@ == "trait_item"@ {
        if let Some(name) = field_child(child, Field::Name) {
            let idx = acc.symbols.len() as usize;
            let sym = symbol_of(node_text(name, src), "trait"@, child, parent, None);
            let a1 = acc.push_symbol(sym);
            rs_scan_appends(child, 0, src, a1, Some(idx));
            if r.symbols.len() <= usize::MAX {
                lemma_push_symbol(acc, sym, SourceLanguage::Rust);
                rs_scan_sound(child, 0, src, a1, Some(idx));
            }
        }
    } else if child.kind@ == "impl_item"@ {
        match field_child(child, Field::Type) {
            Some(ty) => {
                lemma_find_type_in_range(acc.symbols, node_text(ty, src), 0);
                rs_scan_sound(child, 0, src, acc, find_type_from(acc.symbols, node_text(ty, src), 0));
            },
            None => rs_scan_sound(child, 0, src, acc, parent),
        }
    } else if child.kind@ == "use_declaration"@ {
        if let Some(rest) = strip_prefix(node_text(child, src), "use "@) {
            lemma_push_import(
                acc,
                ImportView { module: trim(trim_end_semicolons(rest)), names: None },
                SourceLanguage::Rust,
            );
        }
    } else {
        rs_scan_sound(child, 0, src, acc, parent);
    }
}


/// Trees that differ only in where they lie give the same calls, on lines
/// moved as theirs are.
proof fn rs_calls_scan_moved(
    a: SyntaxNode,
    b: SyntaxNode,
    i: nat,
    sa: Seq<u8>,
    sb: Seq<u8>,
    acc: ParseView,
    caller: usize,
    lines: int,
)
    requires
        moved(a, b, sa, sb, lines),
    ensures
        rs_calls_scan(b, i, sb, shift_view(acc, lines), caller) == shift_view(
            rs_calls_scan(a, i, sa, acc, caller),
            lines,
        ),
    decreases a, 0int, a.children@.len() - i,
{
    if i < a.children@.len() {
        let ca = a.children@[i as int];
        let cb = b.children@[i as int];
        assert(moved(ca, cb, sa, sb, lines));
        rs_call_child_moved(ca, cb, sa, sb, acc, caller, lines);
        rs_calls_scan_moved(a, b, i + 1, sa, sb, rs_call_child(ca, sa, acc, caller), caller, lines);
    }
}

proof fn rs_call_child_moved(
    a: SyntaxNode,
    b: SyntaxNode,
    sa: Seq<u8>,
    sb: Seq<u8>,
    acc: ParseView,
    caller: usize,
    lines: int,
)
    requires
        moved(a, b, sa, sb, lines),
    ensures
        rs_call_child(b, sb, shift_view(acc, lines), caller) == shift_view(
            rs_call_child(a, sa, acc, caller),
            lines,
        ),
    decreases a, 1int, 0int,
{
    lemma_moved_parts(a, b, sa, sb, lines);
    if a.kind@ == "call_expression"@ && field_child(a, Field::Function) is Some {
        let fa = field_child(a, Field::Function)->0;
        let fb = field_child(b, Field::Function)->0;
        lemma_moved_parts(fa, fb, sa, sb, lines);
        assert(rs_callee(b, sb) == rs_callee(a, sa));
        if let Some(name) = rs_callee(a, sa) {
            let c = call_of(caller, name, a);
            lemma_shift_push_call(acc, c, lines);
            assert(call_of(caller, name, b) == shift_call(c, lines));
            rs_calls_scan_moved(a, b, 0, sa, sb, acc.push_call(c), caller, lines);
        }
    } else if a.kind@ == "macro_invocation"@ && field_child(a, Field::Macro) is Some {
        let ma = field_child(a, Field::Macro)->0;
        lemma_moved_parts(ma, field_child(b, Field::Macro)->0, sa, sb, lines);
        let name = node_text(ma, sa);
        let c = call_of(caller, name, a);
        lemma_shift_push_call(acc, c, lines);
        assert(call_of(caller, name, b) == shift_call(c, lines));
        rs_calls_scan_moved(a, b, 0, sa, sb, acc.push_call(c), caller, lines);
    } else {
        rs_calls_scan_moved(a, b, 0, sa, sb, acc, caller, lines);
    }
}

/// The same type is found among symbols whose lines were moved.
proof fn lemma_find_type_shifted(symbols: Seq<SymbolView>, name: Seq<char>, i: nat, lines: int)
    ensures
        find_type_from(symbols.map_values(|s: SymbolView| shift_symbol(s, lines)), name, i)
            == find_type_from(symbols, name, i),
    decreases symbols.len() - i,
{
    if i < symbols.len() {
        lemma_find_type_shifted(symbols, name, i + 1, lines);
    }
}

/// Extraction depends on where a tree lies only through line numbers: trees
/// that differ only in that give results that differ only in their lines.
pub proof fn rs_scan_moved(
    a: SyntaxNode,
    b: SyntaxNode,
    i: nat,
    sa: Seq<u8>,
    sb: Seq<u8>,
    acc: ParseView,
    parent: Option<usize>,
    lines: int,
)
    requires
        moved(a, b, sa, sb, lines),
    ensures
        rs_scan(b, i, sb, shift_view(acc, lines), parent) == shift_view(
            rs_scan(a, i, sa, acc, parent),
            lines,
        ),
    decreases a, 0int, a.children@.len() - i,
{
    if i < a.children@.len() {
        let ca = a.children@[i as int];
        let cb = b.children@[i as int];
        assert(moved(ca, cb, sa, sb, lines));
        rs_child_moved(ca, cb, sa, sb, acc, parent, lines);
        rs_scan_moved(a, b, i + 1, sa, sb, rs_child(ca, sa, acc, parent), parent, lines);
    }
}

proof fn rs_child_moved(
    a: SyntaxNode,
    b: SyntaxNode,
    sa: Seq<u8>,
    sb: Seq<u8>,
    acc: ParseView,
    parent: Option<usize>,
    lines: int,
)
    requires
        moved(a, b, sa, sb, lines),
    ensures
        rs_child(b, sb, shift_view(acc, lines), parent) == shift_view(rs_child(a, sa, acc, parent), lines),
    decreases a, 1int, 0int,
{
    lemma_moved_parts(a, b, sa, sb, lines);
    if a.kind@ == "function_item"@ {
        if let Some(name) = field_child(a, Field::Name) {
            lemma_moved_parts(name, field_child(b, Field::Name)->0, sa, sb, lines);
            if field_child(a, Field::ReturnType) is Some {
                lemma_moved_parts(
                    field_child(a, Field::ReturnType)->0,
                    field_child(b, Field::ReturnType)->0,
                    sa,
                    sb,
                    lines,
                );
            }
            assert(rs_signature(b, sb) == rs_signature(a, sa));
            let idx = acc.symbols.len() as usize;
            let kind = if parent is Some {
                "method"@
            } else {
                "function"@
            };
            let sym = symbol_of(node_text(name, sa), kind, a, parent, Some(rs_signature(a, sa)));
            lemma_shift_push_symbol(acc, sym, lines);
            assert(symbol_of(node_text(name, sa), kind, b, parent, Some(rs_signature(a, sa))) == shift_symbol(sym, lines));
            rs_calls_scan_moved(a, b, 0, sa, sb, acc.push_symbol(sym), idx, lines);
        }
    } else if a.kind@ == "struct_item"@ || a.kind@ == "enum_item"@ {
        if let Some(name) = field_child(a, Field::Name) {
            lemma_moved_parts(name, field_child(b, Field::Name)->0, sa, sb, lines);
            let kind = if a.kind@ == "struct_item"@ {
                "struct"@
            } else {
                "enum"@
            };
            let sym = symbol_of(node_text(name, sa), kind, a, parent, None);
            lemma_shift_push_symbol(acc, sym, lines);
            assert(symbol_of(node_text(name, sa), kind, b, parent, None) == shift_symbol(sym, lines));
        }
    } else if a.kind@ == "trait_item"@ {
        if let Some(name) = field_child(a, Field::Name) {
            lemma_moved_parts(name, field_child(b, Field::Name)->0, sa, sb, lines);
            let idx = acc.symbols.len() as usize;
            let sym = symbol_of(node_text(name, sa), "trait"@, a, parent, None);
            lemma_shift_push_symbol(acc, sym, lines);
            assert(symbol_of(node_text(name, sa), "trait"@, b, parent, None) == shift_symbol(sym, lines));
            rs_scan_moved(a, b, 0, sa, sb, acc.push_symbol(sym), Some(idx), lines);
        }
    } else if a.kind@ == "impl_item"@ {
        match field_child(a, Field::Type) {
            Some(ty) => {
                lemma_moved_parts(ty, field_child(b, Field::Type)->0, sa, sb, lines);
                lemma_find_type_shifted(acc.symbols, node_text(ty, sa), 0, lines);
                rs_scan_moved(a, b, 0, sa, sb, acc, find_type_from(acc.symbols, node_text(ty, sa), 0), lines);
            },
            None => rs_scan_moved(a, b, 0, sa, sb, acc, parent, lines),
        }
    } else if a.kind@ == "use_declaration"@ {
        if let Some(rest) = strip_prefix(node_text(a, sa), "use "@) {
            lemma_shift_push_import(acc, ImportView { module: trim(trim_end_semicolons(rest)), names: None }, lines);
        }
    } else {
        rs_scan_moved(a, b, 0, sa, sb, acc, parent, lines);
    }
}

/// Nodes that definition extraction passes into, reading what lies below them
/// with the parent it was given: all but items it reads and `use`
/// declarations.
pub open spec fn rs_scan_passes(x: SyntaxNode) -> bool {
    !(x.kind@ == "function_item"@ || x.kind@ == "struct_item"@ || x.kind@ == "enum_item"@ || x.kind@
        == "trait_item"@ || x.kind@ == "impl_item"@ || x.kind@ == "use_declaration"@)
}

pub open spec fn rs_scan_through() -> spec_fn(SyntaxNode) -> bool {
    |x: SyntaxNode| rs_scan_passes(x)
}

/// A call whose callee is an identifier, a field access with a field, or a
/// path; or a macro invocation with its macro's name.
pub open spec fn rs_named_call(x: SyntaxNode) -> bool {
    ||| (x.kind@ == "call_expression"@ && field_child(x, Field::Function) is Some && ({
        let f = field_child(x, Field::Function)->0;
        f.kind@ == "identifier"@ || (f.kind@ == "field_expression"@ && field_child(f, Field::FieldName) is Some)
            || f.kind@ == "scoped_identifier"@
    }))
    ||| (x.kind@ == "macro_invocation"@ && field_child(x, Field::Macro) is Some)
}

/// The name a named call calls: the identifier, the field, the last segment
/// of the path (the whole path when it has no name), or the macro.
pub open spec fn rs_called_name(x: SyntaxNode, src: Seq<u8>) -> Seq<char> {
    if x.kind@ == "macro_invocation"@ {
        node_text(field_child(x, Field::Macro)->0, src)
    } else {
        let f = field_child(x, Field::Function)->0;
        if f.kind@ == "identifier"@ {
            node_text(f, src)
        } else if f.kind@ == "field_expression"@ {
            node_text(field_child(f, Field::FieldName)->0, src)
        } else {
            match field_child(f, Field::Name) {
                Some(n) => node_text(n, src),
                None => node_text(f, src),
            }
        }
    }
}

/// Nodes that call extraction passes into: all but calls with a callee that
/// has no name.
pub open spec fn rs_call_through() -> spec_fn(SyntaxNode) -> bool {
    |x: SyntaxNode|
        !(x.kind@ == "call_expression"@ && field_child(x, Field::Function) is Some && !rs_named_call(x))
}

/// The kinds read here are told apart.
proof fn rs_kinds_differ()
    ensures
        "function_item"@ != "trait_item"@,
        "call_expression"@ != "macro_invocation"@,
        "scoped_identifier"@ != "field_expression"@,
{
    reveal_strlit("scoped_identifier");
    reveal_strlit("field_expression");
    assert("scoped_identifier"@.len() != "field_expression"@.len());
    reveal_strlit("function_item");
    reveal_strlit("trait_item");
    reveal_strlit("call_expression");
    reveal_strlit("macro_invocation");
    assert("function_item"@.len() != "trait_item"@.len());
    assert("call_expression"@.len() != "macro_invocation"@.len());
}

/// The scan of `node` reaches its child `i` with a result that extends the
/// one it started from.
proof fn rs_scan_split(node: SyntaxNode, i: nat, src: Seq<u8>, acc: ParseView, parent: Option<usize>) -> (a:
    ParseView)
    requires
        i < node.children@.len(),
    ensures
        extends(acc, a),
        rs_scan(node, 0, src, acc, parent) == rs_scan(
            node,
            i + 1,
            src,
            rs_child(node.children@[i as int], src, a, parent),
            parent,
        ),
    decreases i,
{
    if i == 0 {
        acc
    } else {
        let a0 = rs_scan_split(node, (i - 1) as nat, src, acc, parent);
        let a1 = rs_child(node.children@[i - 1], src, a0, parent);
        rs_child_appends(node.children@[i - 1], src, a0, parent);
        lemma_extends_chain(acc, a0, a1, 0, parent);
        a1
    }
}

/// A node reached below `node` through nodes the scan passes into is read
/// with the same parent, and what reading it gives is kept in the result.
proof fn rs_scan_reaches(node: SyntaxNode, src: Seq<u8>, acc: ParseView, parent: Option<usize>, d: SyntaxNode) -> (a:
    ParseView)
    requires
        reaches(node, d, rs_scan_through()),
    ensures
        extends(acc, a),
        extends(rs_child(d, src, a, parent), rs_scan(node, 0, src, acc, parent)),
    decreases node,
{
    let i = choose|i: int|
        0 <= i < node.children@.len() && (#[trigger] node.children@[i] == d || (rs_scan_through()(
            node.children@[i],
        ) && reaches(node.children@[i], d, rs_scan_through())));
    let c = node.children@[i];
    let a0 = rs_scan_split(node, i as nat, src, acc, parent);
    let m = rs_child(c, src, a0, parent);
    let r = rs_scan(node, i as nat + 1, src, m, parent);
    rs_scan_appends(node, i as nat + 1, src, m, parent);
    if c == d {
        a0
    } else {
        assert(rs_scan_passes(c));
        assert(m == rs_scan(c, 0, src, a0, parent));
        let a = rs_scan_reaches(c, src, a0, parent, d);
        lemma_extends_chain(acc, a0, a, 0, parent);
        lemma_extends_chain(rs_child(d, src, a, parent), m, r, 0, parent);
        a
    }
}

/// Every function defined in the body of a trait (below it through nodes
/// that are not themselves items or `use` declarations) is listed after the
/// trait, as a method with the trait as its parent; the trait keeps the
/// parent it was given.
pub proof fn rs_trait_methods_hang_below_their_trait(
    c: SyntaxNode,
    src: Seq<u8>,
    acc: ParseView,
    parent: Option<usize>,
    d: SyntaxNode,
)
    requires
        c.kind@ == "trait_item"@,
        field_child(c, Field::Name) is Some,
        acc.symbols.len() < usize::MAX,
        reaches(c, d, rs_scan_through()),
        d.kind@ == "function_item"@,
        field_child(d, Field::Name) is Some,
    ensures
        ({
            let r = rs_child(c, src, acc, parent);
            &&& r.symbols[acc.symbols.len() as int].name == node_text(field_child(c, Field::Name)->0, src)
            &&& r.symbols[acc.symbols.len() as int].kind == "trait"@
            &&& r.symbols[acc.symbols.len() as int].parent_index == parent
            &&& exists|k: int|
                acc.symbols.len() < k < r.symbols.len() && r.symbols[k].name == node_text(
                    field_child(d, Field::Name)->0,
                    src,
                ) && r.symbols[k].parent_index == Some(acc.symbols.len() as usize)
                    && r.symbols[k].kind == "method"@ && r.symbols[k].line_start == start_line(d)
        }),
{
    rs_kinds_differ();
    reveal_strlit("struct_item");
    reveal_strlit("enum_item");
    reveal_strlit("trait_item");
    let name = field_child(c, Field::Name)->0;
    let idx = acc.symbols.len() as usize;
    let r = rs_child(c, src, acc, parent);
    let sym = symbol_of(node_text(name, src), "trait"@, c, parent, None);
    let a1 = acc.push_symbol(sym);
    assert(c.kind@ != "struct_item"@ && c.kind@ != "enum_item"@) by {
        assert("trait_item"@[0] != "struct_item"@[0]);
        assert("trait_item"@[0] != "enum_item"@[0]);
    }
    assert(r == rs_scan(c, 0, src, a1, Some(idx)));
    rs_scan_appends(c, 0, src, a1, Some(idx));
    assert(r.symbols[acc.symbols.len() as int] == sym);
    let a = rs_scan_reaches(c, src, a1, Some(idx), d);
    let dname = field_child(d, Field::Name)->0;
    let dsym = symbol_of(node_text(dname, src), "method"@, d, Some(idx), Some(rs_signature(d, src)));
    let b1 = a.push_symbol(dsym);
    rs_calls_scan_appends(d, 0, src, b1, a.symbols.len() as usize);
    let k = a.symbols.len() as int;
    assert(r.symbols[k] == rs_child(d, src, a, Some(idx)).symbols[k]);
}

/// The call scan of `node` reaches its child `i` with a result that has the
/// calls it started with and more of `caller`.
proof fn rs_calls_scan_split(node: SyntaxNode, i: nat, src: Seq<u8>, acc: ParseView, caller: usize) -> (a:
    ParseView)
    requires
        i < node.children@.len(),
    ensures
        calls_appended(acc, a, caller),
        rs_calls_scan(node, 0, src, acc, caller) == rs_calls_scan(
            node,
            i + 1,
            src,
            rs_call_child(node.children@[i as int], src, a, caller),
            caller,
        ),
    decreases i,
{
    if i == 0 {
        acc
    } else {
        let a0 = rs_calls_scan_split(node, (i - 1) as nat, src, acc, caller);
        let a1 = rs_call_child(node.children@[i - 1], src, a0, caller);
        rs_call_child_appends(node.children@[i - 1], src, a0, caller);
        lemma_calls_appended_chain(acc, a0, a1, caller);
        a1
    }
}

/// A call reached below `node` through nodes call extraction passes into is
/// read, and what reading it gives is kept.
proof fn rs_calls_reaches(node: SyntaxNode, src: Seq<u8>, acc: ParseView, caller: usize, d: SyntaxNode) -> (a:
    ParseView)
    requires
        reaches(node, d, rs_call_through()),
    ensures
        calls_appended(acc, a, caller),
        calls_appended(rs_call_child(d, src, a, caller), rs_calls_scan(node, 0, src, acc, caller), caller),
    decreases node,
{
    rs_kinds_differ();
    let i = choose|i: int|
        0 <= i < node.children@.len() && (#[trigger] node.children@[i] == d || (rs_call_through()(
            node.children@[i],
        ) && reaches(node.children@[i], d, rs_call_through())));
    let c = node.children@[i];
    let a0 = rs_calls_scan_split(node, i as nat, src, acc, caller);
    let m = rs_call_child(c, src, a0, caller);
    let r = rs_calls_scan(node, i as nat + 1, src, m, caller);
    rs_calls_scan_appends(node, i as nat + 1, src, m, caller);
    if c == d {
        a0
    } else {
        let start = if c.kind@ == "call_expression"@ && field_child(c, Field::Function) is Some {
            a0.push_call(call_of(caller, rs_callee(c, src)->0, c))
        } else if c.kind@ == "macro_invocation"@ && field_child(c, Field::Macro) is Some {
            a0.push_call(call_of(caller, node_text(field_child(c, Field::Macro)->0, src), c))
        } else {
            a0
        };
        assert(m == rs_calls_scan(c, 0, src, start, caller));
        assert(calls_appended(a0, start, caller));
        let a = rs_calls_reaches(c, src, start, caller, d);
        lemma_calls_appended_chain(a0, start, a, caller);
        lemma_calls_appended_chain(acc, a0, a, caller);
        lemma_calls_appended_chain(rs_call_child(d, src, a, caller), m, r, caller);
        a
    }
}

/// Every named call or macro invocation below `node`, reached through nodes
/// that are not calls with an unnamed callee (so inside another call's
/// arguments or callee too), is appended, attributed to `caller`, with its
/// callee's name and its line.
pub proof fn rs_calls_find_every_named_call(node: SyntaxNode, src: Seq<u8>, acc: ParseView, caller: usize, d: SyntaxNode)
    requires
        reaches(node, d, rs_call_through()),
        rs_named_call(d),
    ensures
        exists|k: int|
            acc.calls.len() <= k < rs_calls_scan(node, 0, src, acc, caller).calls.len() && rs_calls_scan(
                node,
                0,
                src,
                acc,
                caller,
            ).calls[k] == (CallView { caller_index: caller, callee_name: rs_called_name(d, src), line: start_line(d) }),
{
    rs_kinds_differ();
    let a = rs_calls_reaches(node, src, acc, caller, d);
    let name = if d.kind@ == "macro_invocation"@ {
        node_text(field_child(d, Field::Macro)->0, src)
    } else {
        rs_callee(d, src)->0
    };
    let a1 = a.push_call(call_of(caller, name, d));
    rs_calls_scan_appends(d, 0, src, a1, caller);
    let k = a.calls.len() as int;
    assert(rs_calls_scan(node, 0, src, acc, caller).calls[k] == a1.calls[k]);
}

/// Every named call inside a function item is attributed to that function.
pub proof fn rs_calls_belong_to_their_function(
    c: SyntaxNode,
    src: Seq<u8>,
    acc: ParseView,
    parent: Option<usize>,
    d: SyntaxNode,
)
    requires
        c.kind@ == "function_item"@,
        field_child(c, Field::Name) is Some,
        reaches(c, d, rs_call_through()),
        rs_named_call(d),
    ensures
        exists|k: int|
            acc.calls.len() <= k < rs_child(c, src, acc, parent).calls.len() && rs_child(c, src, acc, parent).calls[k]
                == (CallView {
                caller_index: acc.symbols.len() as usize,
                callee_name: rs_called_name(d, src),
                line: start_line(d),
            }),
{
    let name = field_child(c, Field::Name)->0;
    let idx = acc.symbols.len() as usize;
    let kind = if parent is Some {
        "method"@
    } else {
        "function"@
    };
    let a1 = acc.push_symbol(symbol_of(node_text(name, src), kind, c, parent, Some(rs_signature(c, src))));
    rs_kinds_differ();
    assert(rs_child(c, src, acc, parent) == rs_calls(c, src, a1, idx));
    rs_calls_find_every_named_call(c, src, a1, idx, d);
}

/// Reading a named function item first adds its own symbol: a method when it
/// has a parent, a function when not.
proof fn rs_function_defines(d: SyntaxNode, src: Seq<u8>, acc: ParseView, parent: Option<usize>)
    requires
        d.kind@ == "function_item"@,
        field_child(d, Field::Name) is Some,
    ensures
        rs_child(d, src, acc, parent).symbols.len() > acc.symbols.len(),
        rs_child(d, src, acc, parent).symbols[acc.symbols.len() as int].name == node_text(
            field_child(d, Field::Name)->0,
            src,
        ),
        rs_child(d, src, acc, parent).symbols[acc.symbols.len() as int].parent_index == parent,
        rs_child(d, src, acc, parent).symbols[acc.symbols.len() as int].line_start == start_line(d),
        rs_child(d, src, acc, parent).symbols[acc.symbols.len() as int].kind == (if parent is Some {
            "method"@
        } else {
            "function"@
        }),
{
    let name = field_child(d, Field::Name)->0;
    let idx = acc.symbols.len() as usize;
    let kind = if parent is Some {
        "method"@
    } else {
        "function"@
    };
    let sym = symbol_of(node_text(name, src), kind, d, parent, Some(rs_signature(d, src)));
    rs_calls_scan_appends(d, 0, src, acc.push_symbol(sym), idx);
}

/// Every function item reached below `node` through nodes the scan passes
/// into is listed after what `acc` held, with the parent the scan was given:
/// a method when that parent is a symbol, a function when not.
pub proof fn rs_scan_lists_reached_functions(
    node: SyntaxNode,
    src: Seq<u8>,
    acc: ParseView,
    parent: Option<usize>,
    d: SyntaxNode,
)
    requires
        reaches(node, d, rs_scan_through()),
        d.kind@ == "function_item"@,
        field_child(d, Field::Name) is Some,
    ensures
        ({
            let r = rs_scan(node, 0, src, acc, parent);
            exists|k: int|
                acc.symbols.len() <= k < r.symbols.len() && r.symbols[k].name == node_text(
                    field_child(d, Field::Name)->0,
                    src,
                ) && r.symbols[k].parent_index == parent && r.symbols[k].line_start == start_line(d)
                    && r.symbols[k].kind == (if parent is Some {
                    "method"@
                } else {
                    "function"@
                })
        }),
{
    let a = rs_scan_reaches(node, src, acc, parent, d);
    rs_function_defines(d, src, a, parent);
    let k = a.symbols.len() as int;
    assert(rs_scan(node, 0, src, acc, parent).symbols[k] == rs_child(d, src, a, parent).symbols[k]);
}

/// Symbol `s` is a struct or enum called `name`.
pub open spec fn is_struct_or_enum_called(s: SymbolView, name: Seq<char>) -> bool {
    s.name == name && (s.kind == "struct"@ || s.kind == "enum"@)
}

proof fn lemma_find_type_result(symbols: Seq<SymbolView>, name: Seq<char>, i: nat)
    requires
        symbols.len() <= usize::MAX,
    ensures
        find_type_from(symbols, name, i) matches Some(j) ==> i <= j < symbols.len()
            && is_struct_or_enum_called(symbols[j as int], name) && forall|k: int|
            i <= k < j ==> !is_struct_or_enum_called(#[trigger] symbols[k], name),
        find_type_from(symbols, name, i) is None ==> forall|k: int|
            i <= k < symbols.len() ==> !is_struct_or_enum_called(#[trigger] symbols[k], name),
    decreases symbols.len() - i,
{
    if i < symbols.len() {
        lemma_find_type_result(symbols, name, i + 1);
    }
}

/// The functions in an `impl` block hang below the first struct or enum
/// already listed under the implemented type's name, as methods; when no
/// such struct or enum has been listed they are top-level functions.
pub proof fn rs_impl_methods_hang_below_their_type(
    c: SyntaxNode,
    src: Seq<u8>,
    acc: ParseView,
    parent: Option<usize>,
    d: SyntaxNode,
)
    requires
        c.kind@ == "impl_item"@,
        field_child(c, Field::Type) is Some,
        acc.symbols.len() < usize::MAX,
        reaches(c, d, rs_scan_through()),
        d.kind@ == "function_item"@,
        field_child(d, Field::Name) is Some,
    ensures
        ({
            let r = rs_child(c, src, acc, parent);
            let ty = node_text(field_child(c, Field::Type)->0, src);
            exists|k: int|
                acc.symbols.len() <= k < r.symbols.len() && r.symbols[k].name == node_text(
                    field_child(d, Field::Name)->0,
                    src,
                ) && r.symbols[k].line_start == start_line(d) && (forall|j: int|
                    0 <= j < acc.symbols.len() && is_struct_or_enum_called(acc.symbols[j], ty) && (forall|
                        i: int,
                    | 0 <= i < j ==> !is_struct_or_enum_called(#[trigger] acc.symbols[i], ty))
                        ==> r.symbols[k].parent_index == Some(j as usize) && r.symbols[k].kind
                        == "method"@) && ((forall|i: int|
                    0 <= i < acc.symbols.len() ==> !is_struct_or_enum_called(#[trigger] acc.symbols[i], ty))
                    ==> r.symbols[k].parent_index is None && r.symbols[k].kind == "function"@)
        }),
{
    reveal_strlit("impl_item");
    reveal_strlit("function_item");
    reveal_strlit("struct_item");
    reveal_strlit("enum_item");
    reveal_strlit("trait_item");
    assert(c.kind@ != "function_item"@ && c.kind@ != "struct_item"@ && c.kind@ != "enum_item"@ && c.kind@
        != "trait_item"@) by {
        assert("impl_item"@.len() != "function_item"@.len());
        assert("impl_item"@[0] != "struct_item"@[0]);
        assert("impl_item"@[0] != "enum_item"@[0]);
        assert("impl_item"@.len() != "trait_item"@.len());
    }
    let ty = node_text(field_child(c, Field::Type)->0, src);
    let found = find_type_from(acc.symbols, ty, 0);
    lemma_find_type_result(acc.symbols, ty, 0);
    let r = rs_child(c, src, acc, parent);
    assert(r == rs_scan(c, 0, src, acc, found));
    rs_scan_lists_reached_functions(c, src, acc, found, d);
    let k = choose|k: int|
        acc.symbols.len() <= k < r.symbols.len() && r.symbols[k].name == node_text(
            field_child(d, Field::Name)->0,
            src,
        ) && r.symbols[k].parent_index == found && r.symbols[k].line_start == start_line(d)
            && r.symbols[k].kind == (if found is Some {
            "method"@
        } else {
            "function"@
        });
    assert forall|j: int|
        0 <= j < acc.symbols.len() && is_struct_or_enum_called(acc.symbols[j], ty) && (forall|i: int|
            0 <= i < j ==> !is_struct_or_enum_called(#[trigger] acc.symbols[i], ty)) implies r.symbols[k].parent_index
        == Some(j as usize) && r.symbols[k].kind == "method"@ by {
        if let Some(f) = found {
            if (f as int) < j {
                assert(!is_struct_or_enum_called(acc.symbols[f as int], ty));
            } else if j < f {
                assert(!is_struct_or_enum_called(acc.symbols[j], ty));
            }
        } else {
            assert(!is_struct_or_enum_called(acc.symbols[j], ty));
        }
    }
    if forall|i: int| 0 <= i < acc.symbols.len() ==> !is_struct_or_enum_called(#[trigger] acc.symbols[i], ty) {
        if let Some(f) = found {
            assert(!is_struct_or_enum_called(acc.symbols[f as int], ty));
        }
    }
}

/// Reading a named struct, enum or trait item first adds its own symbol, of
/// the item's kind.
proof fn rs_type_defines(d: SyntaxNode, src: Seq<u8>, acc: ParseView, parent: Option<usize>)
    requires
        d.kind@ == "struct_item"@ || d.kind@ == "enum_item"@ || d.kind@ == "trait_item"@,
        field_child(d, Field::Name) is Some,
    ensures
        rs_child(d, src, acc, parent).symbols.len() > acc.symbols.len(),
        rs_child(d, src, acc, parent).symbols[acc.symbols.len() as int].name == node_text(
            field_child(d, Field::Name)->0,
            src,
        ),
        rs_child(d, src, acc, parent).symbols[acc.symbols.len() as int].parent_index == parent,
        rs_child(d, src, acc, parent).symbols[acc.symbols.len() as int].line_start == start_line(d),
        d.kind@ == "struct_item"@ ==> rs_child(d, src, acc, parent).symbols[acc.symbols.len() as int].kind
            == "struct"@,
        d.kind@ == "enum_item"@ ==> rs_child(d, src, acc, parent).symbols[acc.symbols.len() as int].kind
            == "enum"@,
        d.kind@ == "trait_item"@ ==> rs_child(d, src, acc, parent).symbols[acc.symbols.len() as int].kind
            == "trait"@,
{
    reveal_strlit("function_item");
    reveal_strlit("struct_item");
    reveal_strlit("enum_item");
    reveal_strlit("trait_item");
    assert("struct_item"@.len() != "function_item"@.len());
    assert("enum_item"@.len() != "function_item"@.len());
    assert("trait_item"@.len() != "function_item"@.len());
    assert("struct_item"@[0] != "enum_item"@[0]);
    assert("trait_item"@[0] != "struct_item"@[0]);
    assert("trait_item"@[0] != "enum_item"@[0]);
    if d.kind@ == "trait_item"@ {
        let name = field_child(d, Field::Name)->0;
        let idx = acc.symbols.len() as usize;
        let sym = symbol_of(node_text(name, src), "trait"@, d, parent, None);
        rs_scan_appends(d, 0, src, acc.push_symbol(sym), Some(idx));
    }
}

/// Every struct, enum or trait item reached below `node` through nodes the
/// scan passes into is listed after what `acc` held, of its kind, with the
/// parent the scan was given.
pub proof fn rs_scan_lists_reached_types(
    node: SyntaxNode,
    src: Seq<u8>,
    acc: ParseView,
    parent: Option<usize>,
    d: SyntaxNode,
)
    requires
        reaches(node, d, rs_scan_through()),
        d.kind@ == "struct_item"@ || d.kind@ == "enum_item"@ || d.kind@ == "trait_item"@,
        field_child(d, Field::Name) is Some,
    ensures
        ({
            let r = rs_scan(node, 0, src, acc, parent);
            exists|k: int|
                acc.symbols.len() <= k < r.symbols.len() && r.symbols[k].name == node_text(
                    field_child(d, Field::Name)->0,
                    src,
                ) && r.symbols[k].parent_index == parent && r.symbols[k].line_start == start_line(d)
                    && (d.kind@ == "struct_item"@ ==> r.symbols[k].kind == "struct"@) && (d.kind@
                    == "enum_item"@ ==> r.symbols[k].kind == "enum"@) && (d.kind@ == "trait_item"@
                    ==> r.symbols[k].kind == "trait"@)
        }),
{
    let a = rs_scan_reaches(node, src, acc, parent, d);
    rs_type_defines(d, src, a, parent);
    let k = a.symbols.len() as int;
    assert(rs_scan(node, 0, src, acc, parent).symbols[k] == rs_child(d, src, a, parent).symbols[k]);
}

} // verus!
