//! Types, members, `using` directives and calls in C# syntax trees.
use vstd::prelude::*;
use vstd::string::*;
use crate::consistency::{
    consistent,
    parent_ok,
    can_call,
    extends,
    appended_below,
    calls_appended,
    lemma_push_symbol,
    lemma_push_call,
    lemma_push_import,
    lemma_kind_names_differ,
    lemma_extends_chain,
    lemma_fresh_weaken,
    lemma_push_symbol_appends,
    lemma_push_import_appends,
    lemma_calls_appended_fresh,
    lemma_calls_appended_chain,
    in_source_order,
    starts_by,
    lemma_starts_by_weaken,
    lemma_push_symbol_ordered,
    calls_on_lines,
    lemma_calls_on_lines_chain,
};
use crate::language::SourceLanguage;
use crate::common::{symbol_of, call_of, spans_within, new_symbol, new_call};
use crate::model::{
    CallView,
    ParseResult,
    ParseView,
    ImportView,
    Import,
    shift_view,
    shift_symbol,
    shift_call,
    lemma_shift_push_symbol,
    lemma_shift_push_call,
    lemma_shift_push_import,
};
use crate::syntax::{
    SyntaxNode,
    rows_inside,
    rows_follow,
    start_line,
    end_line,
    Field,
    field_child,
    field_text_or,
    node_text,
    well_formed,
    lemma_parts_well_formed,
    moved,
    lemma_moved_parts,
    reaches,
};
use crate::text::{
    strip_prefix,
    trim,
    trim_end_semicolons,
    find_char,
    strip_prefix_str,
    trim_ws,
    trim_class,
    CharClass,
    find_char_index,
    lemma_find_char_found,
    suffix_from,
    concat2,
    concat3,
};

verus! {

/// `<return type> <name><parameters>`, or `<name><parameters>` when the
/// return type is missing or empty.
pub open spec fn cs_method_signature(decl: SyntaxNode, src: Seq<u8>) -> Seq<char> {
    let name = field_text_or(decl, Field::Name, src, "?"@);
    let params = field_text_or(decl, Field::Parameters, src, "()"@);
    let ret = field_text_or(decl, Field::Returns, src, Seq::empty());
    if ret.len() == 0 {
        name + params
    } else {
        ret + " "@ + name + params
    }
}

/// `<name><parameters>`.
pub open spec fn cs_constructor_signature(decl: SyntaxNode, src: Seq<u8>) -> Seq<char> {
    field_text_or(decl, Field::Name, src, "?"@) + field_text_or(decl, Field::Parameters, src, "()"@)
}

/// The text of a `using` directive without the `using` or `using static`
/// keyword, when it starts with one.
pub open spec fn cs_without_using(raw: Seq<char>) -> Seq<char> {
    match strip_prefix(raw, "using static "@) {
        Some(rest) => rest,
        None => match strip_prefix(raw, "using "@) {
            Some(rest) => rest,
            None => raw,
        },
    }
}

/// For an alias `A = B`, the trimmed part after the first `=`; otherwise the text itself.
pub open spec fn cs_alias_target(target: Seq<char>) -> Seq<char> {
    match find_char(target, '=') {
        Some(pos) => trim(target.skip(pos + 1)),
        None => target,
    }
}

/// The namespace or type a `using` directive names: the text without `using`
/// or `using static` and the final `;`, and for an alias only the part after `=`.
pub open spec fn cs_using_target(text: Seq<char>) -> Seq<char> {
    cs_alias_target(trim(trim_end_semicolons(cs_without_using(trim(text)))))
}

/// What the children of `node` from index `i` on add to `acc`.
pub open spec fn cs_scan(
    node: SyntaxNode,
    i: nat,
    src: Seq<u8>,
    acc: ParseView,
    parent: Option<usize>,
) -> ParseView
    decreases node, 0int, node.children@.len() - i,
{
    if i >= node.children@.len() {
        acc
    } else {
        cs_scan(node, i + 1, src, cs_child(node.children@[i as int], src, acc, parent), parent)
    }
}

/// The symbol kind of a type declaration that contains members.
pub open spec fn cs_container_kind(kind: Seq<char>) -> Option<Seq<char>> {
    if kind == "class_declaration"@ {
        Some("class"@)
    } else if kind == "interface_declaration"@ {
        Some("interface"@)
    } else if kind == "struct_declaration"@ {
        Some("struct"@)
    } else {
        None
    }
}

/// What one child node adds to `acc`.
pub open spec fn cs_child(
    child: SyntaxNode,
    src: Seq<u8>,
    acc: ParseView,
    parent: Option<usize>,
) -> ParseView
    decreases child, 1int, 0int,
{
    if cs_container_kind(child.kind@) is Some {
        match field_child(child, Field::Name) {
            Some(name) => {
                let idx = acc.symbols.len() as usize;
                let sym = symbol_of(
                    node_text(name, src),
                    cs_container_kind(child.kind@)->0,
                    child,
                    parent,
                    None,
                );
                cs_scan(child, 0, src, acc.push_symbol(sym), Some(idx))
            },
            None => acc,
        }
    } else if child.kind@ == "enum_declaration"@ {
        match field_child(child, Field::Name) {
            Some(name) => acc.push_symbol(
                symbol_of(node_text(name, src), "enum"@, child, parent, None),
            ),
            None => acc,
        }
    } else if child.kind@ == "method_declaration"@ {
        match field_child(child, Field::Name) {
            Some(name) => {
                let idx = acc.symbols.len() as usize;
                let kind = if parent is Some {
                    "method"@
                } else {
                    "function"@
                };
                let sym = symbol_of(
                    node_text(name, src),
                    kind,
                    child,
                    parent,
                    Some(cs_method_signature(child, src)),
                );
                let with_calls = cs_calls(child, src, acc.push_symbol(sym), idx);
                cs_scan(child, 0, src, with_calls, Some(idx))
            },
            None => acc,
        }
    } else if child.kind@ == "constructor_declaration"@ {
        match field_child(child, Field::Name) {
            Some(name) => {
                let idx = acc.symbols.len() as usize;
                let sym = symbol_of(
                    node_text(name, src),
                    "constructor"@,
                    child,
                    parent,
                    Some(cs_constructor_signature(child, src)),
                );
                cs_calls(child, src, acc.push_symbol(sym), idx)
            },
            None => acc,
        }
    } else if child.kind@ == "using_directive"@ {
        let target = cs_using_target(node_text(child, src));
        if target.len() == 0 {
            acc
        } else {
            acc.push_import(ImportView { module: target, names: None })
        }
    } else {
        cs_scan(child, 0, src, acc, parent)
    }
}

/// The calls below `node` from child `i` on, attributed to symbol `caller`.
pub open spec fn cs_calls_scan(
    node: SyntaxNode,
    i: nat,
    src: Seq<u8>,
    acc: ParseView,
    caller: usize,
) -> ParseView
    decreases node, 0int, node.children@.len() - i,
{
    if i >= node.children@.len() {
        acc
    } else {
        cs_calls_scan(
            node,
            i + 1,
            src,
            cs_call_child(node.children@[i as int], src, acc, caller),
            caller,
        )
    }
}

/// The name an invocation calls: an identifier, or the name of a member
/// access; `None` for any other callee.
pub open spec fn cs_callee(call: SyntaxNode, src: Seq<u8>) -> Option<Seq<char>> {
    match field_child(call, Field::Function) {
        Some(f) => if f.kind@ == "identifier"@ {
            Some(node_text(f, src))
        } else if f.kind@ == "member_access_expression"@ {
            match field_child(f, Field::Name) {
                Some(n) => Some(node_text(n, src)),
                None => None,
            }
        } else {
            None
        },
        None => None,
    }
}

/// The calls found in one child and below it.
pub open spec fn cs_call_child(child: SyntaxNode, src: Seq<u8>, acc: ParseView, caller: usize) -> ParseView
    decreases child, 1int, 0int,
{
    let with_call = if child.kind@ == "invocation_expression"@ && cs_callee(child, src) is Some {
        acc.push_call(call_of(caller, cs_callee(child, src)->0, child))
    } else {
        acc
    };
    cs_calls_scan(child, 0, src, with_call, caller)
}

/// The calls inside `node`, attributed to symbol `caller`.
pub open spec fn cs_calls(node: SyntaxNode, src: Seq<u8>, acc: ParseView, caller: usize) -> ParseView {
    cs_calls_scan(node, 0, src, acc, caller)
}

/// Everything extracted from a C# tree.
pub open spec fn csharp_extract(root: SyntaxNode, src: Seq<u8>, acc: ParseView) -> ParseView {
    cs_scan(root, 0, src, acc, None)
}

fn csharp_method_signature(decl: &SyntaxNode, src: &[u8]) -> (s: String)
    requires
        well_formed(*decl, src@.len()),
    ensures
        s@ == cs_method_signature(*decl, src@),
{
    proof {
        lemma_parts_well_formed(*decl, src@.len());
        reveal_strlit("?");
        reveal_strlit("()");
        reveal_strlit("");
    }
    let name = match decl.child_by_field(Field::Name) {
        Some(n) => n.text(src),
        None => "?",
    };
    let params = match decl.child_by_field(Field::Parameters) {
        Some(p) => p.text(src),
        None => "()",
    };
    let ret = match decl.child_by_field(Field::Returns) {
        Some(r) => r.text(src),
        None => "",
    };
    if ret.is_empty() {
        concat2(name, params)
    } else {
        let mut s = concat3(ret, " ", name);
        s.append(params);
        s
    }
}

fn csharp_constructor_signature(decl: &SyntaxNode, src: &[u8]) -> (s: String)
    requires
        well_formed(*decl, src@.len()),
    ensures
        s@ == cs_constructor_signature(*decl, src@),
{
    proof {
        lemma_parts_well_formed(*decl, src@.len());
        reveal_strlit("?");
        reveal_strlit("()");
    }
    let name = match decl.child_by_field(Field::Name) {
        Some(n) => n.text(src),
        None => "?",
    };
    let params = match decl.child_by_field(Field::Parameters) {
        Some(p) => p.text(src),
        None => "()",
    };
    concat2(name, params)
}

fn csharp_without_using<'a>(raw: &'a str) -> (r: &'a str)
    ensures
        r@ == cs_without_using(raw@),
{
    match strip_prefix_str(raw, "using static ") {
        Some(rest) => rest,
        None => match strip_prefix_str(raw, "using ") {
            Some(rest) => rest,
            None => raw,
        },
    }
}

fn csharp_alias_target<'a>(target: &'a str) -> (r: &'a str)
    ensures
        r@ == cs_alias_target(target@),
{
    match find_char_index(target, '=') {
        Some(pos) => {
            proof {
                lemma_find_char_found(target@, '=');
            }
            trim_ws(suffix_from(target, pos + 1))
        },
        None => target,
    }
}

/// The target of a `using` directive, as `cs_using_target` describes it.
pub fn csharp_using_target<'a>(text: &'a str) -> (r: &'a str)
    ensures
        r@ == cs_using_target(text@),
{
    let without_keyword = csharp_without_using(trim_ws(text));
    csharp_alias_target(trim_ws(trim_class(without_keyword, CharClass::Semicolon, false, true)))
}

/// Adds what the children of `node` hold to `result`.
pub fn csharp_node(node: &SyntaxNode, src: &[u8], result: &mut ParseResult, parent: Option<usize>)
    requires
        well_formed(*node, src@.len()),
    ensures
        final(result)@ == cs_scan(*node, 0, src@, old(result)@, parent),
    decreases node, 0int,
{
    proof {
        lemma_parts_well_formed(*node, src@.len());
    }
    let mut i: usize = 0;
    while i < node.children.len()
        invariant
            i <= node.children@.len(),
            forall|k: int|
                0 <= k < node.children@.len() ==> well_formed(#[trigger] node.children@[k], src@.len()),
            cs_scan(*node, i as nat, src@, result@, parent) == cs_scan(
                *node,
                0,
                src@,
                old(result)@,
                parent,
            ),
        decreases node.children@.len() - i,
    {
        csharp_child(&node.children[i], src, result, parent);
        i = i + 1;
    }
}

fn csharp_child(child: &SyntaxNode, src: &[u8], result: &mut ParseResult, parent: Option<usize>)
    requires
        well_formed(*child, src@.len()),
    ensures
        final(result)@ == cs_child(*child, src@, old(result)@, parent),
    decreases child, 1int,
{
    proof {
        lemma_parts_well_formed(*child, src@.len());
    }
    let container: Option<&str> = if child.is_kind("class_declaration") {
        Some("class")
    } else if child.is_kind("interface_declaration") {
        Some("interface")
    } else if child.is_kind("struct_declaration") {
        Some("struct")
    } else {
        None
    };
    if let Some(kind) = container {
        if let Some(name_node) = child.child_by_field(Field::Name) {
            let idx = result.symbol_count();
            result.add_symbol(new_symbol(name_node.text(src), kind, child, parent, None));
            csharp_node(child, src, result, Some(idx));
        }
    } else if child.is_kind("enum_declaration") {
        if let Some(name_node) = child.child_by_field(Field::Name) {
            result.add_symbol(new_symbol(name_node.text(src), "enum", child, parent, None));
        }
    } else if child.is_kind("method_declaration") {
        if let Some(name_node) = child.child_by_field(Field::Name) {
            let kind = if parent.is_some() {
                "method"
            } else {
                "function"
            };
            let sig = csharp_method_signature(child, src);
            let idx = result.symbol_count();
            result.add_symbol(new_symbol(name_node.text(src), kind, child, parent, Some(sig)));
            csharp_calls(child, src, result, idx);
            csharp_node(child, src, result, Some(idx));
        }
    } else if child.is_kind("constructor_declaration") {
        if let Some(name_node) = child.child_by_field(Field::Name) {
            let sig = csharp_constructor_signature(child, src);
            let idx = result.symbol_count();
            result.add_symbol(
                new_symbol(name_node.text(src), "constructor", child, parent, Some(sig)),
            );
            csharp_calls(child, src, result, idx);
        }
    } else if child.is_kind("using_directive") {
        let target = csharp_using_target(child.text(src));
        if !target.is_empty() {
            result.add_import(Import { module: String::from_str(target), names: None });
        }
    } else {
        csharp_node(child, src, result, parent);
    }
}

/// Adds the calls inside `node` to `result`, attributed to symbol `caller`.
fn csharp_calls(node: &SyntaxNode, src: &[u8], result: &mut ParseResult, caller: usize)
    requires
        well_formed(*node, src@.len()),
    ensures
        final(result)@ == cs_calls_scan(*node, 0, src@, old(result)@, caller),
    decreases node, 0int,
{
    proof {
        lemma_parts_well_formed(*node, src@.len());
    }
    let mut i: usize = 0;
    while i < node.children.len()
        invariant
            i <= node.children@.len(),
            forall|k: int|
                0 <= k < node.children@.len() ==> well_formed(#[trigger] node.children@[k], src@.len()),
            cs_calls_scan(*node, i as nat, src@, result@, caller) == cs_calls_scan(
                *node,
                0,
                src@,
                old(result)@,
                caller,
            ),
        decreases node.children@.len() - i,
    {
        csharp_call_child(&node.children[i], src, result, caller);
        i = i + 1;
    }
}

fn csharp_call_child(child: &SyntaxNode, src: &[u8], result: &mut ParseResult, caller: usize)
    requires
        well_formed(*child, src@.len()),
    ensures
        final(result)@ == cs_call_child(*child, src@, old(result)@, caller),
    decreases child, 1int,
{
    proof {
        lemma_parts_well_formed(*child, src@.len());
    }
    if child.is_kind("invocation_expression") {
        if let Some(func) = child.child_by_field(Field::Function) {
            proof {
                lemma_parts_well_formed(*func, src@.len());
            }
            let name: Option<&str> = if func.is_kind("identifier") {
                Some(func.text(src))
            } else if func.is_kind("member_access_expression") {
                match func.child_by_field(Field::Name) {
                    Some(n) => Some(n.text(src)),
                    None => None,
                }
            } else {
                None
            };
            if let Some(name) = name {
                result.add_call(new_call(caller, name, child));
            }
        }
    }
    csharp_calls(child, src, result, caller);
}


/// Call extraction appends calls attributed to `caller` and changes nothing else.
pub proof fn cs_calls_scan_appends(node: SyntaxNode, i: nat, src: Seq<u8>, acc: ParseView, caller: usize)
    ensures
        calls_appended(acc, cs_calls_scan(node, i, src, acc, caller), caller),
    decreases node, 0int, node.children@.len() - i,
{
    if i < node.children@.len() {
        let c = node.children@[i as int];
        let m = cs_call_child(c, src, acc, caller);
        cs_call_child_appends(c, src, acc, caller);
        cs_calls_scan_appends(node, i + 1, src, m, caller);
        lemma_calls_appended_chain(acc, m, cs_calls_scan(node, i + 1, src, m, caller), caller);
    }
}

proof fn cs_call_child_appends(child: SyntaxNode, src: Seq<u8>, acc: ParseView, caller: usize)
    ensures
        calls_appended(acc, cs_call_child(child, src, acc, caller), caller),
    decreases child, 1int, 0int,
{
    let with_call = if child.kind@ == "invocation_expression"@ && cs_callee(child, src) is Some {
        acc.push_call(call_of(caller, cs_callee(child, src)->0, child))
    } else {
        acc
    };
    cs_calls_scan_appends(child, 0, src, with_call, caller);
    lemma_calls_appended_chain(acc, with_call, cs_calls_scan(child, 0, src, with_call, caller), caller);
}

/// Every call that call extraction appends lies on the lines of `node`.
pub proof fn cs_calls_scan_lines(node: SyntaxNode, i: nat, src: Seq<u8>, acc: ParseView, caller: usize)
    requires
        well_formed(node, src.len()),
    ensures
        calls_on_lines(
            acc,
            cs_calls_scan(node, i, src, acc, caller),
            start_line(node) as int,
            end_line(node) as int,
        ),
    decreases node, 0int, node.children@.len() - i,
{
    if i < node.children@.len() {
        lemma_parts_well_formed(node, src.len());
        let c = node.children@[i as int];
        let m = cs_call_child(c, src, acc, caller);
        let r = cs_calls_scan(node, i + 1, src, m, caller);
        assert(rows_inside(c, node) && well_formed(c, src.len()));
        cs_call_child_lines(c, src, acc, caller);
        cs_calls_scan_lines(node, i + 1, src, m, caller);
        cs_call_child_appends(c, src, acc, caller);
        cs_calls_scan_appends(node, i + 1, src, m, caller);
        lemma_calls_on_lines_chain(
            acc,
            m,
            r,
            start_line(c) as int,
            end_line(c) as int,
            start_line(node) as int,
            end_line(node) as int,
            start_line(node) as int,
            end_line(node) as int,
        );
    }
}

proof fn cs_call_child_lines(child: SyntaxNode, src: Seq<u8>, acc: ParseView, caller: usize)
    requires
        well_formed(child, src.len()),
    ensures
        calls_on_lines(
            acc,
            cs_call_child(child, src, acc, caller),
            start_line(child) as int,
            end_line(child) as int,
        ),
    decreases child, 1int, 0int,
{
    let lo = start_line(child) as int;
    let hi = end_line(child) as int;
    let with_call = if child.kind@ == "invocation_expression"@ && cs_callee(child, src) is Some {
        acc.push_call(call_of(caller, cs_callee(child, src)->0, child))
    } else {
        acc
    };
    let r = cs_calls_scan(child, 0, src, with_call, caller);
    cs_calls_scan_lines(child, 0, src, with_call, caller);
    cs_calls_scan_appends(child, 0, src, with_call, caller);
    lemma_calls_on_lines_chain(acc, with_call, r, lo, hi, lo, hi, lo, hi);
}

/// Call extraction keeps a result consistent when the caller exists.
proof fn cs_calls_scan_sound(node: SyntaxNode, i: nat, src: Seq<u8>, acc: ParseView, caller: usize)
    requires
        well_formed(node, src.len()),
        consistent(acc, SourceLanguage::CSharp),
        can_call(acc.symbols, caller),
        spans_within(node, acc.symbols[caller as int]),
    ensures
        consistent(cs_calls_scan(node, i, src, acc, caller), SourceLanguage::CSharp),
    decreases node, 0int, node.children@.len() - i,
{
    if i < node.children@.len() {
        lemma_parts_well_formed(node, src.len());
        let c = node.children@[i as int];
        assert(rows_inside(c, node) && well_formed(c, src.len()));
        cs_call_child_appends(c, src, acc, caller);
        cs_call_child_sound(c, src, acc, caller);
        cs_calls_scan_sound(node, i + 1, src, cs_call_child(c, src, acc, caller), caller);
    }
}

proof fn cs_call_child_sound(child: SyntaxNode, src: Seq<u8>, acc: ParseView, caller: usize)
    requires
        well_formed(child, src.len()),
        consistent(acc, SourceLanguage::CSharp),
        can_call(acc.symbols, caller),
        spans_within(child, acc.symbols[caller as int]),
    ensures
        consistent(cs_call_child(child, src, acc, caller), SourceLanguage::CSharp),
    decreases child, 1int, 0int,
{
    if child.kind@ == "invocation_expression"@ && cs_callee(child, src) is Some {
        let c = call_of(caller, cs_callee(child, src)->0, child);
        lemma_push_call(acc, c, SourceLanguage::CSharp);
        cs_calls_scan_sound(child, 0, src, acc.push_call(c), caller);
    } else {
        cs_calls_scan_sound(child, 0, src, acc, caller);
    }
}

/// Extraction only appends to the result; what it appends hangs below
/// `parent` or below a symbol it appended, and every call it appends is
/// attributed to a symbol it appended (the indices as far as they can be
/// counted in a `usize`).
pub proof fn cs_scan_appends(node: SyntaxNode, i: nat, src: Seq<u8>, acc: ParseView, parent: Option<usize>)
    ensures
        extends(acc, cs_scan(node, i, src, acc, parent)),
        cs_scan(node, i, src, acc, parent).symbols.len() <= usize::MAX ==> appended_below(
            acc,
            cs_scan(node, i, src, acc, parent),
            parent,
        ),
    decreases node, 0int, node.children@.len() - i,
{
    if i < node.children@.len() {
        let c = node.children@[i as int];
        let m = cs_child(c, src, acc, parent);
        let r = cs_scan(node, i + 1, src, m, parent);
        cs_child_appends(c, src, acc, parent);
        cs_scan_appends(node, i + 1, src, m, parent);
        lemma_extends_chain(acc, m, r, acc.symbols.len() as int, parent);
        lemma_fresh_weaken(m, r, m.symbols.len() as int, parent, acc.symbols.len() as int, parent);
    }
}

proof fn cs_child_appends(child: SyntaxNode, src: Seq<u8>, acc: ParseView, parent: Option<usize>)
    ensures
        extends(acc, cs_child(child, src, acc, parent)),
        cs_child(child, src, acc, parent).symbols.len() <= usize::MAX ==> appended_below(
            acc,
            cs_child(child, src, acc, parent),
            parent,
        ),
    decreases child, 1int, 0int,
{
    let base = acc.symbols.len() as int;
    if cs_container_kind(child.kind@) is Some {
        if let Some(name) = field_child(child, Field::Name) {
            let idx = acc.symbols.len() as usize;
            let sym = symbol_of(node_text(name, src), cs_container_kind(child.kind@)->0, child, parent, None);
            let a1 = acc.push_symbol(sym);
            let r = cs_scan(child, 0, src, a1, Some(idx));
            lemma_push_symbol_appends(acc, sym);
            cs_scan_appends(child, 0, src, a1, Some(idx));
            lemma_extends_chain(acc, a1, r, base, parent);
            lemma_fresh_weaken(a1, r, a1.symbols.len() as int, Some(idx), base, parent);
        }
    } else if child.kind@ == "enum_declaration"@ {
        if let Some(name) = field_child(child, Field::Name) {
            lemma_push_symbol_appends(acc, symbol_of(node_text(name, src), "enum"@, child, parent, None));
        }
    } else if child.kind@ == "method_declaration"@ {
        if let Some(name) = field_child(child, Field::Name) {
            let idx = acc.symbols.len() as usize;
            let kind = if parent is Some {
                "method"@
            } else {
                "function"@
            };
            let sym = symbol_of(node_text(name, src), kind, child, parent, Some(cs_method_signature(child, src)));
            let a1 = acc.push_symbol(sym);
            let a2 = cs_calls(child, src, a1, idx);
            let r = cs_scan(child, 0, src, a2, Some(idx));
            lemma_push_symbol_appends(acc, sym);
            cs_calls_scan_appends(child, 0, src, a1, idx);
            lemma_calls_appended_fresh(a1, a2, idx, base, parent);
            cs_scan_appends(child, 0, src, a2, Some(idx));
            lemma_extends_chain(acc, a1, a2, base, parent);
            lemma_extends_chain(acc, a2, r, base, parent);
            lemma_fresh_weaken(a2, r, a2.symbols.len() as int, Some(idx), base, parent);
        }
    } else if child.kind@ == "constructor_declaration"@ {
        if let Some(name) = field_child(child, Field::Name) {
            let idx = acc.symbols.len() as usize;
            let sym = symbol_of(node_text(name, src), "constructor"@, child, parent, Some(cs_constructor_signature(child, src)));
            let a1 = acc.push_symbol(sym);
            let r = cs_calls(child, src, a1, idx);
            lemma_push_symbol_appends(acc, sym);
            cs_calls_scan_appends(child, 0, src, a1, idx);
            lemma_calls_appended_fresh(a1, r, idx, base, parent);
            lemma_extends_chain(acc, a1, r, base, parent);
        }
    } else if child.kind@ == "using_directive"@ {
        let target = cs_using_target(node_text(child, src));
        if target.len() != 0 {
            lemma_push_import_appends(acc, ImportView { module: target, names: None }, base, parent);
        }
    } else {
        cs_scan_appends(child, 0, src, acc, parent);
    }
}

/// Extraction lists the symbols it finds in the order of the lines they start
/// on, after those already found, and none of them starts after `node` ends.
pub proof fn cs_scan_ordered(node: SyntaxNode, i: nat, src: Seq<u8>, acc: ParseView, parent: Option<usize>)
    requires
        well_formed(node, src.len()),
        in_source_order(acc),
        i < node.children@.len() ==> starts_by(acc, start_line(node.children@[i as int]) as int),
        i >= node.children@.len() ==> starts_by(acc, end_line(node) as int),
    ensures
        in_source_order(cs_scan(node, i, src, acc, parent)),
        starts_by(cs_scan(node, i, src, acc, parent), end_line(node) as int),
    decreases node, 0int, node.children@.len() - i,
{
    if i < node.children@.len() {
        lemma_parts_well_formed(node, src.len());
        let c = node.children@[i as int];
        let m = cs_child(c, src, acc, parent);
        assert(rows_inside(c, node));
        cs_child_ordered(c, src, acc, parent);
        if i + 1 < node.children@.len() {
            assert(rows_follow(c, node.children@[i + 1 as int]));
            assert(well_formed(node.children@[i + 1 as int], src.len()));
            lemma_starts_by_weaken(m, end_line(c) as int, start_line(node.children@[i + 1 as int]) as int);
        } else {
            lemma_starts_by_weaken(m, end_line(c) as int, end_line(node) as int);
        }
        cs_scan_ordered(node, i + 1, src, m, parent);
    }
}

proof fn cs_child_ordered(child: SyntaxNode, src: Seq<u8>, acc: ParseView, parent: Option<usize>)
    requires
        well_formed(child, src.len()),
        in_source_order(acc),
        starts_by(acc, start_line(child) as int),
    ensures
        in_source_order(cs_child(child, src, acc, parent)),
        starts_by(cs_child(child, src, acc, parent), end_line(child) as int),
    decreases child, 1int, 0int,
{
    lemma_parts_well_formed(child, src.len());
    let first = start_line(child) as int;
    let last = end_line(child) as int;
    let next = if child.children@.len() > 0 {
        assert(rows_inside(child.children@[0], child));
        assert(well_formed(child.children@[0], src.len()));
        start_line(child.children@[0]) as int
    } else {
        last
    };
    lemma_starts_by_weaken(acc, first, last);
    lemma_starts_by_weaken(acc, first, next);
    if cs_container_kind(child.kind@) is Some {
        if let Some(name) = field_child(child, Field::Name) {
            let idx = acc.symbols.len() as usize;
            let sym = symbol_of(node_text(name, src), cs_container_kind(child.kind@)->0, child, parent, None);
            let a1 = acc.push_symbol(sym);
            lemma_push_symbol_ordered(acc, sym);
            lemma_starts_by_weaken(a1, first, next);
            cs_scan_ordered(child, 0, src, a1, Some(idx));
        }
    } else if child.kind@ == "enum_declaration"@ {
        if let Some(name) = field_child(child, Field::Name) {
            let sym = symbol_of(node_text(name, src), "enum"@, child, parent, None);
            lemma_push_symbol_ordered(acc, sym);
            lemma_starts_by_weaken(acc.push_symbol(sym), first, last);
        }
    } else if child.kind@ == "method_declaration"@ {
        if let Some(name) = field_child(child, Field::Name) {
            let idx = acc.symbols.len() as usize;
            let kind = if parent is Some {
                "method"@
            } else {
                "function"@
            };
            let sym = symbol_of(node_text(name, src), kind, child, parent, Some(cs_method_signature(child, src)));
            let a1 = acc.push_symbol(sym);
            let a2 = cs_calls(child, src, a1, idx);
            lemma_push_symbol_ordered(acc, sym);
            cs_calls_scan_appends(child, 0, src, a1, idx);
            assert(a2.symbols == a1.symbols);
            lemma_starts_by_weaken(a2, first, next);
            cs_scan_ordered(child, 0, src, a2, Some(idx));
        }
    } else if child.kind@ == "constructor_declaration"@ {
        if let Some(name) = field_child(child, Field::Name) {
            let idx = acc.symbols.len() as usize;
            let sym = symbol_of(node_text(name, src), "constructor"@, child, parent, Some(cs_constructor_signature(child, src)));
            let a1 = acc.push_symbol(sym);
            let r = cs_calls(child, src, a1, idx);
            lemma_push_symbol_ordered(acc, sym);
            cs_calls_scan_appends(child, 0, src, a1, idx);
            assert(r.symbols == a1.symbols);
            lemma_starts_by_weaken(r, first, last);
        }
    } else if child.kind@ == "using_directive"@ {
    } else {
        cs_scan_ordered(child, 0, src, acc, parent);
    }
}

/// Extraction keeps a result consistent, as long as its symbols can be counted.
pub proof fn cs_scan_sound(node: SyntaxNode, i: nat, src: Seq<u8>, acc: ParseView, parent: Option<usize>)
    requires
        well_formed(node, src.len()),
        consistent(acc, SourceLanguage::CSharp),
        parent_ok(parent, acc),
    ensures
        cs_scan(node, i, src, acc, parent).symbols.len() <= usize::MAX ==> consistent(
            cs_scan(node, i, src, acc, parent),
            SourceLanguage::CSharp,
        ),
    decreases node, 0int, node.children@.len() - i,
{
    if i < node.children@.len() {
        lemma_parts_well_formed(node, src.len());
        let c = node.children@[i as int];
        let m = cs_child(c, src, acc, parent);
        cs_child_appends(c, src, acc, parent);
        cs_scan_appends(node, i + 1, src, m, parent);
        if m.symbols.len() <= usize::MAX {
            cs_child_sound(c, src, acc, parent);
            cs_scan_sound(node, i + 1, src, m, parent);
        }
    }
}

proof fn cs_child_sound(child: SyntaxNode, src: Seq<u8>, acc: ParseView, parent: Option<usize>)
    requires
        well_formed(child, src.len()),
        consistent(acc, SourceLanguage::CSharp),
        parent_ok(parent, acc),
    ensures
        cs_child(child, src, acc, parent).symbols.len() <= usize::MAX ==> consistent(
            cs_child(child, src, acc, parent),
            SourceLanguage::CSharp,
        ),
    decreases child, 1int, 0int,
{
    lemma_parts_well_formed(child, src.len());
    lemma_kind_names_differ();
    let r = cs_child(child, src, acc, parent);
    if cs_container_kind(child.kind@) is Some {
        if let Some(name) = field_child(child, Field::Name) {
            let idx = acc.symbols.len() as usize;
            let sym = symbol_of(node_text(name, src), cs_container_kind(child.kind@)->0, child, parent, None);
            let a1 = acc.push_symbol(sym);
            cs_scan_appends(child, 0, src, a1, Some(idx));
            if r.symbols.len() <= usize::MAX {
                lemma_push_symbol(acc, sym, SourceLanguage::CSharp);
                cs_scan_sound(child, 0, src, a1, Some(idx));
            }
        }
    } else if child.kind@ == "enum_declaration"@ {
        if let Some(name) = field_child(child, Field::Name) {
            lemma_push_symbol(acc, symbol_of(node_text(name, src), "enum"@, child, parent, None), SourceLanguage::CSharp);
        }
    } else if child.kind@ == "method_declaration"@ {
        if let Some(name) = field_child(child, Field::Name) {
            let idx = acc.symbols.len() as usize;
            let kind = if parent is Some {
                "method"@
            } else {
                "function"@
            };
            let sym = symbol_of(node_text(name, src), kind, child, parent, Some(cs_method_signature(child, src)));
            let a1 = acc.push_symbol(sym);
            let a2 = cs_calls(child, src, a1, idx);
            cs_calls_scan_appends(child, 0, src, a1, idx);
            cs_scan_appends(child, 0, src, a2, Some(idx));
            if r.symbols.len() <= usize::MAX {
                lemma_push_symbol(acc, sym, SourceLanguage::CSharp);
                cs_calls_scan_sound(child, 0, src, a1, idx);
                cs_scan_sound(child, 0, src, a2, Some(idx));
            }
        }
    } else if child.kind@ == "constructor_declaration"@ {
        if let Some(name) = field_child(child, Field::Name) {
            let idx = acc.symbols.len() as usize;
            let sym = symbol_of(node_text(name, src), "constructor"@, child, parent, Some(cs_constructor_signature(child, src)));
            let a1 = acc.push_symbol(sym);
            cs_calls_scan_appends(child, 0, src, a1, idx);
            if r.symbols.len() <= usize::MAX {
                lemma_push_symbol(acc, sym, SourceLanguage::CSharp);
                cs_calls_scan_sound(child, 0, src, a1, idx);
            }
        }
    } else if child.kind@ == "using_directive"@ {
        let target = cs_using_target(node_text(child, src));
        if target.len() != 0 {
            lemma_push_import(acc, ImportView { module: target, names: None }, SourceLanguage::CSharp);
        }
    } else {
        cs_scan_sound(child, 0, src, acc, parent);
    }
}


/// Trees that differ only in where they lie give the same calls, on lines
/// moved as theirs are.
proof fn cs_calls_scan_moved(
    a: SyntaxNode,
    b: SyntaxNode,
    i: nat,
    sa: Seq<u8>,
    sb: Seq<u8>,
    acc: ParseView,
    caller: usize,
    lines: int,
)
    requires
        moved(a, b, sa, sb, lines),
    ensures
        cs_calls_scan(b, i, sb, shift_view(acc, lines), caller) == shift_view(
            cs_calls_scan(a, i, sa, acc, caller),
            lines,
        ),
    decreases a, 0int, a.children@.len() - i,
{
    if i < a.children@.len() {
        let ca = a.children@[i as int];
        let cb = b.children@[i as int];
        assert(moved(ca, cb, sa, sb, lines));
        cs_call_child_moved(ca, cb, sa, sb, acc, caller, lines);
        cs_calls_scan_moved(a, b, i + 1, sa, sb, cs_call_child(ca, sa, acc, caller), caller, lines);
    }
}

proof fn cs_call_child_moved(
    a: SyntaxNode,
    b: SyntaxNode,
    sa: Seq<u8>,
    sb: Seq<u8>,
    acc: ParseView,
    caller: usize,
    lines: int,
)
    requires
        moved(a, b, sa, sb, lines),
    ensures
        cs_call_child(b, sb, shift_view(acc, lines), caller) == shift_view(
            cs_call_child(a, sa, acc, caller),
            lines,
        ),
    decreases a, 1int, 0int,
{
    lemma_moved_parts(a, b, sa, sb, lines);
    if field_child(a, Field::Function) is Some {
        let fa = field_child(a, Field::Function)->0;
        let fb = field_child(b, Field::Function)->0;
        lemma_moved_parts(fa, fb, sa, sb, lines);
    }
    assert(cs_callee(b, sb) == cs_callee(a, sa));
    let with_call = if a.kind@ == "invocation_expression"@ && cs_callee(a, sa) is Some {
        let c = call_of(caller, cs_callee(a, sa)->0, a);
        lemma_shift_push_call(acc, c, lines);
        assert(call_of(caller, cs_callee(a, sa)->0, b) == shift_call(c, lines));
        acc.push_call(c)
    } else {
        acc
    };
    cs_calls_scan_moved(a, b, 0, sa, sb, with_call, caller, lines);
}

/// Extraction depends on where a tree lies only through line numbers: trees
/// that differ only in that give results that differ only in their lines.
pub proof fn cs_scan_moved(
    a: SyntaxNode,
    b: SyntaxNode,
    i: nat,
    sa: Seq<u8>,
    sb: Seq<u8>,
    acc: ParseView,
    parent: Option<usize>,
    lines: int,
)
    requires
        moved(a, b, sa, sb, lines),
    ensures
        cs_scan(b, i, sb, shift_view(acc, lines), parent) == shift_view(
            cs_scan(a, i, sa, acc, parent),
            lines,
        ),
    decreases a, 0int, a.children@.len() - i,
{
    if i < a.children@.len() {
        let ca = a.children@[i as int];
        let cb = b.children@[i as int];
        assert(moved(ca, cb, sa, sb, lines));
        cs_child_moved(ca, cb, sa, sb, acc, parent, lines);
        cs_scan_moved(a, b, i + 1, sa, sb, cs_child(ca, sa, acc, parent), parent, lines);
    }
}

proof fn cs_child_moved(
    a: SyntaxNode,
    b: SyntaxNode,
    sa: Seq<u8>,
    sb: Seq<u8>,
    acc: ParseView,
    parent: Option<usize>,
    lines: int,
)
    requires
        moved(a, b, sa, sb, lines),
    ensures
        cs_child(b, sb, shift_view(acc, lines), parent) == shift_view(cs_child(a, sa, acc, parent), lines),
    decreases a, 1int, 0int,
{
    lemma_moved_parts(a, b, sa, sb, lines);
    if field_child(a, Field::Name) is Some {
        lemma_moved_parts(field_child(a, Field::Name)->0, field_child(b, Field::Name)->0, sa, sb, lines);
    }
    if cs_container_kind(a.kind@) is Some {
        if let Some(name) = field_child(a, Field::Name) {
            let idx = acc.symbols.len() as usize;
            let sym = symbol_of(node_text(name, sa), cs_container_kind(a.kind@)->0, a, parent, None);
            lemma_shift_push_symbol(acc, sym, lines);
            assert(symbol_of(node_text(name, sa), cs_container_kind(a.kind@)->0, b, parent, None) == shift_symbol(sym, lines));
            cs_scan_moved(a, b, 0, sa, sb, acc.push_symbol(sym), Some(idx), lines);
        }
    } else if a.kind@ == "enum_declaration"@ {
        if let Some(name) = field_child(a, Field::Name) {
            let sym = symbol_of(node_text(name, sa), "enum"@, a, parent, None);
            lemma_shift_push_symbol(acc, sym, lines);
            assert(symbol_of(node_text(name, sa), "enum"@, b, parent, None) == shift_symbol(sym, lines));
        }
    } else if a.kind@ == "method_declaration"@ {
        if let Some(name) = field_child(a, Field::Name) {
            assert(cs_method_signature(b, sb) == cs_method_signature(a, sa));
            let idx = acc.symbols.len() as usize;
            let kind = if parent is Some {
                "method"@
            } else {
                "function"@
            };
            let sym = symbol_of(node_text(name, sa), kind, a, parent, Some(cs_method_signature(a, sa)));
            let a1 = acc.push_symbol(sym);
            lemma_shift_push_symbol(acc, sym, lines);
            assert(symbol_of(node_text(name, sa), kind, b, parent, Some(cs_method_signature(a, sa))) == shift_symbol(sym, lines));
            cs_calls_scan_moved(a, b, 0, sa, sb, a1, idx, lines);
            cs_scan_moved(a, b, 0, sa, sb, cs_calls(a, sa, a1, idx), Some(idx), lines);
        }
    } else if a.kind@ == "constructor_declaration"@ {
        if let Some(name) = field_child(a, Field::Name) {
            assert(cs_constructor_signature(b, sb) == cs_constructor_signature(a, sa));
            let idx = acc.symbols.len() as usize;
            let sym = symbol_of(node_text(name, sa), "constructor"@, a, parent, Some(cs_constructor_signature(a, sa)));
            lemma_shift_push_symbol(acc, sym, lines);
            assert(symbol_of(node_text(name, sa), "constructor"@, b, parent, Some(cs_constructor_signature(a, sa))) == shift_symbol(sym, lines));
            cs_calls_scan_moved(a, b, 0, sa, sb, acc.push_symbol(sym), idx, lines);
        }
    } else if a.kind@ == "using_directive"@ {
        let target = cs_using_target(node_text(a, sa));
        if target.len() != 0 {
            lemma_shift_push_import(acc, ImportView { module: target, names: None }, lines);
        }
    } else {
        cs_scan_moved(a, b, 0, sa, sb, acc, parent, lines);
    }
}

/// Nodes that definition extraction passes into, reading what lies below them
/// with the parent it was given: all but type and member declarations and
/// `using` directives (so namespaces, declaration lists and the like).
pub open spec fn cs_scan_passes(x: SyntaxNode) -> bool {
    !(x.kind@ == "class_declaration"@ || x.kind@ == "interface_declaration"@ || x.kind@
        == "struct_declaration"@ || x.kind@ == "enum_declaration"@ || x.kind@ == "method_declaration"@
        || x.kind@ == "constructor_declaration"@ || x.kind@ == "using_directive"@)
}

pub open spec fn cs_scan_through() -> spec_fn(SyntaxNode) -> bool {
    |x: SyntaxNode| cs_scan_passes(x)
}

/// An invocation whose callee is an identifier, or a member access with a name.
pub open spec fn cs_named_call(x: SyntaxNode) -> bool {
    &&& x.kind@ == "invocation_expression"@
    &&& field_child(x, Field::Function) is Some
    &&& ({
        let f = field_child(x, Field::Function)->0;
        f.kind@ == "identifier"@ || (f.kind@ == "member_access_expression"@ && field_child(f, Field::Name) is Some)
    })
}

/// The name a named invocation calls: the identifier, or the member's name.
pub open spec fn cs_called_name(x: SyntaxNode, src: Seq<u8>) -> Seq<char> {
    let f = field_child(x, Field::Function)->0;
    if f.kind@ == "identifier"@ {
        node_text(f, src)
    } else {
        node_text(field_child(f, Field::Name)->0, src)
    }
}

/// Call extraction passes into every node.
pub open spec fn cs_call_through() -> spec_fn(SyntaxNode) -> bool {
    |x: SyntaxNode| true
}

/// The declaration kinds are told apart.
proof fn cs_kinds_differ()
    ensures
        "method_declaration"@ != "class_declaration"@,
        "method_declaration"@ != "interface_declaration"@,
        "method_declaration"@ != "struct_declaration"@,
        "method_declaration"@ != "enum_declaration"@,
        "constructor_declaration"@ != "class_declaration"@,
        "constructor_declaration"@ != "interface_declaration"@,
        "constructor_declaration"@ != "struct_declaration"@,
        "constructor_declaration"@ != "enum_declaration"@,
        "constructor_declaration"@ != "method_declaration"@,
{
    reveal_strlit("method_declaration");
    reveal_strlit("constructor_declaration");
    reveal_strlit("class_declaration");
    reveal_strlit("interface_declaration");
    reveal_strlit("struct_declaration");
    reveal_strlit("enum_declaration");
    assert("method_declaration"@.len() != "class_declaration"@.len());
    assert("method_declaration"@.len() != "interface_declaration"@.len());
    assert("method_declaration"@[0] != "struct_declaration"@[0]);
    assert("method_declaration"@.len() != "enum_declaration"@.len());
    assert("constructor_declaration"@.len() != "class_declaration"@.len());
    assert("constructor_declaration"@.len() != "interface_declaration"@.len());
    assert("constructor_declaration"@.len() != "struct_declaration"@.len());
    assert("constructor_declaration"@.len() != "enum_declaration"@.len());
    assert("constructor_declaration"@.len() != "method_declaration"@.len());
}

/// The scan of `node` reaches its child `i` with a result that extends the
/// one it started from.
proof fn cs_scan_split(node: SyntaxNode, i: nat, src: Seq<u8>, acc: ParseView, parent: Option<usize>) -> (a:
    ParseView)
    requires
        i < node.children@.len(),
    ensures
        extends(acc, a),
        cs_scan(node, 0, src, acc, parent) == cs_scan(
            node,
            i + 1,
            src,
            cs_child(node.children@[i as int], src, a, parent),
            parent,
        ),
    decreases i,
{
    if i == 0 {
        acc
    } else {
        let a0 = cs_scan_split(node, (i - 1) as nat, src, acc, parent);
        let a1 = cs_child(node.children@[i - 1], src, a0, parent);
        cs_child_appends(node.children@[i - 1], src, a0, parent);
        lemma_extends_chain(acc, a0, a1, 0, parent);
        a1
    }
}

/// A node reached below `node` through nodes the scan passes into is read
/// with the same parent, and what reading it gives is kept in the result.
proof fn cs_scan_reaches(node: SyntaxNode, src: Seq<u8>, acc: ParseView, parent: Option<usize>, d: SyntaxNode) -> (a:
    ParseView)
    requires
        reaches(node, d, cs_scan_through()),
    ensures
        extends(acc, a),
        extends(cs_child(d, src, a, parent), cs_scan(node, 0, src, acc, parent)),
    decreases node,
{
    let i = choose|i: int|
        0 <= i < node.children@.len() && (#[trigger] node.children@[i] == d || (cs_scan_through()(
            node.children@[i],
        ) && reaches(node.children@[i], d, cs_scan_through())));
    let c = node.children@[i];
    let a0 = cs_scan_split(node, i as nat, src, acc, parent);
    let m = cs_child(c, src, a0, parent);
    let r = cs_scan(node, i as nat + 1, src, m, parent);
    cs_scan_appends(node, i as nat + 1, src, m, parent);
    if c == d {
        a0
    } else {
        assert(cs_scan_passes(c));
        assert(m == cs_scan(c, 0, src, a0, parent));
        let a = cs_scan_reaches(c, src, a0, parent, d);
        lemma_extends_chain(acc, a0, a, 0, parent);
        lemma_extends_chain(cs_child(d, src, a, parent), m, r, 0, parent);
        a
    }
}

/// Reading a named method or constructor first adds its own symbol: a method
/// with a parent is listed as a method.
proof fn cs_member_defines(d: SyntaxNode, src: Seq<u8>, acc: ParseView, parent: Option<usize>)
    requires
        d.kind@ == "method_declaration"@ || d.kind@ == "constructor_declaration"@,
        field_child(d, Field::Name) is Some,
    ensures
        cs_child(d, src, acc, parent).symbols.len() > acc.symbols.len(),
        cs_child(d, src, acc, parent).symbols[acc.symbols.len() as int].name == node_text(
            field_child(d, Field::Name)->0,
            src,
        ),
        cs_child(d, src, acc, parent).symbols[acc.symbols.len() as int].parent_index == parent,
        cs_child(d, src, acc, parent).symbols[acc.symbols.len() as int].line_start == start_line(d),
        d.kind@ == "method_declaration"@ && parent is Some ==> cs_child(d, src, acc, parent).symbols[acc.symbols.len() as int].kind
            == "method"@,
        d.kind@ == "method_declaration"@ && parent is None ==> cs_child(d, src, acc, parent).symbols[acc.symbols.len() as int].kind
            == "function"@,
        d.kind@ == "constructor_declaration"@ ==> cs_child(d, src, acc, parent).symbols[acc.symbols.len() as int].kind
            == "constructor"@,
{
    cs_kinds_differ();
    let name = field_child(d, Field::Name)->0;
    let idx = acc.symbols.len() as usize;
    let r = cs_child(d, src, acc, parent);
    assert(cs_container_kind(d.kind@) is None);
    if d.kind@ == "method_declaration"@ {
        let kind = if parent is Some {
            "method"@
        } else {
            "function"@
        };
        let sym = symbol_of(node_text(name, src), kind, d, parent, Some(cs_method_signature(d, src)));
        let a1 = acc.push_symbol(sym);
        let a2 = cs_calls(d, src, a1, idx);
        cs_calls_scan_appends(d, 0, src, a1, idx);
        cs_scan_appends(d, 0, src, a2, Some(idx));
        assert(r.symbols[acc.symbols.len() as int] == a2.symbols[acc.symbols.len() as int]);
    } else {
        let sym = symbol_of(node_text(name, src), "constructor"@, d, parent, Some(cs_constructor_signature(d, src)));
        let a1 = acc.push_symbol(sym);
        cs_calls_scan_appends(d, 0, src, a1, idx);
    }
}

/// Every method or constructor declared inside a class, interface or struct
/// (below it through nodes that are not themselves declarations or `using`
/// directives, such as its declaration list) is listed after the type, with
/// the type as its parent, a method as a method and a constructor as a
/// constructor; the type keeps the parent it was given.
pub proof fn cs_members_hang_below_their_type(
    c: SyntaxNode,
    src: Seq<u8>,
    acc: ParseView,
    parent: Option<usize>,
    d: SyntaxNode,
)
    requires
        c.kind@ == "class_declaration"@ || c.kind@ == "interface_declaration"@ || c.kind@
            == "struct_declaration"@,
        field_child(c, Field::Name) is Some,
        acc.symbols.len() < usize::MAX,
        reaches(c, d, cs_scan_through()),
        d.kind@ == "method_declaration"@ || d.kind@ == "constructor_declaration"@,
        field_child(d, Field::Name) is Some,
    ensures
        ({
            let r = cs_child(c, src, acc, parent);
            &&& r.symbols[acc.symbols.len() as int].name == node_text(field_child(c, Field::Name)->0, src)
            &&& r.symbols[acc.symbols.len() as int].parent_index == parent
            &&& exists|k: int|
                acc.symbols.len() < k < r.symbols.len() && r.symbols[k].name == node_text(
                    field_child(d, Field::Name)->0,
                    src,
                ) && r.symbols[k].parent_index == Some(acc.symbols.len() as usize)
                    && r.symbols[k].line_start == start_line(d) && (d.kind@ == "method_declaration"@
                    ==> r.symbols[k].kind == "method"@) && (d.kind@ == "constructor_declaration"@
                    ==> r.symbols[k].kind == "constructor"@)
        }),
{
    cs_kinds_differ();
    let name = field_child(c, Field::Name)->0;
    let idx = acc.symbols.len() as usize;
    let r = cs_child(c, src, acc, parent);
    assert(cs_container_kind(c.kind@) is Some);
    let sym = symbol_of(node_text(name, src), cs_container_kind(c.kind@)->0, c, parent, None);
    let a1 = acc.push_symbol(sym);
    assert(r == cs_scan(c, 0, src, a1, Some(idx)));
    cs_scan_appends(c, 0, src, a1, Some(idx));
    assert(r.symbols[acc.symbols.len() as int] == sym);
    let a = cs_scan_reaches(c, src, a1, Some(idx), d);
    cs_member_defines(d, src, a, Some(idx));
    let k = a.symbols.len() as int;
    assert(r.symbols[k] == cs_child(d, src, a, Some(idx)).symbols[k]);
}

/// The call scan of `node` reaches its child `i` with a result that has the
/// calls it started with and more of `caller`.
proof fn cs_calls_scan_split(node: SyntaxNode, i: nat, src: Seq<u8>, acc: ParseView, caller: usize) -> (a:
    ParseView)
    requires
        i < node.children@.len(),
    ensures
        calls_appended(acc, a, caller),
        cs_calls_scan(node, 0, src, acc, caller) == cs_calls_scan(
            node,
            i + 1,
            src,
            cs_call_child(node.children@[i as int], src, a, caller),
            caller,
        ),
    decreases i,
{
    if i == 0 {
        acc
    } else {
        let a0 = cs_calls_scan_split(node, (i - 1) as nat, src, acc, caller);
        let a1 = cs_call_child(node.children@[i - 1], src, a0, caller);
        cs_call_child_appends(node.children@[i - 1], src, a0, caller);
        lemma_calls_appended_chain(acc, a0, a1, caller);
        a1
    }
}

/// A node anywhere below `node` is read by the call scan, and what reading
/// it gives is kept.
proof fn cs_calls_reaches(node: SyntaxNode, src: Seq<u8>, acc: ParseView, caller: usize, d: SyntaxNode) -> (a:
    ParseView)
    requires
        reaches(node, d, cs_call_through()),
    ensures
        calls_appended(acc, a, caller),
        calls_appended(cs_call_child(d, src, a, caller), cs_calls_scan(node, 0, src, acc, caller), caller),
    decreases node,
{
    let i = choose|i: int|
        0 <= i < node.children@.len() && (#[trigger] node.children@[i] == d || (cs_call_through()(
            node.children@[i],
        ) && reaches(node.children@[i], d, cs_call_through())));
    let c = node.children@[i];
    let a0 = cs_calls_scan_split(node, i as nat, src, acc, caller);
    let m = cs_call_child(c, src, a0, caller);
    let r = cs_calls_scan(node, i as nat + 1, src, m, caller);
    cs_calls_scan_appends(node, i as nat + 1, src, m, caller);
    if c == d {
        a0
    } else {
        let start = if c.kind@ == "invocation_expression"@ && cs_callee(c, src) is Some {
            a0.push_call(call_of(caller, cs_callee(c, src)->0, c))
        } else {
            a0
        };
        assert(m == cs_calls_scan(c, 0, src, start, caller));
        assert(calls_appended(a0, start, caller));
        let a = cs_calls_reaches(c, src, start, caller, d);
        lemma_calls_appended_chain(a0, start, a, caller);
        lemma_calls_appended_chain(acc, a0, a, caller);
        lemma_calls_appended_chain(cs_call_child(d, src, a, caller), m, r, caller);
        a
    }
}

/// Every named invocation anywhere below `node` (inside another call's
/// arguments or callee too) is appended, attributed to `caller`, with its
/// callee's name and its line.
pub proof fn cs_calls_find_every_named_call(node: SyntaxNode, src: Seq<u8>, acc: ParseView, caller: usize, d: SyntaxNode)
    requires
        reaches(node, d, cs_call_through()),
        cs_named_call(d),
    ensures
        exists|k: int|
            acc.calls.len() <= k < cs_calls_scan(node, 0, src, acc, caller).calls.len() && cs_calls_scan(
                node,
                0,
                src,
                acc,
                caller,
            ).calls[k] == (CallView { caller_index: caller, callee_name: cs_called_name(d, src), line: start_line(d) }),
{
    let a = cs_calls_reaches(node, src, acc, caller, d);
    let a1 = a.push_call(call_of(caller, cs_callee(d, src)->0, d));
    cs_calls_scan_appends(d, 0, src, a1, caller);
    let k = a.calls.len() as int;
    assert(cs_calls_scan(node, 0, src, acc, caller).calls[k] == a1.calls[k]);
}

/// Every named invocation inside a method or a constructor is attributed to
/// that method or constructor.
pub proof fn cs_calls_belong_to_their_member(
    c: SyntaxNode,
    src: Seq<u8>,
    acc: ParseView,
    parent: Option<usize>,
    d: SyntaxNode,
)
    requires
        c.kind@ == "method_declaration"@ || c.kind@ == "constructor_declaration"@,
        field_child(c, Field::Name) is Some,
        reaches(c, d, cs_call_through()),
        cs_named_call(d),
    ensures
        exists|k: int|
            acc.calls.len() <= k < cs_child(c, src, acc, parent).calls.len() && cs_child(c, src, acc, parent).calls[k]
                == (CallView {
                caller_index: acc.symbols.len() as usize,
                callee_name: cs_called_name(d, src),
                line: start_line(d),
            }),
{
    cs_kinds_differ();
    let name = field_child(c, Field::Name)->0;
    let idx = acc.symbols.len() as usize;
    let r = cs_child(c, src, acc, parent);
    assert(cs_container_kind(c.kind@) is None);
    if c.kind@ == "method_declaration"@ {
        let kind = if parent is Some {
            "method"@
        } else {
            "function"@
        };
        let a1 = acc.push_symbol(symbol_of(node_text(name, src), kind, c, parent, Some(cs_method_signature(c, src))));
        let a2 = cs_calls(c, src, a1, idx);
        cs_calls_find_every_named_call(c, src, a1, idx, d);
        cs_scan_appends(c, 0, src, a2, Some(idx));
        let k = choose|k: int|
            a1.calls.len() <= k < a2.calls.len() && a2.calls[k] == (CallView {
                caller_index: idx,
                callee_name: cs_called_name(d, src),
                line: start_line(d),
            });
        assert(r.calls[k] == a2.calls[k]);
    } else {
        let a1 = acc.push_symbol(
            symbol_of(node_text(name, src), "constructor"@, c, parent, Some(cs_constructor_signature(c, src))),
        );
        cs_calls_find_every_named_call(c, src, a1, idx, d);
    }
}

/// Every method or constructor declaration reached below `node` through
/// nodes the scan passes into (namespaces among them) is listed after what
/// `acc` held, with the parent the scan was given.
pub proof fn cs_scan_lists_reached_members(
    node: SyntaxNode,
    src: Seq<u8>,
    acc: ParseView,
    parent: Option<usize>,
    d: SyntaxNode,
)
    requires
        reaches(node, d, cs_scan_through()),
        d.kind@ == "method_declaration"@ || d.kind@ == "constructor_declaration"@,
        field_child(d, Field::Name) is Some,
    ensures
        ({
            let r = cs_scan(node, 0, src, acc, parent);
            exists|k: int|
                acc.symbols.len() <= k < r.symbols.len() && r.symbols[k].name == node_text(
                    field_child(d, Field::Name)->0,
                    src,
                ) && r.symbols[k].parent_index == parent && r.symbols[k].line_start == start_line(d)
                    && (d.kind@ == "constructor_declaration"@ ==> r.symbols[k].kind == "constructor"@)
                    && (d.kind@ == "method_declaration"@ ==> r.symbols[k].kind == (if parent is Some {
                    "method"@
                } else {
                    "function"@
                }))
        }),
{
    let a = cs_scan_reaches(node, src, acc, parent, d);
    cs_member_defines(d, src, a, parent);
    let k = a.symbols.len() as int;
    assert(cs_scan(node, 0, src, acc, parent).symbols[k] == cs_child(d, src, a, parent).symbols[k]);
}

/// Reading a named type declaration first adds its own symbol, of the
/// declaration's kind.
proof fn cs_type_defines(d: SyntaxNode, src: Seq<u8>, acc: ParseView, parent: Option<usize>)
    requires
        d.kind@ == "class_declaration"@ || d.kind@ == "interface_declaration"@ || d.kind@
            == "struct_declaration"@ || d.kind@ == "enum_declaration"@,
        field_child(d, Field::Name) is Some,
    ensures
        cs_child(d, src, acc, parent).symbols.len() > acc.symbols.len(),
        cs_child(d, src, acc, parent).symbols[acc.symbols.len() as int].name == node_text(
            field_child(d, Field::Name)->0,
            src,
        ),
        cs_child(d, src, acc, parent).symbols[acc.symbols.len() as int].parent_index == parent,
        cs_child(d, src, acc, parent).symbols[acc.symbols.len() as int].line_start == start_line(d),
        d.kind@ == "class_declaration"@ ==> cs_child(d, src, acc, parent).symbols[acc.symbols.len() as int].kind
            == "class"@,
        d.kind@ == "interface_declaration"@ ==> cs_child(d, src, acc, parent).symbols[acc.symbols.len() as int].kind
            == "interface"@,
        d.kind@ == "struct_declaration"@ ==> cs_child(d, src, acc, parent).symbols[acc.symbols.len() as int].kind
            == "struct"@,
        d.kind@ == "enum_declaration"@ ==> cs_child(d, src, acc, parent).symbols[acc.symbols.len() as int].kind
            == "enum"@,
{
    reveal_strlit("class_declaration");
    reveal_strlit("interface_declaration");
    reveal_strlit("struct_declaration");
    reveal_strlit("enum_declaration");
    assert("class_declaration"@.len() != "interface_declaration"@.len());
    assert("class_declaration"@.len() != "struct_declaration"@.len());
    assert("class_declaration"@.len() != "enum_declaration"@.len());
    assert("interface_declaration"@.len() != "struct_declaration"@.len());
    assert("interface_declaration"@.len() != "enum_declaration"@.len());
    assert("struct_declaration"@.len() != "enum_declaration"@.len());
    if cs_container_kind(d.kind@) is Some {
        let name = field_child(d, Field::Name)->0;
        let idx = acc.symbols.len() as usize;
        let sym = symbol_of(node_text(name, src), cs_container_kind(d.kind@)->0, d, parent, None);
        cs_scan_appends(d, 0, src, acc.push_symbol(sym), Some(idx));
    }
}

/// Every class, interface, struct or enum declaration reached below `node`
/// through nodes the scan passes into (namespaces among them) is listed
/// after what `acc` held, of its kind, with the parent the scan was given.
pub proof fn cs_scan_lists_reached_types(
    node: SyntaxNode,
    src: Seq<u8>,
    acc: ParseView,
    parent: Option<usize>,
    d: SyntaxNode,
)
    requires
        reaches(node, d, cs_scan_through()),
        d.kind@ == "class_declaration"@ || d.kind@ == "interface_declaration"@ || d.kind@
            == "struct_declaration"@ || d.kind@ == "enum_declaration"@,
        field_child(d, Field::Name) is Some,
    ensures
        ({
            let r = cs_scan(node, 0, src, acc, parent);
            exists|k: int|
                acc.symbols.len() <= k < r.symbols.len() && r.symbols[k].name == node_text(
                    field_child(d, Field::Name)->0,
                    src,
                ) && r.symbols[k].parent_index == parent && r.symbols[k].line_start == start_line(d)
                    && (d.kind@ == "class_declaration"@ ==> r.symbols[k].kind == "class"@) && (d.kind@
                    == "interface_declaration"@ ==> r.symbols[k].kind == "interface"@) && (d.kind@
                    == "struct_declaration"@ ==> r.symbols[k].kind == "struct"@) && (d.kind@
                    == "enum_declaration"@ ==> r.symbols[k].kind == "enum"@)
        }),
{
    let a = cs_scan_reaches(node, src, acc, parent, d);
    cs_type_defines(d, src, a, parent);
    let k = a.symbols.len() as int;
    assert(cs_scan(node, 0, src, acc, parent).symbols[k] == cs_child(d, src, a, parent).symbols[k]);
}

} // verus!
