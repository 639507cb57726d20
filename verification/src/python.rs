//! Definitions, imports and calls in Python syntax trees.
use vstd::prelude::*;
use vstd::string::*;
use crate::consistency::{
    consistent,
    parent_ok,
    can_call,
    extends,
    appended_below,
    calls_appended,
    lemma_push_symbol,
    lemma_push_call,
    lemma_push_import,
    lemma_kind_names_differ,
    lemma_extends_chain,
    lemma_fresh_weaken,
    lemma_push_symbol_appends,
    lemma_push_import_appends,
    lemma_calls_appended_fresh,
    lemma_calls_appended_chain,
    in_source_order,
    starts_by,
    lemma_starts_by_weaken,
    lemma_push_symbol_ordered,
    calls_on_lines,
    lemma_calls_on_lines_chain,
};
use crate::language::SourceLanguage;
use crate::common::{symbol_of, call_of, spans_within, joined_names, new_symbol, new_call, joined_names_of};
use crate::model::{
    CallView,
    ParseResult,
    ParseView,
    ImportView,
    Import,
    shift_view,
    shift_symbol,
    shift_call,
    lemma_shift_push_symbol,
    lemma_shift_push_call,
    lemma_shift_push_import,
};
use crate::syntax::{
    SyntaxNode,
    rows_inside,
    rows_follow,
    start_line,
    end_line,
    Field,
    field_child,
    field_text_or,
    node_text,
    well_formed,
    lemma_parts_well_formed,
    moved,
    lemma_moved_parts,
    reaches,
};
use crate::text::{
    strip_prefix,
    trim,
    strip_prefix_str,
    trim_ws,
    concat3,
};

verus! {

/// `def <name><parameters>`, with `?` and `()` standing in for missing parts.
pub open spec fn py_signature(def: SyntaxNode, src: Seq<u8>) -> Seq<char> {
    "def "@ + field_text_or(def, Field::Name, src, "?"@) + field_text_or(
        def,
        Field::Parameters,
        src,
        "()"@,
    )
}

/// What the children of `node` from index `i` on add to `acc`, for
/// definitions directly or indirectly below `parent`.
pub open spec fn py_scan(
    node: SyntaxNode,
    i: nat,
    src: Seq<u8>,
    acc: ParseView,
    parent: Option<usize>,
) -> ParseView
    decreases node, 0int, node.children@.len() - i,
{
    if i >= node.children@.len() {
        acc
    } else {
        py_scan(node, i + 1, src, py_child(node.children@[i as int], src, acc, parent), parent)
    }
}

/// What one child node adds to `acc`.
pub open spec fn py_child(
    child: SyntaxNode,
    src: Seq<u8>,
    acc: ParseView,
    parent: Option<usize>,
) -> ParseView
    decreases child, 1int, 0int,
{
    if child.kind@ == "function_definition"@ {
        match field_child(child, Field::Name) {
            Some(name) => {
                let idx = acc.symbols.len() as usize;
                let kind = if parent is Some {
                    "method"@
                } else {
                    "function"@
                };
                let sym = symbol_of(
                    node_text(name, src),
                    kind,
                    child,
                    parent,
                    Some(py_signature(child, src)),
                );
                let with_calls = py_calls(child, src, acc.push_symbol(sym), idx);
                py_scan(child, 0, src, with_calls, Some(idx))
            },
            None => acc,
        }
    } else if child.kind@ == "class_definition"@ {
        match field_child(child, Field::Name) {
            Some(name) => {
                let idx = acc.symbols.len() as usize;
                let sym = symbol_of(node_text(name, src), "class"@, child, parent, None);
                py_scan(child, 0, src, acc.push_symbol(sym), Some(idx))
            },
            None => acc,
        }
    } else if child.kind@ == "import_statement"@ {
        match strip_prefix(node_text(child, src), "import "@) {
            Some(rest) => acc.push_import(ImportView { module: trim(rest), names: None }),
            None => acc,
        }
    } else if child.kind@ == "import_from_statement"@ {
        py_import_from(child, src, acc)
    } else {
        py_scan(child, 0, src, acc, parent)
    }
}

/// The names a `from ... import ...` statement brings in, among its first `k`
/// children; `module` is the index of its module-name child.
pub open spec fn py_from_names(stmt: SyntaxNode, module: int, src: Seq<u8>, k: nat) -> Seq<Seq<char>>
    decreases k,
{
    if k == 0 || k > stmt.children@.len() {
        Seq::empty()
    } else {
        let before = py_from_names(stmt, module, src, (k - 1) as nat);
        let n = stmt.children@[k - 1];
        if n.kind@ == "dotted_name"@ && k - 1 != module {
            before.push(node_text(n, src))
        } else if n.kind@ == "aliased_import"@ && field_child(n, Field::Name) is Some {
            before.push(node_text(field_child(n, Field::Name)->0, src))
        } else {
            before
        }
    }
}

/// What a `from ... import ...` statement adds to `acc`.
pub open spec fn py_import_from(stmt: SyntaxNode, src: Seq<u8>, acc: ParseView) -> ParseView {
    match stmt.fields.get(Field::ModuleName) {
        Some(j) => if j < stmt.children@.len() {
            let names = py_from_names(stmt, j as int, src, stmt.children@.len());
            acc.push_import(
                ImportView {
                    module: node_text(stmt.children@[j as int], src),
                    names: joined_names(names),
                },
            )
        } else {
            acc
        },
        None => acc,
    }
}

/// The calls below `node` from child `i` on, attributed to symbol `caller`.
pub open spec fn py_calls_scan(
    node: SyntaxNode,
    i: nat,
    src: Seq<u8>,
    acc: ParseView,
    caller: usize,
) -> ParseView
    decreases node, 0int, node.children@.len() - i,
{
    if i >= node.children@.len() {
        acc
    } else {
        py_calls_scan(
            node,
            i + 1,
            src,
            py_call_child(node.children@[i as int], src, acc, caller),
            caller,
        )
    }
}

/// The name a call node calls: an identifier, or the attribute of an
/// attribute access; `None` for any other callee.
pub open spec fn py_callee(call: SyntaxNode, src: Seq<u8>) -> Option<Seq<char>> {
    let f = field_child(call, Field::Function)->0;
    if f.kind@ == "identifier"@ {
        Some(node_text(f, src))
    } else if f.kind@ == "attribute"@ {
        match field_child(f, Field::Attribute) {
            Some(a) => Some(node_text(a, src)),
            None => None,
        }
    } else {
        None
    }
}

/// The calls found in one child and below it. The subtree of a call whose
/// callee has no name is not searched.
pub open spec fn py_call_child(child: SyntaxNode, src: Seq<u8>, acc: ParseView, caller: usize) -> ParseView
    decreases child, 1int, 0int,
{
    if child.kind@ == "call"@ && field_child(child, Field::Function) is Some {
        match py_callee(child, src) {
            Some(name) => py_calls_scan(
                child,
                0,
                src,
                acc.push_call(call_of(caller, name, child)),
                caller,
            ),
            None => acc,
        }
    } else {
        py_calls_scan(child, 0, src, acc, caller)
    }
}

/// The calls inside `node`, attributed to symbol `caller`.
pub open spec fn py_calls(node: SyntaxNode, src: Seq<u8>, acc: ParseView, caller: usize) -> ParseView {
    py_calls_scan(node, 0, src, acc, caller)
}

/// Everything extracted from a Python tree.
pub open spec fn python_extract(root: SyntaxNode, src: Seq<u8>, acc: ParseView) -> ParseView {
    py_scan(root, 0, src, acc, None)
}

fn python_signature(def: &SyntaxNode, src: &[u8]) -> (s: String)
    requires
        well_formed(*def, src@.len()),
    ensures
        s@ == py_signature(*def, src@),
{
    proof {
        lemma_parts_well_formed(*def, src@.len());
        reveal_strlit("?");
        reveal_strlit("()");
    }
    let name = match def.child_by_field(Field::Name) {
        Some(n) => n.text(src),
        None => "?",
    };
    let params = match def.child_by_field(Field::Parameters) {
        Some(p) => p.text(src),
        None => "()",
    };
    concat3("def ", name, params)
}

/// Adds what the children of `node` hold to `result`.
pub fn python_node(node: &SyntaxNode, src: &[u8], result: &mut ParseResult, parent: Option<usize>)
    requires
        well_formed(*node, src@.len()),
    ensures
        final(result)@ == py_scan(*node, 0, src@, old(result)@, parent),
    decreases node, 0int,
{
    proof {
        lemma_parts_well_formed(*node, src@.len());
    }
    let mut i: usize = 0;
    while i < node.children.len()
        invariant
            i <= node.children@.len(),
            well_formed(*node, src@.len()),
            forall|k: int|
                0 <= k < node.children@.len() ==> well_formed(#[trigger] node.children@[k], src@.len()),
            py_scan(*node, i as nat, src@, result@, parent) == py_scan(
                *node,
                0,
                src@,
                old(result)@,
                parent,
            ),
        decreases node.children@.len() - i,
    {
        python_child(&node.children[i], src, result, parent);
        i = i + 1;
    }
}

fn python_child(child: &SyntaxNode, src: &[u8], result: &mut ParseResult, parent: Option<usize>)
    requires
        well_formed(*child, src@.len()),
    ensures
        final(result)@ == py_child(*child, src@, old(result)@, parent),
    decreases child, 1int,
{
    proof {
        lemma_parts_well_formed(*child, src@.len());
    }
    if child.is_kind("function_definition") {
        if let Some(name_node) = child.child_by_field(Field::Name) {
            let kind = if parent.is_some() {
                "method"
            } else {
                "function"
            };
            let sig = python_signature(child, src);
            let idx = result.symbol_count();
            let sym = new_symbol(name_node.text(src), kind, child, parent, Some(sig));
            result.add_symbol(sym);
            python_calls(child, src, result, idx);
            python_node(child, src, result, Some(idx));
        }
    } else if child.is_kind("class_definition") {
        if let Some(name_node) = child.child_by_field(Field::Name) {
            let idx = result.symbol_count();
            let sym = new_symbol(name_node.text(src), "class", child, parent, None);
            result.add_symbol(sym);
            python_node(child, src, result, Some(idx));
        }
    } else if child.is_kind("import_statement") {
        if let Some(rest) = strip_prefix_str(child.text(src), "import ") {
            let module = String::from_str(trim_ws(rest));
            result.add_import(Import { module, names: None });
        }
    } else if child.is_kind("import_from_statement") {
        python_import_from(child, src, result);
    } else {
        python_node(child, src, result, parent);
    }
}

fn python_import_from(stmt: &SyntaxNode, src: &[u8], result: &mut ParseResult)
    requires
        well_formed(*stmt, src@.len()),
    ensures
        final(result)@ == py_import_from(*stmt, src@, old(result)@),
{
    proof {
        lemma_parts_well_formed(*stmt, src@.len());
    }
    let j = match stmt.fields.lookup(Field::ModuleName) {
        Some(j) => j,
        None => {
            return ;
        },
    };
    if j >= stmt.children.len() {
        return ;
    }
    assert(well_formed(stmt.children@[j as int], src@.len()));
    let module = String::from_str(stmt.children[j].text(src));
    let mut names: Vec<String> = Vec::new();
    let mut k: usize = 0;
    while k < stmt.children.len()
        invariant
            k <= stmt.children@.len(),
            j < stmt.children@.len(),
            forall|m: int|
                0 <= m < stmt.children@.len() ==> well_formed(#[trigger] stmt.children@[m], src@.len()),
            names@.map_values(|p: String| p@) == py_from_names(*stmt, j as int, src@, k as nat),
        decreases stmt.children@.len() - k,
    {
        let n = &stmt.children[k];
        proof {
            lemma_parts_well_formed(*n, src@.len());
        }
        let ghost before = names@;
        if n.is_kind("dotted_name") && k != j {
            names.push(String::from_str(n.text(src)));
            assert(names@.map_values(|p: String| p@) =~= before.map_values(|p: String| p@).push(
                node_text(*n, src@),
            ));
        } else if n.is_kind("aliased_import") {
            if let Some(name) = n.child_by_field(Field::Name) {
                names.push(String::from_str(name.text(src)));
                assert(names@.map_values(|p: String| p@) =~= before.map_values(|p: String| p@).push(
                    node_text(*name, src@),
                ));
            }
        }
        k = k + 1;
    }
    let joined = joined_names_of(&names);
    result.add_import(Import { module, names: joined });
}

/// Adds the calls inside `node` to `result`, attributed to symbol `caller`.
fn python_calls(node: &SyntaxNode, src: &[u8], result: &mut ParseResult, caller: usize)
    requires
        well_formed(*node, src@.len()),
    ensures
        final(result)@ == py_calls_scan(*node, 0, src@, old(result)@, caller),
    decreases node, 0int,
{
    proof {
        lemma_parts_well_formed(*node, src@.len());
    }
    let mut i: usize = 0;
    while i < node.children.len()
        invariant
            i <= node.children@.len(),
            forall|k: int|
                0 <= k < node.children@.len() ==> well_formed(#[trigger] node.children@[k], src@.len()),
            py_calls_scan(*node, i as nat, src@, result@, caller) == py_calls_scan(
                *node,
                0,
                src@,
                old(result)@,
                caller,
            ),
        decreases node.children@.len() - i,
    {
        python_call_child(&node.children[i], src, result, caller);
        i = i + 1;
    }
}

fn python_call_child(child: &SyntaxNode, src: &[u8], result: &mut ParseResult, caller: usize)
    requires
        well_formed(*child, src@.len()),
    ensures
        final(result)@ == py_call_child(*child, src@, old(result)@, caller),
    decreases child, 1int,
{
    proof {
        lemma_parts_well_formed(*child, src@.len());
    }
    if child.is_kind("call") {
        if let Some(func) = child.child_by_field(Field::Function) {
            proof {
                lemma_parts_well_formed(*func, src@.len());
            }
            let name: &str = if func.is_kind("identifier") {
                func.text(src)
            } else if func.is_kind("attribute") {
                match func.child_by_field(Field::Attribute) {
                    Some(attr) => attr.text(src),
                    None => {
                        return ;
                    },
                }
            } else {
                return ;
            };
            result.add_call(new_call(caller, name, child));
            python_calls(child, src, result, caller);
            return ;
        }
    }
    python_calls(child, src, result, caller);
}


/// Call extraction appends calls attributed to `caller` and changes nothing else.
pub proof fn py_calls_scan_appends(node: SyntaxNode, i: nat, src: Seq<u8>, acc: ParseView, caller: usize)
    ensures
        calls_appended(acc, py_calls_scan(node, i, src, acc, caller), caller),
    decreases node, 0int, node.children@.len() - i,
{
    if i < node.children@.len() {
        let c = node.children@[i as int];
        let m = py_call_child(c, src, acc, caller);
        py_call_child_appends(c, src, acc, caller);
        py_calls_scan_appends(node, i + 1, src, m, caller);
        lemma_calls_appended_chain(acc, m, py_calls_scan(node, i + 1, src, m, caller), caller);
    }
}

proof fn py_call_child_appends(child: SyntaxNode, src: Seq<u8>, acc: ParseView, caller: usize)
    ensures
        calls_appended(acc, py_call_child(child, src, acc, caller), caller),
    decreases child, 1int, 0int,
{
    if child.kind@ == "call"@ && field_child(child, Field::Function) is Some {
        if let Some(name) = py_callee(child, src) {
            let a1 = acc.push_call(call_of(caller, name, child));
            py_calls_scan_appends(child, 0, src, a1, caller);
            lemma_calls_appended_chain(acc, a1, py_calls_scan(child, 0, src, a1, caller), caller);
        }
    } else {
        py_calls_scan_appends(child, 0, src, acc, caller);
    }
}

/// Every call that call extraction appends lies on the lines of `node`.
pub proof fn py_calls_scan_lines(node: SyntaxNode, i: nat, src: Seq<u8>, acc: ParseView, caller: usize)
    requires
        well_formed(node, src.len()),
    ensures
        calls_on_lines(
            acc,
            py_calls_scan(node, i, src, acc, caller),
            start_line(node) as int,
            end_line(node) as int,
        ),
    decreases node, 0int, node.children@.len() - i,
{
    if i < node.children@.len() {
        lemma_parts_well_formed(node, src.len());
        let c = node.children@[i as int];
        let m = py_call_child(c, src, acc, caller);
        let r = py_calls_scan(node, i + 1, src, m, caller);
        assert(rows_inside(c, node) && well_formed(c, src.len()));
        py_call_child_lines(c, src, acc, caller);
        py_calls_scan_lines(node, i + 1, src, m, caller);
        py_call_child_appends(c, src, acc, caller);
        py_calls_scan_appends(node, i + 1, src, m, caller);
        lemma_calls_on_lines_chain(
            acc,
            m,
            r,
            start_line(c) as int,
            end_line(c) as int,
            start_line(node) as int,
            end_line(node) as int,
            start_line(node) as int,
            end_line(node) as int,
        );
    }
}

proof fn py_call_child_lines(child: SyntaxNode, src: Seq<u8>, acc: ParseView, caller: usize)
    requires
        well_formed(child, src.len()),
    ensures
        calls_on_lines(
            acc,
            py_call_child(child, src, acc, caller),
            start_line(child) as int,
            end_line(child) as int,
        ),
    decreases child, 1int, 0int,
{
    let lo = start_line(child) as int;
    let hi = end_line(child) as int;
    if child.kind@ == "call"@ && field_child(child, Field::Function) is Some {
        if let Some(name) = py_callee(child, src) {
            let a1 = acc.push_call(call_of(caller, name, child));
            let r = py_calls_scan(child, 0, src, a1, caller);
            py_calls_scan_lines(child, 0, src, a1, caller);
            py_calls_scan_appends(child, 0, src, a1, caller);
            lemma_calls_on_lines_chain(acc, a1, r, lo, hi, lo, hi, lo, hi);
        }
    } else {
        py_calls_scan_lines(child, 0, src, acc, caller);
    }
}

/// Call extraction keeps a result consistent when the caller exists.
proof fn py_calls_scan_sound(node: SyntaxNode, i: nat, src: Seq<u8>, acc: ParseView, caller: usize)
    requires
        well_formed(node, src.len()),
        consistent(acc, SourceLanguage::Python),
        can_call(acc.symbols, caller),
        spans_within(node, acc.symbols[caller as int]),
    ensures
        consistent(py_calls_scan(node, i, src, acc, caller), SourceLanguage::Python),
    decreases node, 0int, node.children@.len() - i,
{
    if i < node.children@.len() {
        lemma_parts_well_formed(node, src.len());
        let c = node.children@[i as int];
        assert(rows_inside(c, node) && well_formed(c, src.len()));
        py_call_child_appends(c, src, acc, caller);
        py_call_child_sound(c, src, acc, caller);
        py_calls_scan_sound(node, i + 1, src, py_call_child(c, src, acc, caller), caller);
    }
}

proof fn py_call_child_sound(child: SyntaxNode, src: Seq<u8>, acc: ParseView, caller: usize)
    requires
        well_formed(child, src.len()),
        consistent(acc, SourceLanguage::Python),
        can_call(acc.symbols, caller),
        spans_within(child, acc.symbols[caller as int]),
    ensures
        consistent(py_call_child(child, src, acc, caller), SourceLanguage::Python),
    decreases child, 1int, 0int,
{
    if child.kind@ == "call"@ && field_child(child, Field::Function) is Some {
        if let Some(name) = py_callee(child, src) {
            let c = call_of(caller, name, child);
            lemma_push_call(acc, c, SourceLanguage::Python);
            py_calls_scan_sound(child, 0, src, acc.push_call(c), caller);
        }
    } else {
        py_calls_scan_sound(child, 0, src, acc, caller);
    }
}

/// Extraction only appends to the result; what it appends hangs below
/// `parent` or below a symbol it appended, and every call it appends is
/// attributed to a symbol it appended (the indices as far as they can be
/// counted in a `usize`).
pub proof fn py_scan_appends(node: SyntaxNode, i: nat, src: Seq<u8>, acc: ParseView, parent: Option<usize>)
    ensures
        extends(acc, py_scan(node, i, src, acc, parent)),
        py_scan(node, i, src, acc, parent).symbols.len() <= usize::MAX ==> appended_below(
            acc,
            py_scan(node, i, src, acc, parent),
            parent,
        ),
    decreases node, 0int, node.children@.len() - i,
{
    if i < node.children@.len() {
        let c = node.children@[i as int];
        let m = py_child(c, src, acc, parent);
        let r = py_scan(node, i + 1, src, m, parent);
        py_child_appends(c, src, acc, parent);
        py_scan_appends(node, i + 1, src, m, parent);
        lemma_extends_chain(acc, m, r, acc.symbols.len() as int, parent);
        lemma_fresh_weaken(m, r, m.symbols.len() as int, parent, acc.symbols.len() as int, parent);
    }
}

proof fn py_child_appends(child: SyntaxNode, src: Seq<u8>, acc: ParseView, parent: Option<usize>)
    ensures
        extends(acc, py_child(child, src, acc, parent)),
        py_child(child, src, acc, parent).symbols.len() <= usize::MAX ==> appended_below(
            acc,
            py_child(child, src, acc, parent),
            parent,
        ),
    decreases child, 1int, 0int,
{
    let base = acc.symbols.len() as int;
    if child.kind@ == "function_definition"@ {
        if let Some(name) = field_child(child, Field::Name) {
            let idx = acc.symbols.len() as usize;
            let kind = if parent is Some {
                "method"@
            } else {
                "function"@
            };
            let sym = symbol_of(node_text(name, src), kind, child, parent, Some(py_signature(child, src)));
            let a1 = acc.push_symbol(sym);
            let a2 = py_calls(child, src, a1, idx);
            let r = py_scan(child, 0, src, a2, Some(idx));
            lemma_push_symbol_appends(acc, sym);
            py_calls_scan_appends(child, 0, src, a1, idx);
            lemma_calls_appended_fresh(a1, a2, idx, base, parent);
            py_scan_appends(child, 0, src, a2, Some(idx));
            lemma_extends_chain(acc, a1, a2, base, parent);
            lemma_extends_chain(acc, a2, r, base, parent);
            lemma_fresh_weaken(a2, r, a2.symbols.len() as int, Some(idx), base, parent);
        }
    } else if child.kind@ == "class_definition"@ {
        if let Some(name) = field_child(child, Field::Name) {
            let idx = acc.symbols.len() as usize;
            let sym = symbol_of(node_text(name, src), "class"@, child, parent, None);
            let a1 = acc.push_symbol(sym);
            let r = py_scan(child, 0, src, a1, Some(idx));
            lemma_push_symbol_appends(acc, sym);
            py_scan_appends(child, 0, src, a1, Some(idx));
            lemma_extends_chain(acc, a1, r, base, parent);
            lemma_fresh_weaken(a1, r, a1.symbols.len() as int, Some(idx), base, parent);
        }
    } else if child.kind@ == "import_statement"@ {
        if let Some(rest) = strip_prefix(node_text(child, src), "import "@) {
            lemma_push_import_appends(acc, ImportView { module: trim(rest), names: None }, base, parent);
        }
    } else if child.kind@ == "import_from_statement"@ {
        if let Some(j) = child.fields.get(Field::ModuleName) {
            if j < child.children@.len() {
                let names = py_from_names(child, j as int, src, child.children@.len());
                lemma_push_import_appends(
                    acc,
                    ImportView { module: node_text(child.children@[j as int], src), names: joined_names(names) },
                    base,
                    parent,
                );
            }
        }
    } else {
        py_scan_appends(child, 0, src, acc, parent);
    }
}

/// Extraction lists the symbols it finds in the order of the lines they start
/// on, after those already found, and none of them starts after `node` ends.
pub proof fn py_scan_ordered(node: SyntaxNode, i: nat, src: Seq<u8>, acc: ParseView, parent: Option<usize>)
    requires
        well_formed(node, src.len()),
        in_source_order(acc),
        i < node.children@.len() ==> starts_by(acc, start_line(node.children@[i as int]) as int),
        i >= node.children@.len() ==> starts_by(acc, end_line(node) as int),
    ensures
        in_source_order(py_scan(node, i, src, acc, parent)),
        starts_by(py_scan(node, i, src, acc, parent), end_line(node) as int),
    decreases node, 0int, node.children@.len() - i,
{
    if i < node.children@.len() {
        lemma_parts_well_formed(node, src.len());
        let c = node.children@[i as int];
        let m = py_child(c, src, acc, parent);
        assert(rows_inside(c, node));
        py_child_ordered(c, src, acc, parent);
        if i + 1 < node.children@.len() {
            assert(rows_follow(c, node.children@[i + 1 as int]));
            assert(well_formed(node.children@[i + 1 as int], src.len()));
            lemma_starts_by_weaken(m, end_line(c) as int, start_line(node.children@[i + 1 as int]) as int);
        } else {
            lemma_starts_by_weaken(m, end_line(c) as int, end_line(node) as int);
        }
        py_scan_ordered(node, i + 1, src, m, parent);
    }
}

proof fn py_child_ordered(child: SyntaxNode, src: Seq<u8>, acc: ParseView, parent: Option<usize>)
    requires
        well_formed(child, src.len()),
        in_source_order(acc),
        starts_by(acc, start_line(child) as int),
    ensures
        in_source_order(py_child(child, src, acc, parent)),
        starts_by(py_child(child, src, acc, parent), end_line(child) as int),
    decreases child, 1int, 0int,
{
    lemma_parts_well_formed(child, src.len());
    let first = start_line(child) as int;
    let next = if child.children@.len() > 0 {
        assert(rows_inside(child.children@[0], child));
        assert(well_formed(child.children@[0], src.len()));
        start_line(child.children@[0]) as int
    } else {
        end_line(child) as int
    };
    lemma_starts_by_weaken(acc, first, end_line(child) as int);
    lemma_starts_by_weaken(acc, first, next);
    if child.kind@ == "function_definition"@ {
        if let Some(name) = field_child(child, Field::Name) {
            let idx = acc.symbols.len() as usize;
            let kind = if parent is Some {
                "method"@
            } else {
                "function"@
            };
            let sym = symbol_of(node_text(name, src), kind, child, parent, Some(py_signature(child, src)));
            let a1 = acc.push_symbol(sym);
            let a2 = py_calls(child, src, a1, idx);
            lemma_push_symbol_ordered(acc, sym);
            py_calls_scan_appends(child, 0, src, a1, idx);
            assert(a2.symbols == a1.symbols);
            lemma_starts_by_weaken(a2, first, next);
            py_scan_ordered(child, 0, src, a2, Some(idx));
        }
    } else if child.kind@ == "class_definition"@ {
        if let Some(name) = field_child(child, Field::Name) {
            let idx = acc.symbols.len() as usize;
            let sym = symbol_of(node_text(name, src), "class"@, child, parent, None);
            let a1 = acc.push_symbol(sym);
            lemma_push_symbol_ordered(acc, sym);
            lemma_starts_by_weaken(a1, first, next);
            py_scan_ordered(child, 0, src, a1, Some(idx));
        }
    } else if child.kind@ == "import_statement"@ || child.kind@ == "import_from_statement"@ {
    } else {
        py_scan_ordered(child, 0, src, acc, parent);
    }
}

/// Extraction keeps a result consistent, as long as its symbols can be counted.
pub proof fn py_scan_sound(node: SyntaxNode, i: nat, src: Seq<u8>, acc: ParseView, parent: Option<usize>)
    requires
        well_formed(node, src.len()),
        consistent(acc, SourceLanguage::Python),
        parent_ok(parent, acc),
    ensures
        py_scan(node, i, src, acc, parent).symbols.len() <= usize::MAX ==> consistent(
            py_scan(node, i, src, acc, parent),
            SourceLanguage::Python,
        ),
    decreases node, 0int, node.children@.len() - i,
{
    if i < node.children@.len() {
        lemma_parts_well_formed(node, src.len());
        let c = node.children@[i as int];
        let m = py_child(c, src, acc, parent);
        py_child_appends(c, src, acc, parent);
        py_scan_appends(node, i + 1, src, m, parent);
        if m.symbols.len() <= usize::MAX {
            py_child_sound(c, src, acc, parent);
            py_scan_sound(node, i + 1, src, m, parent);
        }
    }
}

proof fn py_child_sound(child: SyntaxNode, src: Seq<u8>, acc: ParseView, parent: Option<usize>)
    requires
        well_formed(child, src.len()),
        consistent(acc, SourceLanguage::Python),
        parent_ok(parent, acc),
    ensures
        py_child(child, src, acc, parent).symbols.len() <= usize::MAX ==> consistent(
            py_child(child, src, acc, parent),
            SourceLanguage::Python,
        ),
    decreases child, 1int, 0int,
{
    lemma_parts_well_formed(child, src.len());
    lemma_kind_names_differ();
    let r = py_child(child, src, acc, parent);
    if child.kind@ == "function_definition"@ {
        if let Some(name) = field_child(child, Field::Name) {
            let idx = acc.symbols.len() as usize;
            let kind = if parent is Some {
                "method"@
            } else {
                "function"@
            };
            let sym = symbol_of(node_text(name, src), kind, child, parent, Some(py_signature(child, src)));
            let a1 = acc.push_symbol(sym);
            let a2 = py_calls(child, src, a1, idx);
            py_calls_scan_appends(child, 0, src, a1, idx);
            py_scan_appends(child, 0, src, a2, Some(idx));
            if r.symbols.len() <= usize::MAX {
                lemma_push_symbol(acc, sym, SourceLanguage::Python);
                py_calls_scan_sound(child, 0, src, a1, idx);
                py_scan_sound(child, 0, src, a2, Some(idx));
            }
        }
    } else if child.kind@ == "class_definition"@ {
        if let Some(name) = field_child(child, Field::Name) {
            let idx = acc.symbols.len() as usize;
            let sym = symbol_of(node_text(name, src), "class"@, child, parent, None);
            let a1 = acc.push_symbol(sym);
            py_scan_appends(child, 0, src, a1, Some(idx));
            if r.symbols.len() <= usize::MAX {
                lemma_push_symbol(acc, sym, SourceLanguage::Python);
                py_scan_sound(child, 0, src, a1, Some(idx));
            }
        }
    } else if child.kind@ == "import_statement"@ {
        if let Some(rest) = strip_prefix(node_text(child, src), "import "@) {
            lemma_push_import(acc, ImportView { module: trim(rest), names: None }, SourceLanguage::Python);
        }
    } else if child.kind@ == "import_from_statement"@ {
        if let Some(j) = child.fields.get(Field::ModuleName) {
            if j < child.children@.len() {
                let names = py_from_names(child, j as int, src, child.children@.len());
                lemma_push_import(
                    acc,
                    ImportView { module: node_text(child.children@[j as int], src), names: joined_names(names) },
                    SourceLanguage::Python,
                );
            }
        }
    } else {
        py_scan_sound(child, 0, src, acc, parent);
    }
}


/// Trees that differ only in where they lie give the same calls, on lines
/// moved as theirs are.
proof fn py_calls_scan_moved(
    a: SyntaxNode,
    b: SyntaxNode,
    i: nat,
    sa: Seq<u8>,
    sb: Seq<u8>,
    acc: ParseView,
    caller: usize,
    lines: int,
)
    requires
        moved(a, b, sa, sb, lines),
    ensures
        py_calls_scan(b, i, sb, shift_view(acc, lines), caller) == shift_view(
            py_calls_scan(a, i, sa, acc, caller),
            lines,
        ),
    decreases a, 0int, a.children@.len() - i,
{
    if i < a.children@.len() {
        let ca = a.children@[i as int];
        let cb = b.children@[i as int];
        assert(moved(ca, cb, sa, sb, lines));
        py_call_child_moved(ca, cb, sa, sb, acc, caller, lines);
        py_calls_scan_moved(a, b, i + 1, sa, sb, py_call_child(ca, sa, acc, caller), caller, lines);
    }
}

proof fn py_call_child_moved(
    a: SyntaxNode,
    b: SyntaxNode,
    sa: Seq<u8>,
    sb: Seq<u8>,
    acc: ParseView,
    caller: usize,
    lines: int,
)
    requires
        moved(a, b, sa, sb, lines),
    ensures
        py_call_child(b, sb, shift_view(acc, lines), caller) == shift_view(
            py_call_child(a, sa, acc, caller),
            lines,
        ),
    decreases a, 1int, 0int,
{
    lemma_moved_parts(a, b, sa, sb, lines);
    if a.kind@ == "call"@ && field_child(a, Field::Function) is Some {
        let fa = field_child(a, Field::Function)->0;
        let fb = field_child(b, Field::Function)->0;
        lemma_moved_parts(fa, fb, sa, sb, lines);
        assert(py_callee(b, sb) == py_callee(a, sa));
        if let Some(name) = py_callee(a, sa) {
            let c = call_of(caller, name, a);
            lemma_shift_push_call(acc, c, lines);
            assert(call_of(caller, name, b) == shift_call(c, lines));
            py_calls_scan_moved(a, b, 0, sa, sb, acc.push_call(c), caller, lines);
        }
    } else {
        py_calls_scan_moved(a, b, 0, sa, sb, acc, caller, lines);
    }
}

proof fn py_from_names_moved(a: SyntaxNode, b: SyntaxNode, module: int, sa: Seq<u8>, sb: Seq<u8>, lines: int, k: nat)
    requires
        moved(a, b, sa, sb, lines),
    ensures
        py_from_names(b, module, sb, k) == py_from_names(a, module, sa, k),
    decreases k,
{
    if k > 0 && k <= a.children@.len() {
        py_from_names_moved(a, b, module, sa, sb, lines, (k - 1) as nat);
        let na = a.children@[k - 1];
        let nb = b.children@[k - 1];
        assert(moved(na, nb, sa, sb, lines));
        lemma_moved_parts(na, nb, sa, sb, lines);
        if field_child(na, Field::Name) is Some {
            lemma_moved_parts(field_child(na, Field::Name)->0, field_child(nb, Field::Name)->0, sa, sb, lines);
        }
    }
}

/// Extraction depends on where a tree lies only through line numbers: trees
/// that differ only in that give results that differ only in their lines.
pub proof fn py_scan_moved(
    a: SyntaxNode,
    b: SyntaxNode,
    i: nat,
    sa: Seq<u8>,
    sb: Seq<u8>,
    acc: ParseView,
    parent: Option<usize>,
    lines: int,
)
    requires
        moved(a, b, sa, sb, lines),
    ensures
        py_scan(b, i, sb, shift_view(acc, lines), parent) == shift_view(
            py_scan(a, i, sa, acc, parent),
            lines,
        ),
    decreases a, 0int, a.children@.len() - i,
{
    if i < a.children@.len() {
        let ca = a.children@[i as int];
        let cb = b.children@[i as int];
        assert(moved(ca, cb, sa, sb, lines));
        py_child_moved(ca, cb, sa, sb, acc, parent, lines);
        py_scan_moved(a, b, i + 1, sa, sb, py_child(ca, sa, acc, parent), parent, lines);
    }
}

proof fn py_child_moved(
    a: SyntaxNode,
    b: SyntaxNode,
    sa: Seq<u8>,
    sb: Seq<u8>,
    acc: ParseView,
    parent: Option<usize>,
    lines: int,
)
    requires
        moved(a, b, sa, sb, lines),
    ensures
        py_child(b, sb, shift_view(acc, lines), parent) == shift_view(py_child(a, sa, acc, parent), lines),
    decreases a, 1int, 0int,
{
    lemma_moved_parts(a, b, sa, sb, lines);
    if a.kind@ == "function_definition"@ {
        if let Some(name) = field_child(a, Field::Name) {
            lemma_moved_parts(name, field_child(b, Field::Name)->0, sa, sb, lines);
            let idx = acc.symbols.len() as usize;
            let kind = if parent is Some {
                "method"@
            } else {
                "function"@
            };
            let sym = symbol_of(node_text(name, sa), kind, a, parent, Some(py_signature(a, sa)));
            let a1 = acc.push_symbol(sym);
            lemma_shift_push_symbol(acc, sym, lines);
            assert(py_signature(b, sb) == py_signature(a, sa));
            assert(symbol_of(node_text(field_child(b, Field::Name)->0, sb), kind, b, parent, Some(py_signature(b, sb)))
                == shift_symbol(sym, lines));
            py_calls_scan_moved(a, b, 0, sa, sb, a1, idx, lines);
            py_scan_moved(a, b, 0, sa, sb, py_calls(a, sa, a1, idx), Some(idx), lines);
        }
    } else if a.kind@ == "class_definition"@ {
        if let Some(name) = field_child(a, Field::Name) {
            lemma_moved_parts(name, field_child(b, Field::Name)->0, sa, sb, lines);
            let idx = acc.symbols.len() as usize;
            let sym = symbol_of(node_text(name, sa), "class"@, a, parent, None);
            lemma_shift_push_symbol(acc, sym, lines);
            assert(symbol_of(node_text(field_child(b, Field::Name)->0, sb), "class"@, b, parent, None)
                == shift_symbol(sym, lines));
            py_scan_moved(a, b, 0, sa, sb, acc.push_symbol(sym), Some(idx), lines);
        }
    } else if a.kind@ == "import_statement"@ {
        if let Some(rest) = strip_prefix(node_text(a, sa), "import "@) {
            lemma_shift_push_import(acc, ImportView { module: trim(rest), names: None }, lines);
        }
    } else if a.kind@ == "import_from_statement"@ {
        if let Some(j) = a.fields.get(Field::ModuleName) {
            if j < a.children@.len() {
                assert(moved(a.children@[j as int], b.children@[j as int], sa, sb, lines));
                py_from_names_moved(a, b, j as int, sa, sb, lines, a.children@.len());
                let names = py_from_names(a, j as int, sa, a.children@.len());
                lemma_shift_push_import(
                    acc,
                    ImportView { module: node_text(a.children@[j as int], sa), names: joined_names(names) },
                    lines,
                );
            }
        }
    } else {
        py_scan_moved(a, b, 0, sa, sb, acc, parent, lines);
    }
}

/// Nodes that definition extraction passes into, reading what lies below them
/// with the parent it was given: all but definitions and imports.
pub open spec fn py_scan_passes(x: SyntaxNode) -> bool {
    !(x.kind@ == "function_definition"@ || x.kind@ == "class_definition"@ || x.kind@ == "import_statement"@
        || x.kind@ == "import_from_statement"@)
}

pub open spec fn py_scan_through() -> spec_fn(SyntaxNode) -> bool {
    |x: SyntaxNode| py_scan_passes(x)
}

/// A call whose callee is an identifier, or an attribute access with an attribute.
pub open spec fn py_named_call(x: SyntaxNode) -> bool {
    &&& x.kind@ == "call"@
    &&& field_child(x, Field::Function) matches Some(f) && (f.kind@ == "identifier"@ || (f.kind@
        == "attribute"@ && field_child(f, Field::Attribute) is Some))
}

/// The name a named call calls: the identifier, or the attribute.
pub open spec fn py_called_name(x: SyntaxNode, src: Seq<u8>) -> Seq<char> {
    let f = field_child(x, Field::Function)->0;
    if f.kind@ == "identifier"@ {
        node_text(f, src)
    } else {
        node_text(field_child(f, Field::Attribute)->0, src)
    }
}

/// Nodes that call extraction passes into: all but calls with a callee that
/// has no name.
pub open spec fn py_call_through() -> spec_fn(SyntaxNode) -> bool {
    |x: SyntaxNode| !(x.kind@ == "call"@ && field_child(x, Field::Function) is Some && !py_named_call(x))
}

/// The definition kinds are told apart.
proof fn py_definition_kinds_differ()
    ensures
        "function_definition"@ != "class_definition"@,
{
    reveal_strlit("function_definition");
    reveal_strlit("class_definition");
    assert("function_definition"@.len() != "class_definition"@.len());
}

/// The scan of `node` reaches its child `i` with a result that extends the
/// one it started from.
proof fn py_scan_split(node: SyntaxNode, i: nat, src: Seq<u8>, acc: ParseView, parent: Option<usize>) -> (a:
    ParseView)
    requires
        i < node.children@.len(),
    ensures
        extends(acc, a),
        py_scan(node, 0, src, acc, parent) == py_scan(
            node,
            i + 1,
            src,
            py_child(node.children@[i as int], src, a, parent),
            parent,
        ),
    decreases i,
{
    if i == 0 {
        acc
    } else {
        let a0 = py_scan_split(node, (i - 1) as nat, src, acc, parent);
        let a1 = py_child(node.children@[i - 1], src, a0, parent);
        py_child_appends(node.children@[i - 1], src, a0, parent);
        lemma_extends_chain(acc, a0, a1, 0, parent);
        a1
    }
}

/// A node reached below `node` through nodes the scan passes into is read
/// with the same parent, and what reading it gives is kept in the result.
proof fn py_scan_reaches(node: SyntaxNode, src: Seq<u8>, acc: ParseView, parent: Option<usize>, d: SyntaxNode) -> (a:
    ParseView)
    requires
        reaches(node, d, py_scan_through()),
    ensures
        extends(acc, a),
        extends(py_child(d, src, a, parent), py_scan(node, 0, src, acc, parent)),
    decreases node,
{
    let i = choose|i: int|
        0 <= i < node.children@.len() && (#[trigger] node.children@[i] == d || (py_scan_through()(
            node.children@[i],
        ) && reaches(node.children@[i], d, py_scan_through())));
    let c = node.children@[i];
    let a0 = py_scan_split(node, i as nat, src, acc, parent);
    let m = py_child(c, src, a0, parent);
    let r = py_scan(node, i as nat + 1, src, m, parent);
    py_scan_appends(node, i as nat + 1, src, m, parent);
    if c == d {
        a0
    } else {
        assert(py_scan_passes(c));
        assert(m == py_scan(c, 0, src, a0, parent));
        let a = py_scan_reaches(c, src, a0, parent, d);
        lemma_extends_chain(acc, a0, a, 0, parent);
        lemma_extends_chain(py_child(d, src, a, parent), m, r, 0, parent);
        a
    }
}

/// Reading a named definition first adds its own symbol: a function is a
/// method exactly when it has a parent.
proof fn py_child_defines(d: SyntaxNode, src: Seq<u8>, acc: ParseView, parent: Option<usize>)
    requires
        d.kind@ == "function_definition"@ || d.kind@ == "class_definition"@,
        field_child(d, Field::Name) is Some,
    ensures
        py_child(d, src, acc, parent).symbols.len() > acc.symbols.len(),
        py_child(d, src, acc, parent).symbols[acc.symbols.len() as int].name == node_text(
            field_child(d, Field::Name)->0,
            src,
        ),
        py_child(d, src, acc, parent).symbols[acc.symbols.len() as int].parent_index == parent,
        py_child(d, src, acc, parent).symbols[acc.symbols.len() as int].line_start == start_line(d),
        d.kind@ == "function_definition"@ && parent is Some ==> py_child(d, src, acc, parent).symbols[acc.symbols.len() as int].kind
            == "method"@,
        d.kind@ == "function_definition"@ && parent is None ==> py_child(d, src, acc, parent).symbols[acc.symbols.len() as int].kind
            == "function"@,
        d.kind@ == "class_definition"@ ==> py_child(d, src, acc, parent).symbols[acc.symbols.len() as int].kind
            == "class"@,
{
    py_definition_kinds_differ();
    let name = field_child(d, Field::Name)->0;
    let idx = acc.symbols.len() as usize;
    let r = py_child(d, src, acc, parent);
    if d.kind@ == "function_definition"@ {
        let kind = if parent is Some {
            "method"@
        } else {
            "function"@
        };
        let sym = symbol_of(node_text(name, src), kind, d, parent, Some(py_signature(d, src)));
        let a1 = acc.push_symbol(sym);
        let a2 = py_calls(d, src, a1, idx);
        py_calls_scan_appends(d, 0, src, a1, idx);
        py_scan_appends(d, 0, src, a2, Some(idx));
        assert(r.symbols[acc.symbols.len() as int] == a2.symbols[acc.symbols.len() as int]);
    } else {
        let sym = symbol_of(node_text(name, src), "class"@, d, parent, None);
        let a1 = acc.push_symbol(sym);
        py_scan_appends(d, 0, src, a1, Some(idx));
        assert(r.symbols[acc.symbols.len() as int] == a1.symbols[acc.symbols.len() as int]);
    }
}

/// Every function or class defined inside a function or a class (below it
/// through nodes that are not themselves definitions or imports) is listed
/// after the enclosing symbol, with that symbol as its parent, and a
/// function so nested is a method; the enclosing symbol keeps the parent it
/// was given.
pub proof fn py_definitions_hang_below_their_container(
    c: SyntaxNode,
    src: Seq<u8>,
    acc: ParseView,
    parent: Option<usize>,
    d: SyntaxNode,
)
    requires
        c.kind@ == "function_definition"@ || c.kind@ == "class_definition"@,
        field_child(c, Field::Name) is Some,
        acc.symbols.len() < usize::MAX,
        reaches(c, d, py_scan_through()),
        d.kind@ == "function_definition"@ || d.kind@ == "class_definition"@,
        field_child(d, Field::Name) is Some,
    ensures
        ({
            let r = py_child(c, src, acc, parent);
            &&& r.symbols[acc.symbols.len() as int].name == node_text(field_child(c, Field::Name)->0, src)
            &&& r.symbols[acc.symbols.len() as int].parent_index == parent
            &&& exists|k: int|
                acc.symbols.len() < k < r.symbols.len() && r.symbols[k].name == node_text(
                    field_child(d, Field::Name)->0,
                    src,
                ) && r.symbols[k].parent_index == Some(acc.symbols.len() as usize)
                    && r.symbols[k].line_start == start_line(d) && (d.kind@ == "function_definition"@
                    ==> r.symbols[k].kind == "method"@) && (d.kind@ == "class_definition"@
                    ==> r.symbols[k].kind == "class"@)
        }),
{
    py_definition_kinds_differ();
    let name = field_child(c, Field::Name)->0;
    let idx = acc.symbols.len() as usize;
    let r = py_child(c, src, acc, parent);
    py_child_defines(c, src, acc, parent);
    let inner = if c.kind@ == "function_definition"@ {
        let kind = if parent is Some {
            "method"@
        } else {
            "function"@
        };
        let sym = symbol_of(node_text(name, src), kind, c, parent, Some(py_signature(c, src)));
        let a1 = acc.push_symbol(sym);
        py_calls_scan_appends(c, 0, src, a1, idx);
        py_calls(c, src, a1, idx)
    } else {
        let sym = symbol_of(node_text(name, src), "class"@, c, parent, None);
        acc.push_symbol(sym)
    };
    assert(inner.symbols.len() == acc.symbols.len() + 1);
    assert(r == py_scan(c, 0, src, inner, Some(idx)));
    let a = py_scan_reaches(c, src, inner, Some(idx), d);
    py_child_defines(d, src, a, Some(idx));
    let k = a.symbols.len() as int;
    assert(r.symbols[k] == py_child(d, src, a, Some(idx)).symbols[k]);
}

/// The call scan of `node` reaches its child `i` with a result that has the
/// calls it started with and more of `caller`.
proof fn py_calls_scan_split(node: SyntaxNode, i: nat, src: Seq<u8>, acc: ParseView, caller: usize) -> (a:
    ParseView)
    requires
        i < node.children@.len(),
    ensures
        calls_appended(acc, a, caller),
        py_calls_scan(node, 0, src, acc, caller) == py_calls_scan(
            node,
            i + 1,
            src,
            py_call_child(node.children@[i as int], src, a, caller),
            caller,
        ),
    decreases i,
{
    if i == 0 {
        acc
    } else {
        let a0 = py_calls_scan_split(node, (i - 1) as nat, src, acc, caller);
        let a1 = py_call_child(node.children@[i - 1], src, a0, caller);
        py_call_child_appends(node.children@[i - 1], src, a0, caller);
        lemma_calls_appended_chain(acc, a0, a1, caller);
        a1
    }
}

/// A call reached below `node` through nodes call extraction passes into is
/// read, and what reading it gives is kept.
proof fn py_calls_reaches(node: SyntaxNode, src: Seq<u8>, acc: ParseView, caller: usize, d: SyntaxNode) -> (a:
    ParseView)
    requires
        reaches(node, d, py_call_through()),
    ensures
        calls_appended(acc, a, caller),
        calls_appended(py_call_child(d, src, a, caller), py_calls_scan(node, 0, src, acc, caller), caller),
    decreases node,
{
    let i = choose|i: int|
        0 <= i < node.children@.len() && (#[trigger] node.children@[i] == d || (py_call_through()(
            node.children@[i],
        ) && reaches(node.children@[i], d, py_call_through())));
    let c = node.children@[i];
    let a0 = py_calls_scan_split(node, i as nat, src, acc, caller);
    let m = py_call_child(c, src, a0, caller);
    let r = py_calls_scan(node, i as nat + 1, src, m, caller);
    py_calls_scan_appends(node, i as nat + 1, src, m, caller);
    if c == d {
        a0
    } else {
        let start = if c.kind@ == "call"@ && field_child(c, Field::Function) is Some {
            a0.push_call(call_of(caller, py_callee(c, src)->0, c))
        } else {
            a0
        };
        assert(m == py_calls_scan(c, 0, src, start, caller));
        assert(calls_appended(a0, start, caller));
        let a = py_calls_reaches(c, src, start, caller, d);
        lemma_calls_appended_chain(a0, start, a, caller);
        lemma_calls_appended_chain(acc, a0, a, caller);
        lemma_calls_appended_chain(py_call_child(d, src, a, caller), m, r, caller);
        a
    }
}

/// Every named call below `node`, reached through nodes that are not calls
/// with an unnamed callee (so inside another call's arguments or callee
/// too), is appended, attributed to `caller`, with its callee's name and
/// its line.
pub proof fn py_calls_find_every_named_call(node: SyntaxNode, src: Seq<u8>, acc: ParseView, caller: usize, d: SyntaxNode)
    requires
        reaches(node, d, py_call_through()),
        py_named_call(d),
    ensures
        exists|k: int|
            acc.calls.len() <= k < py_calls_scan(node, 0, src, acc, caller).calls.len() && py_calls_scan(
                node,
                0,
                src,
                acc,
                caller,
            ).calls[k] == (CallView { caller_index: caller, callee_name: py_called_name(d, src), line: start_line(d) }),
{
    let a = py_calls_reaches(node, src, acc, caller, d);
    let c = call_of(caller, py_callee(d, src)->0, d);
    let a1 = a.push_call(c);
    py_calls_scan_appends(d, 0, src, a1, caller);
    let k = a.calls.len() as int;
    assert(py_calls_scan(node, 0, src, acc, caller).calls[k] == a1.calls[k]);
}

/// Every named call inside a function definition is attributed to that
/// function.
pub proof fn py_calls_belong_to_their_function(
    c: SyntaxNode,
    src: Seq<u8>,
    acc: ParseView,
    parent: Option<usize>,
    d: SyntaxNode,
)
    requires
        c.kind@ == "function_definition"@,
        field_child(c, Field::Name) is Some,
        reaches(c, d, py_call_through()),
        py_named_call(d),
    ensures
        exists|k: int|
            acc.calls.len() <= k < py_child(c, src, acc, parent).calls.len() && py_child(c, src, acc, parent).calls[k]
                == (CallView {
                caller_index: acc.symbols.len() as usize,
                callee_name: py_called_name(d, src),
                line: start_line(d),
            }),
{
    let name = field_child(c, Field::Name)->0;
    let idx = acc.symbols.len() as usize;
    let r = py_child(c, src, acc, parent);
    let kind = if parent is Some {
        "method"@
    } else {
        "function"@
    };
    let a1 = acc.push_symbol(symbol_of(node_text(name, src), kind, c, parent, Some(py_signature(c, src))));
    let a2 = py_calls(c, src, a1, idx);
    py_calls_find_every_named_call(c, src, a1, idx, d);
    py_scan_appends(c, 0, src, a2, Some(idx));
    let k = choose|k: int|
        a1.calls.len() <= k < a2.calls.len() && a2.calls[k] == (CallView {
            caller_index: idx,
            callee_name: py_called_name(d, src),
            line: start_line(d),
        });
    assert(r.calls[k] == a2.calls[k]);
}

/// Every function or class definition reached below `node` through nodes the
/// scan passes into is listed after what `acc` held, with the parent the scan
/// was given; a function is a method exactly when that parent is a symbol.
pub proof fn py_scan_lists_reached_definitions(
    node: SyntaxNode,
    src: Seq<u8>,
    acc: ParseView,
    parent: Option<usize>,
    d: SyntaxNode,
)
    requires
        reaches(node, d, py_scan_through()),
        d.kind@ == "function_definition"@ || d.kind@ == "class_definition"@,
        field_child(d, Field::Name) is Some,
    ensures
        ({
            let r = py_scan(node, 0, src, acc, parent);
            exists|k: int|
                acc.symbols.len() <= k < r.symbols.len() && r.symbols[k].name == node_text(
                    field_child(d, Field::Name)->0,
                    src,
                ) && r.symbols[k].parent_index == parent && r.symbols[k].line_start == start_line(d)
                    && (d.kind@ == "function_definition"@ ==> r.symbols[k].kind == (if parent is Some {
                    "method"@
                } else {
                    "function"@
                })) && (d.kind@ == "class_definition"@ ==> r.symbols[k].kind == "class"@)
        }),
{
    let a = py_scan_reaches(node, src, acc, parent, d);
    py_child_defines(d, src, a, parent);
    let k = a.symbols.len() as int;
    assert(py_scan(node, 0, src, acc, parent).symbols[k] == py_child(d, src, a, parent).symbols[k]);
}

} // verus!
