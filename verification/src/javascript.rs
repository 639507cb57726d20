//! Definitions, imports and calls in JavaScript and TypeScript syntax trees.
use vstd::prelude::*;
use vstd::string::*;
use crate::consistency::{
    consistent,
    parent_ok,
    can_call,
    extends,
    appended_below,
    calls_appended,
    lemma_push_symbol,
    lemma_push_call,
    lemma_push_import,
    lemma_extends_chain,
    lemma_fresh_weaken,
    lemma_push_symbol_appends,
    lemma_push_import_appends,
    lemma_calls_appended_fresh,
    lemma_calls_appended_chain,
    in_source_order,
    starts_by,
    lemma_starts_by_weaken,
    lemma_push_symbol_ordered,
    calls_on_lines,
    lemma_calls_on_lines_chain,
};
use crate::language::SourceLanguage;
use crate::common::{symbol_of, call_of, spans_within, joined_names, new_symbol, new_call, joined_names_of};
use crate::model::{
    CallView,
    ParseResult,
    ParseView,
    ImportView,
    Import,
    shift_view,
    shift_symbol,
    shift_call,
    lemma_shift_push_symbol,
    lemma_shift_push_call,
    lemma_shift_push_import,
};
use crate::syntax::{
    SyntaxNode,
    rows_inside,
    rows_follow,
    start_line,
    end_line,
    Field,
    field_child,
    node_text,
    well_formed,
    lemma_parts_well_formed,
    moved,
    lemma_moved_parts,
    reaches,
};
use crate::text::{trim_quotes, trim_class, CharClass, concat2};

verus! {

/// What the children of `node` from index `i` on add to `acc`.
pub open spec fn js_scan(
    node: SyntaxNode,
    i: nat,
    src: Seq<u8>,
    acc: ParseView,
    parent: Option<usize>,
) -> ParseView
    decreases node, 0int, node.children@.len() - i,
{
    if i >= node.children@.len() {
        acc
    } else {
        js_scan(node, i + 1, src, js_child(node.children@[i as int], src, acc, parent), parent)
    }
}

/// What one child node adds to `acc`.
pub open spec fn js_child(
    child: SyntaxNode,
    src: Seq<u8>,
    acc: ParseView,
    parent: Option<usize>,
) -> ParseView
    decreases child, 1int, 0int,
{
    if child.kind@ == "function_declaration"@ {
        match field_child(child, Field::Name) {
            Some(name) => {
                let idx = acc.symbols.len() as usize;
                let sym = symbol_of(
                    node_text(name, src),
                    "function"@,
                    child,
                    parent,
                    Some("function "@ + node_text(name, src)),
                );
                let with_calls = js_calls(child, src, acc.push_symbol(sym), idx);
                js_scan(child, 0, src, with_calls, Some(idx))
            },
            None => acc,
        }
    } else if child.kind@ == "class_declaration"@ {
        match field_child(child, Field::Name) {
            Some(name) => {
                let idx = acc.symbols.len() as usize;
                let sym = symbol_of(node_text(name, src), "class"@, child, parent, None);
                js_scan(child, 0, src, acc.push_symbol(sym), Some(idx))
            },
            None => acc,
        }
    } else if child.kind@ == "method_definition"@ {
        match field_child(child, Field::Name) {
            Some(name) => {
                let idx = acc.symbols.len() as usize;
                let sym = symbol_of(node_text(name, src), "method"@, child, parent, None);
                js_calls(child, src, acc.push_symbol(sym), idx)
            },
            None => acc,
        }
    } else if child.kind@ == "lexical_declaration"@ || child.kind@ == "variable_declaration"@ {
        js_arrows(child, 0, src, acc, parent)
    } else if child.kind@ == "import_statement"@ {
        js_import(child, src, acc)
    } else {
        js_scan(child, 0, src, acc, parent)
    }
}

/// Whether a declarator binds a name to an arrow function or function expression.
pub open spec fn js_is_function_binding(d: SyntaxNode) -> bool {
    &&& d.kind@ == "variable_declarator"@
    &&& field_child(d, Field::Name) is Some
    &&& field_child(d, Field::Value) is Some
    &&& (field_child(d, Field::Value)->0.kind@ == "arrow_function"@ || field_child(
        d,
        Field::Value,
    )->0.kind@ == "function"@)
}

/// The functions that the declarators of `decl` from index `i` on define.
pub open spec fn js_arrows(
    decl: SyntaxNode,
    i: nat,
    src: Seq<u8>,
    acc: ParseView,
    parent: Option<usize>,
) -> ParseView
    decreases decl.children@.len() - i,
{
    if i >= decl.children@.len() {
        acc
    } else {
        let d = decl.children@[i as int];
        let next = if js_is_function_binding(d) {
            let name = node_text(field_child(d, Field::Name)->0, src);
            let idx = acc.symbols.len() as usize;
            let sym = symbol_of(name, "function"@, decl, parent, Some("const "@ + name));
            js_calls(field_child(d, Field::Value)->0, src, acc.push_symbol(sym), idx)
        } else {
            acc
        };
        js_arrows(decl, i + 1, src, next, parent)
    }
}

/// The names of the `import_specifier` children of `n` among its first `k` children.
pub open spec fn js_specifier_names(n: SyntaxNode, src: Seq<u8>, k: nat) -> Seq<Seq<char>>
    decreases k,
{
    if k == 0 || k > n.children@.len() {
        Seq::empty()
    } else {
        let before = js_specifier_names(n, src, (k - 1) as nat);
        let s = n.children@[k - 1];
        if s.kind@ == "import_specifier"@ && field_child(s, Field::Name) is Some {
            before.push(node_text(field_child(s, Field::Name)->0, src))
        } else {
            before
        }
    }
}

/// The names an `import_clause` binds, among its first `k` children: default
/// imports and the specifiers of named imports.
pub open spec fn js_clause_names(clause: SyntaxNode, src: Seq<u8>, k: nat) -> Seq<Seq<char>>
    decreases k,
{
    if k == 0 || k > clause.children@.len() {
        Seq::empty()
    } else {
        let before = js_clause_names(clause, src, (k - 1) as nat);
        let inner = clause.children@[k - 1];
        if inner.kind@ == "identifier"@ {
            before.push(node_text(inner, src))
        } else if inner.kind@ == "named_imports"@ {
            before + js_specifier_names(inner, src, inner.children@.len())
        } else {
            before
        }
    }
}

/// The names an import statement binds, among its first `k` children.
pub open spec fn js_import_names(stmt: SyntaxNode, src: Seq<u8>, k: nat) -> Seq<Seq<char>>
    decreases k,
{
    if k == 0 || k > stmt.children@.len() {
        Seq::empty()
    } else {
        let before = js_import_names(stmt, src, (k - 1) as nat);
        let c = stmt.children@[k - 1];
        if c.kind@ == "import_specifier"@ && field_child(c, Field::Name) is Some {
            before.push(node_text(field_child(c, Field::Name)->0, src))
        } else if c.kind@ == "import_clause"@ {
            before + js_clause_names(c, src, c.children@.len())
        } else {
            before
        }
    }
}

/// What an import statement adds to `acc`.
pub open spec fn js_import(stmt: SyntaxNode, src: Seq<u8>, acc: ParseView) -> ParseView {
    match field_child(stmt, Field::Source) {
        Some(source) => acc.push_import(
            ImportView {
                module: trim_quotes(node_text(source, src)),
                names: joined_names(js_import_names(stmt, src, stmt.children@.len())),
            },
        ),
        None => acc,
    }
}

/// The calls below `node` from child `i` on, attributed to symbol `caller`.
pub open spec fn js_calls_scan(
    node: SyntaxNode,
    i: nat,
    src: Seq<u8>,
    acc: ParseView,
    caller: usize,
) -> ParseView
    decreases node, 0int, node.children@.len() - i,
{
    if i >= node.children@.len() {
        acc
    } else {
        js_calls_scan(
            node,
            i + 1,
            src,
            js_call_child(node.children@[i as int], src, acc, caller),
            caller,
        )
    }
}

/// The name a call expression calls: an identifier, or the property of a
/// member access; `None` for any other callee.
pub open spec fn js_callee(call: SyntaxNode, src: Seq<u8>) -> Option<Seq<char>> {
    let f = field_child(call, Field::Function)->0;
    if f.kind@ == "identifier"@ {
        Some(node_text(f, src))
    } else if f.kind@ == "member_expression"@ {
        match field_child(f, Field::Property) {
            Some(p) => Some(node_text(p, src)),
            None => None,
        }
    } else {
        None
    }
}

/// The calls found in one child and below it. The subtree of a call whose
/// callee has no name is not searched.
pub open spec fn js_call_child(child: SyntaxNode, src: Seq<u8>, acc: ParseView, caller: usize) -> ParseView
    decreases child, 1int, 0int,
{
    if child.kind@ == "call_expression"@ && field_child(child, Field::Function) is Some {
        match js_callee(child, src) {
            Some(name) => js_calls_scan(
                child,
                0,
                src,
                acc.push_call(call_of(caller, name, child)),
                caller,
            ),
            None => acc,
        }
    } else {
        js_calls_scan(child, 0, src, acc, caller)
    }
}

/// The calls inside `node`, attributed to symbol `caller`.
pub open spec fn js_calls(node: SyntaxNode, src: Seq<u8>, acc: ParseView, caller: usize) -> ParseView {
    js_calls_scan(node, 0, src, acc, caller)
}

/// Everything extracted from a JavaScript or TypeScript tree.
pub open spec fn js_extract(root: SyntaxNode, src: Seq<u8>, acc: ParseView) -> ParseView {
    js_scan(root, 0, src, acc, None)
}

/// Adds what the children of `node` hold to `result`.
pub fn js_node(node: &SyntaxNode, src: &[u8], result: &mut ParseResult, parent: Option<usize>)
    requires
        well_formed(*node, src@.len()),
    ensures
        final(result)@ == js_scan(*node, 0, src@, old(result)@, parent),
    decreases node, 0int,
{
    proof {
        lemma_parts_well_formed(*node, src@.len());
    }
    let mut i: usize = 0;
    while i < node.children.len()
        invariant
            i <= node.children@.len(),
            forall|k: int|
                0 <= k < node.children@.len() ==> well_formed(#[trigger] node.children@[k], src@.len()),
            js_scan(*node, i as nat, src@, result@, parent) == js_scan(
                *node,
                0,
                src@,
                old(result)@,
                parent,
            ),
        decreases node.children@.len() - i,
    {
        js_child_node(&node.children[i], src, result, parent);
        i = i + 1;
    }
}

fn js_child_node(child: &SyntaxNode, src: &[u8], result: &mut ParseResult, parent: Option<usize>)
    requires
        well_formed(*child, src@.len()),
    ensures
        final(result)@ == js_child(*child, src@, old(result)@, parent),
    decreases child, 1int,
{
    proof {
        lemma_parts_well_formed(*child, src@.len());
    }
    if child.is_kind("function_declaration") {
        if let Some(name_node) = child.child_by_field(Field::Name) {
            let idx = result.symbol_count();
            let name = name_node.text(src);
            let sig = concat2("function ", name);
            result.add_symbol(new_symbol(name, "function", child, parent, Some(sig)));
            js_calls_node(child, src, result, idx);
            js_node(child, src, result, Some(idx));
        }
    } else if child.is_kind("class_declaration") {
        if let Some(name_node) = child.child_by_field(Field::Name) {
            let idx = result.symbol_count();
            result.add_symbol(new_symbol(name_node.text(src), "class", child, parent, None));
            js_node(child, src, result, Some(idx));
        }
    } else if child.is_kind("method_definition") {
        if let Some(name_node) = child.child_by_field(Field::Name) {
            let idx = result.symbol_count();
            result.add_symbol(new_symbol(name_node.text(src), "method", child, parent, None));
            js_calls_node(child, src, result, idx);
        }
    } else if child.is_kind("lexical_declaration") || child.is_kind("variable_declaration") {
        js_arrow_functions(child, src, result, parent);
    } else if child.is_kind("import_statement") {
        js_import_node(child, src, result);
    } else {
        js_node(child, src, result, parent);
    }
}

fn js_arrow_functions(decl: &SyntaxNode, src: &[u8], result: &mut ParseResult, parent: Option<usize>)
    requires
        well_formed(*decl, src@.len()),
    ensures
        final(result)@ == js_arrows(*decl, 0, src@, old(result)@, parent),
{
    proof {
        lemma_parts_well_formed(*decl, src@.len());
    }
    let mut i: usize = 0;
    while i < decl.children.len()
        invariant
            i <= decl.children@.len(),
            well_formed(*decl, src@.len()),
            forall|k: int|
                0 <= k < decl.children@.len() ==> well_formed(#[trigger] decl.children@[k], src@.len()),
            js_arrows(*decl, i as nat, src@, result@, parent) == js_arrows(
                *decl,
                0,
                src@,
                old(result)@,
                parent,
            ),
        decreases decl.children@.len() - i,
    {
        let d = &decl.children[i];
        proof {
            lemma_parts_well_formed(*d, src@.len());
        }
        if d.is_kind("variable_declarator") {
            match (d.child_by_field(Field::Name), d.child_by_field(Field::Value)) {
                (Some(name_node), Some(value)) => {
                    if value.is_kind("arrow_function") || value.is_kind("function") {
                        let idx = result.symbol_count();
                        let name = name_node.text(src);
                        let sig = concat2("const ", name);
                        result.add_symbol(new_symbol(name, "function", decl, parent, Some(sig)));
                        js_calls_node(value, src, result, idx);
                    }
                },
                _ => {},
            }
        }
        i = i + 1;
    }
}

/// The names of the `import_specifier` children of `n`, appended to `names`.
fn js_push_specifier_names(n: &SyntaxNode, src: &[u8], names: &mut Vec<String>)
    requires
        well_formed(*n, src@.len()),
    ensures
        final(names)@.map_values(|p: String| p@) == old(names)@.map_values(|p: String| p@)
            + js_specifier_names(*n, src@, n.children@.len()),
{
    proof {
        lemma_parts_well_formed(*n, src@.len());
    }
    let ghost start = names@.map_values(|p: String| p@);
    let mut k: usize = 0;
    while k < n.children.len()
        invariant
            k <= n.children@.len(),
            forall|m: int|
                0 <= m < n.children@.len() ==> well_formed(#[trigger] n.children@[m], src@.len()),
            names@.map_values(|p: String| p@) == start + js_specifier_names(*n, src@, k as nat),
        decreases n.children@.len() - k,
    {
        let s = &n.children[k];
        proof {
            lemma_parts_well_formed(*s, src@.len());
        }
        let ghost before = names@;
        if s.is_kind("import_specifier") {
            if let Some(name) = s.child_by_field(Field::Name) {
                names.push(String::from_str(name.text(src)));
                assert(names@.map_values(|p: String| p@) =~= before.map_values(|p: String| p@).push(
                    node_text(*name, src@),
                ));
            }
        }
        k = k + 1;
        assert(start + js_specifier_names(*n, src@, k as nat) =~= names@.map_values(
            |p: String| p@,
        ));
    }
}

/// The names an `import_clause` binds, appended to `names`.
fn js_push_clause_names(clause: &SyntaxNode, src: &[u8], names: &mut Vec<String>)
    requires
        well_formed(*clause, src@.len()),
    ensures
        final(names)@.map_values(|p: String| p@) == old(names)@.map_values(|p: String| p@)
            + js_clause_names(*clause, src@, clause.children@.len()),
{
    proof {
        lemma_parts_well_formed(*clause, src@.len());
    }
    let ghost start = names@.map_values(|p: String| p@);
    let mut k: usize = 0;
    while k < clause.children.len()
        invariant
            k <= clause.children@.len(),
            forall|m: int|
                0 <= m < clause.children@.len() ==> well_formed(
                    #[trigger] clause.children@[m],
                    src@.len(),
                ),
            names@.map_values(|p: String| p@) == start + js_clause_names(*clause, src@, k as nat),
        decreases clause.children@.len() - k,
    {
        let inner = &clause.children[k];
        let ghost before = names@.map_values(|p: String| p@);
        if inner.is_kind("identifier") {
            let ghost b = names@;
            names.push(String::from_str(inner.text(src)));
            assert(names@.map_values(|p: String| p@) =~= b.map_values(|p: String| p@).push(
                node_text(*inner, src@),
            ));
        } else if inner.is_kind("named_imports") {
            js_push_specifier_names(inner, src, names);
        }
        k = k + 1;
        assert(start + js_clause_names(*clause, src@, k as nat) =~= names@.map_values(
            |p: String| p@,
        ));
    }
}

fn js_import_node(stmt: &SyntaxNode, src: &[u8], result: &mut ParseResult)
    requires
        well_formed(*stmt, src@.len()),
    ensures
        final(result)@ == js_import(*stmt, src@, old(result)@),
{
    proof {
        lemma_parts_well_formed(*stmt, src@.len());
    }
    let source = match stmt.child_by_field(Field::Source) {
        Some(s) => s,
        None => {
            return ;
        },
    };
    let module = String::from_str(trim_class(source.text(src), CharClass::Quote, true, true));
    let mut names: Vec<String> = Vec::new();
    let mut k: usize = 0;
    while k < stmt.children.len()
        invariant
            k <= stmt.children@.len(),
            forall|m: int|
                0 <= m < stmt.children@.len() ==> well_formed(#[trigger] stmt.children@[m], src@.len()),
            names@.map_values(|p: String| p@) == js_import_names(*stmt, src@, k as nat),
        decreases stmt.children@.len() - k,
    {
        let c = &stmt.children[k];
        proof {
            lemma_parts_well_formed(*c, src@.len());
        }
        let ghost before = names@;
        if c.is_kind("import_specifier") && c.child_by_field(Field::Name).is_some() {
            if let Some(name) = c.child_by_field(Field::Name) {
                names.push(String::from_str(name.text(src)));
                assert(names@.map_values(|p: String| p@) =~= before.map_values(|p: String| p@).push(
                    node_text(*name, src@),
                ));
            }
        } else if c.is_kind("import_clause") {
            js_push_clause_names(c, src, &mut names);
        }
        k = k + 1;
    }
    let joined = joined_names_of(&names);
    result.add_import(Import { module, names: joined });
}

/// Adds the calls inside `node` to `result`, attributed to symbol `caller`.
fn js_calls_node(node: &SyntaxNode, src: &[u8], result: &mut ParseResult, caller: usize)
    requires
        well_formed(*node, src@.len()),
    ensures
        final(result)@ == js_calls_scan(*node, 0, src@, old(result)@, caller),
    decreases node, 0int,
{
    proof {
        lemma_parts_well_formed(*node, src@.len());
    }
    let mut i: usize = 0;
    while i < node.children.len()
        invariant
            i <= node.children@.len(),
            forall|k: int|
                0 <= k < node.children@.len() ==> well_formed(#[trigger] node.children@[k], src@.len()),
            js_calls_scan(*node, i as nat, src@, result@, caller) == js_calls_scan(
                *node,
                0,
                src@,
                old(result)@,
                caller,
            ),
        decreases node.children@.len() - i,
    {
        js_call_child_node(&node.children[i], src, result, caller);
        i = i + 1;
    }
}

fn js_call_child_node(child: &SyntaxNode, src: &[u8], result: &mut ParseResult, caller: usize)
    requires
        well_formed(*child, src@.len()),
    ensures
        final(result)@ == js_call_child(*child, src@, old(result)@, caller),
    decreases child, 1int,
{
    proof {
        lemma_parts_well_formed(*child, src@.len());
    }
    if child.is_kind("call_expression") {
        if let Some(func) = child.child_by_field(Field::Function) {
            proof {
                lemma_parts_well_formed(*func, src@.len());
            }
            let name: &str = if func.is_kind("identifier") {
                func.text(src)
            } else if func.is_kind("member_expression") {
                match func.child_by_field(Field::Property) {
                    Some(prop) => prop.text(src),
                    None => {
                        return ;
                    },
                }
            } else {
                return ;
            };
            result.add_call(new_call(caller, name, child));
            js_calls_node(child, src, result, caller);
            return ;
        }
    }
    js_calls_node(child, src, result, caller);
}


/// The languages whose trees are read with the JavaScript rules.
pub open spec fn js_family(language: SourceLanguage) -> bool {
    language == SourceLanguage::JavaScript || language == SourceLanguage::TypeScript || language
        == SourceLanguage::Tsx
}

/// Call extraction appends calls attributed to `caller` and changes nothing else.
pub proof fn js_calls_scan_appends(node: SyntaxNode, i: nat, src: Seq<u8>, acc: ParseView, caller: usize)
    ensures
        calls_appended(acc, js_calls_scan(node, i, src, acc, caller), caller),
    decreases node, 0int, node.children@.len() - i,
{
    if i < node.children@.len() {
        let c = node.children@[i as int];
        let m = js_call_child(c, src, acc, caller);
        js_call_child_appends(c, src, acc, caller);
        js_calls_scan_appends(node, i + 1, src, m, caller);
        lemma_calls_appended_chain(acc, m, js_calls_scan(node, i + 1, src, m, caller), caller);
    }
}

proof fn js_call_child_appends(child: SyntaxNode, src: Seq<u8>, acc: ParseView, caller: usize)
    ensures
        calls_appended(acc, js_call_child(child, src, acc, caller), caller),
    decreases child, 1int, 0int,
{
    if child.kind@ == "call_expression"@ && field_child(child, Field::Function) is Some {
        if let Some(name) = js_callee(child, src) {
            let a1 = acc.push_call(call_of(caller, name, child));
            js_calls_scan_appends(child, 0, src, a1, caller);
            lemma_calls_appended_chain(acc, a1, js_calls_scan(child, 0, src, a1, caller), caller);
        }
    } else {
        js_calls_scan_appends(child, 0, src, acc, caller);
    }
}

/// Every call that call extraction appends lies on the lines of `node`.
pub proof fn js_calls_scan_lines(node: SyntaxNode, i: nat, src: Seq<u8>, acc: ParseView, caller: usize)
    requires
        well_formed(node, src.len()),
    ensures
        calls_on_lines(
            acc,
            js_calls_scan(node, i, src, acc, caller),
            start_line(node) as int,
            end_line(node) as int,
        ),
    decreases node, 0int, node.children@.len() - i,
{
    if i < node.children@.len() {
        lemma_parts_well_formed(node, src.len());
        let c = node.children@[i as int];
        let m = js_call_child(c, src, acc, caller);
        let r = js_calls_scan(node, i + 1, src, m, caller);
        assert(rows_inside(c, node) && well_formed(c, src.len()));
        js_call_child_lines(c, src, acc, caller);
        js_calls_scan_lines(node, i + 1, src, m, caller);
        js_call_child_appends(c, src, acc, caller);
        js_calls_scan_appends(node, i + 1, src, m, caller);
        lemma_calls_on_lines_chain(
            acc,
            m,
            r,
            start_line(c) as int,
            end_line(c) as int,
            start_line(node) as int,
            end_line(node) as int,
            start_line(node) as int,
            end_line(node) as int,
        );
    }
}

proof fn js_call_child_lines(child: SyntaxNode, src: Seq<u8>, acc: ParseView, caller: usize)
    requires
        well_formed(child, src.len()),
    ensures
        calls_on_lines(
            acc,
            js_call_child(child, src, acc, caller),
            start_line(child) as int,
            end_line(child) as int,
        ),
    decreases child, 1int, 0int,
{
    let lo = start_line(child) as int;
    let hi = end_line(child) as int;
    if child.kind@ == "call_expression"@ && field_child(child, Field::Function) is Some {
        if let Some(name) = js_callee(child, src) {
            let a1 = acc.push_call(call_of(caller, name, child));
            let r = js_calls_scan(child, 0, src, a1, caller);
            js_calls_scan_lines(child, 0, src, a1, caller);
            js_calls_scan_appends(child, 0, src, a1, caller);
            lemma_calls_on_lines_chain(acc, a1, r, lo, hi, lo, hi, lo, hi);
        }
    } else {
        js_calls_scan_lines(child, 0, src, acc, caller);
    }
}

/// Call extraction keeps a result consistent when the caller exists.
proof fn js_calls_scan_sound(
    node: SyntaxNode,
    i: nat,
    src: Seq<u8>,
    acc: ParseView,
    caller: usize,
    language: SourceLanguage,
)
    requires
        well_formed(node, src.len()),
        consistent(acc, language),
        can_call(acc.symbols, caller),
        spans_within(node, acc.symbols[caller as int]),
    ensures
        consistent(js_calls_scan(node, i, src, acc, caller), language),
    decreases node, 0int, node.children@.len() - i,
{
    if i < node.children@.len() {
        lemma_parts_well_formed(node, src.len());
        let c = node.children@[i as int];
        assert(rows_inside(c, node) && well_formed(c, src.len()));
        js_call_child_appends(c, src, acc, caller);
        js_call_child_sound(c, src, acc, caller, language);
        js_calls_scan_sound(node, i + 1, src, js_call_child(c, src, acc, caller), caller, language);
    }
}

proof fn js_call_child_sound(
    child: SyntaxNode,
    src: Seq<u8>,
    acc: ParseView,
    caller: usize,
    language: SourceLanguage,
)
    requires
        well_formed(child, src.len()),
        consistent(acc, language),
        can_call(acc.symbols, caller),
        spans_within(child, acc.symbols[caller as int]),
    ensures
        consistent(js_call_child(child, src, acc, caller), language),
    decreases child, 1int, 0int,
{
    if child.kind@ == "call_expression"@ && field_child(child, Field::Function) is Some {
        if let Some(name) = js_callee(child, src) {
            let c = call_of(caller, name, child);
            lemma_push_call(acc, c, language);
            js_calls_scan_sound(child, 0, src, acc.push_call(c), caller, language);
        }
    } else {
        js_calls_scan_sound(child, 0, src, acc, caller, language);
    }
}

/// Arrow-function extraction only appends functions below `parent`, with
/// their calls.
proof fn js_arrows_appends(decl: SyntaxNode, i: nat, src: Seq<u8>, acc: ParseView, parent: Option<usize>)
    ensures
        extends(acc, js_arrows(decl, i, src, acc, parent)),
        js_arrows(decl, i, src, acc, parent).symbols.len() <= usize::MAX ==> appended_below(
            acc,
            js_arrows(decl, i, src, acc, parent),
            parent,
        ),
    decreases decl.children@.len() - i,
{
    if i < decl.children@.len() {
        let base = acc.symbols.len() as int;
        let d = decl.children@[i as int];
        let next = if js_is_function_binding(d) {
            let name = node_text(field_child(d, Field::Name)->0, src);
            let idx = acc.symbols.len() as usize;
            let sym = symbol_of(name, "function"@, decl, parent, Some("const "@ + name));
            let a1 = acc.push_symbol(sym);
            let value = field_child(d, Field::Value)->0;
            lemma_push_symbol_appends(acc, sym);
            js_calls_scan_appends(value, 0, src, a1, idx);
            lemma_calls_appended_fresh(a1, js_calls(value, src, a1, idx), idx, base, parent);
            lemma_extends_chain(acc, a1, js_calls(value, src, a1, idx), base, parent);
            js_calls(value, src, a1, idx)
        } else {
            acc
        };
        let r = js_arrows(decl, i + 1, src, next, parent);
        js_arrows_appends(decl, i + 1, src, next, parent);
        lemma_extends_chain(acc, next, r, base, parent);
        lemma_fresh_weaken(next, r, next.symbols.len() as int, parent, base, parent);
    }
}

/// Arrow-function extraction keeps a result consistent.
proof fn js_arrows_sound(
    decl: SyntaxNode,
    i: nat,
    src: Seq<u8>,
    acc: ParseView,
    parent: Option<usize>,
    language: SourceLanguage,
)
    requires
        js_family(language),
        well_formed(decl, src.len()),
        consistent(acc, language),
        parent_ok(parent, acc),
    ensures
        js_arrows(decl, i, src, acc, parent).symbols.len() <= usize::MAX ==> consistent(
            js_arrows(decl, i, src, acc, parent),
            language,
        ),
    decreases decl.children@.len() - i,
{
    if i < decl.children@.len() {
        lemma_parts_well_formed(decl, src.len());
        let d = decl.children@[i as int];
        lemma_parts_well_formed(d, src.len());
        if js_is_function_binding(d) {
            let name = node_text(field_child(d, Field::Name)->0, src);
            let idx = acc.symbols.len() as usize;
            let sym = symbol_of(name, "function"@, decl, parent, Some("const "@ + name));
            let a1 = acc.push_symbol(sym);
            let value = field_child(d, Field::Value)->0;
            let next = js_calls(value, src, a1, idx);
            js_calls_scan_appends(value, 0, src, a1, idx);
            js_arrows_appends(decl, i + 1, src, next, parent);
            if js_arrows(decl, i, src, acc, parent).symbols.len() <= usize::MAX {
                lemma_push_symbol(acc, sym, language);
                js_calls_scan_sound(value, 0, src, a1, idx, language);
                js_arrows_sound(decl, i + 1, src, next, parent, language);
            }
        } else {
            js_arrows_sound(decl, i + 1, src, acc, parent, language);
        }
    }
}

/// Extraction only appends to the result; what it appends hangs below
/// `parent` or below a symbol it appended, and every call it appends is
/// attributed to a symbol it appended (the indices as far as they can be
/// counted in a `usize`).
pub proof fn js_scan_appends(node: SyntaxNode, i: nat, src: Seq<u8>, acc: ParseView, parent: Option<usize>)
    ensures
        extends(acc, js_scan(node, i, src, acc, parent)),
        js_scan(node, i, src, acc, parent).symbols.len() <= usize::MAX ==> appended_below(
            acc,
            js_scan(node, i, src, acc, parent),
            parent,
        ),
    decreases node, 0int, node.children@.len() - i,
{
    if i < node.children@.len() {
        let c = node.children@[i as int];
        let m = js_child(c, src, acc, parent);
        let r = js_scan(node, i + 1, src, m, parent);
        js_child_appends(c, src, acc, parent);
        js_scan_appends(node, i + 1, src, m, parent);
        lemma_extends_chain(acc, m, r, acc.symbols.len() as int, parent);
        lemma_fresh_weaken(m, r, m.symbols.len() as int, parent, acc.symbols.len() as int, parent);
    }
}

proof fn js_child_appends(child: SyntaxNode, src: Seq<u8>, acc: ParseView, parent: Option<usize>)
    ensures
        extends(acc, js_child(child, src, acc, parent)),
        js_child(child, src, acc, parent).symbols.len() <= usize::MAX ==> appended_below(
            acc,
            js_child(child, src, acc, parent),
            parent,
        ),
    decreases child, 1int, 0int,
{
    let base = acc.symbols.len() as int;
    if child.kind@ == "function_declaration"@ {
        if let Some(name) = field_child(child, Field::Name) {
            let idx = acc.symbols.len() as usize;
            let sym = symbol_of(node_text(name, src), "function"@, child, parent, Some("function "@ + node_text(name, src)));
            let a1 = acc.push_symbol(sym);
            let a2 = js_calls(child, src, a1, idx);
            let r = js_scan(child, 0, src, a2, Some(idx));
            lemma_push_symbol_appends(acc, sym);
            js_calls_scan_appends(child, 0, src, a1, idx);
            lemma_calls_appended_fresh(a1, a2, idx, base, parent);
            js_scan_appends(child, 0, src, a2, Some(idx));
            lemma_extends_chain(acc, a1, a2, base, parent);
            lemma_extends_chain(acc, a2, r, base, parent);
            lemma_fresh_weaken(a2, r, a2.symbols.len() as int, Some(idx), base, parent);
        }
    } else if child.kind@ == "class_declaration"@ {
        if let Some(name) = field_child(child, Field::Name) {
            let idx = acc.symbols.len() as usize;
            let sym = symbol_of(node_text(name, src), "class"@, child, parent, None);
            let a1 = acc.push_symbol(sym);
            let r = js_scan(child, 0, src, a1, Some(idx));
            lemma_push_symbol_appends(acc, sym);
            js_scan_appends(child, 0, src, a1, Some(idx));
            lemma_extends_chain(acc, a1, r, base, parent);
            lemma_fresh_weaken(a1, r, a1.symbols.len() as int, Some(idx), base, parent);
        }
    } else if child.kind@ == "method_definition"@ {
        if let Some(name) = field_child(child, Field::Name) {
            let idx = acc.symbols.len() as usize;
            let sym = symbol_of(node_text(name, src), "method"@, child, parent, None);
            let a1 = acc.push_symbol(sym);
            let r = js_calls(child, src, a1, idx);
            lemma_push_symbol_appends(acc, sym);
            js_calls_scan_appends(child, 0, src, a1, idx);
            lemma_calls_appended_fresh(a1, r, idx, base, parent);
            lemma_extends_chain(acc, a1, r, base, parent);
        }
    } else if child.kind@ == "lexical_declaration"@ || child.kind@ == "variable_declaration"@ {
        js_arrows_appends(child, 0, src, acc, parent);
    } else if child.kind@ == "import_statement"@ {
        if let Some(source) = field_child(child, Field::Source) {
            lemma_push_import_appends(
                acc,
                ImportView {
                    module: trim_quotes(node_text(source, src)),
                    names: joined_names(js_import_names(child, src, child.children@.len())),
                },
                base,
                parent,
            );
        }
    } else {
        js_scan_appends(child, 0, src, acc, parent);
    }
}

/// Arrow-function extraction lists the functions of a declaration after the
/// symbols already found; they all start where the declaration starts.
proof fn js_arrows_ordered(decl: SyntaxNode, i: nat, src: Seq<u8>, acc: ParseView, parent: Option<usize>)
    requires
        in_source_order(acc),
        starts_by(acc, start_line(decl) as int),
    ensures
        in_source_order(js_arrows(decl, i, src, acc, parent)),
        starts_by(js_arrows(decl, i, src, acc, parent), start_line(decl) as int),
    decreases decl.children@.len() - i,
{
    if i < decl.children@.len() {
        let d = decl.children@[i as int];
        let next = if js_is_function_binding(d) {
            let name = node_text(field_child(d, Field::Name)->0, src);
            let idx = acc.symbols.len() as usize;
            let sym = symbol_of(name, "function"@, decl, parent, Some("const "@ + name));
            let a1 = acc.push_symbol(sym);
            let value = field_child(d, Field::Value)->0;
            lemma_push_symbol_ordered(acc, sym);
            js_calls_scan_appends(value, 0, src, a1, idx);
            assert(js_calls(value, src, a1, idx).symbols == a1.symbols);
            js_calls(value, src, a1, idx)
        } else {
            acc
        };
        js_arrows_ordered(decl, i + 1, src, next, parent);
    }
}

/// Extraction lists the symbols it finds in the order of the lines they start
/// on, after those already found, and none of them starts after `node` ends.
pub proof fn js_scan_ordered(node: SyntaxNode, i: nat, src: Seq<u8>, acc: ParseView, parent: Option<usize>)
    requires
        well_formed(node, src.len()),
        in_source_order(acc),
        i < node.children@.len() ==> starts_by(acc, start_line(node.children@[i as int]) as int),
        i >= node.children@.len() ==> starts_by(acc, end_line(node) as int),
    ensures
        in_source_order(js_scan(node, i, src, acc, parent)),
        starts_by(js_scan(node, i, src, acc, parent), end_line(node) as int),
    decreases node, 0int, node.children@.len() - i,
{
    if i < node.children@.len() {
        lemma_parts_well_formed(node, src.len());
        let c = node.children@[i as int];
        let m = js_child(c, src, acc, parent);
        assert(rows_inside(c, node));
        js_child_ordered(c, src, acc, parent);
        if i + 1 < node.children@.len() {
            assert(rows_follow(c, node.children@[i + 1 as int]));
            assert(well_formed(node.children@[i + 1 as int], src.len()));
            lemma_starts_by_weaken(m, end_line(c) as int, start_line(node.children@[i + 1 as int]) as int);
        } else {
            lemma_starts_by_weaken(m, end_line(c) as int, end_line(node) as int);
        }
        js_scan_ordered(node, i + 1, src, m, parent);
    }
}

proof fn js_child_ordered(child: SyntaxNode, src: Seq<u8>, acc: ParseView, parent: Option<usize>)
    requires
        well_formed(child, src.len()),
        in_source_order(acc),
        starts_by(acc, start_line(child) as int),
    ensures
        in_source_order(js_child(child, src, acc, parent)),
        starts_by(js_child(child, src, acc, parent), end_line(child) as int),
    decreases child, 1int, 0int,
{
    lemma_parts_well_formed(child, src.len());
    let first = start_line(child) as int;
    let last = end_line(child) as int;
    let next = if child.children@.len() > 0 {
        assert(rows_inside(child.children@[0], child));
        assert(well_formed(child.children@[0], src.len()));
        start_line(child.children@[0]) as int
    } else {
        last
    };
    lemma_starts_by_weaken(acc, first, last);
    lemma_starts_by_weaken(acc, first, next);
    if child.kind@ == "function_declaration"@ {
        if let Some(name) = field_child(child, Field::Name) {
            let idx = acc.symbols.len() as usize;
            let sym = symbol_of(node_text(name, src), "function"@, child, parent, Some("function "@ + node_text(name, src)));
            let a1 = acc.push_symbol(sym);
            let a2 = js_calls(child, src, a1, idx);
            lemma_push_symbol_ordered(acc, sym);
            js_calls_scan_appends(child, 0, src, a1, idx);
            assert(a2.symbols == a1.symbols);
            lemma_starts_by_weaken(a2, first, next);
            js_scan_ordered(child, 0, src, a2, Some(idx));
        }
    } else if child.kind@ == "class_declaration"@ {
        if let Some(name) = field_child(child, Field::Name) {
            let idx = acc.symbols.len() as usize;
            let sym = symbol_of(node_text(name, src), "class"@, child, parent, None);
            let a1 = acc.push_symbol(sym);
            lemma_push_symbol_ordered(acc, sym);
            lemma_starts_by_weaken(a1, first, next);
            js_scan_ordered(child, 0, src, a1, Some(idx));
        }
    } else if child.kind@ == "method_definition"@ {
        if let Some(name) = field_child(child, Field::Name) {
            let idx = acc.symbols.len() as usize;
            let sym = symbol_of(node_text(name, src), "method"@, child, parent, None);
            let a1 = acc.push_symbol(sym);
            let r = js_calls(child, src, a1, idx);
            lemma_push_symbol_ordered(acc, sym);
            js_calls_scan_appends(child, 0, src, a1, idx);
            assert(r.symbols == a1.symbols);
            lemma_starts_by_weaken(r, first, last);
        }
    } else if child.kind@ == "lexical_declaration"@ || child.kind@ == "variable_declaration"@ {
        js_arrows_ordered(child, 0, src, acc, parent);
        lemma_starts_by_weaken(js_arrows(child, 0, src, acc, parent), first, last);
    } else if child.kind@ == "import_statement"@ {
    } else {
        js_scan_ordered(child, 0, src, acc, parent);
    }
}

/// Extraction keeps a result consistent, as long as its symbols can be counted.
pub proof fn js_scan_sound(
    node: SyntaxNode,
    i: nat,
    src: Seq<u8>,
    acc: ParseView,
    parent: Option<usize>,
    language: SourceLanguage,
)
    requires
        js_family(language),
        well_formed(node, src.len()),
        consistent(acc, language),
        parent_ok(parent, acc),
    ensures
        js_scan(node, i, src, acc, parent).symbols.len() <= usize::MAX ==> consistent(
            js_scan(node, i, src, acc, parent),
            language,
        ),
    decreases node, 0int, node.children@.len() - i,
{
    if i < node.children@.len() {
        lemma_parts_well_formed(node, src.len());
        let c = node.children@[i as int];
        let m = js_child(c, src, acc, parent);
        js_child_appends(c, src, acc, parent);
        js_scan_appends(node, i + 1, src, m, parent);
        if m.symbols.len() <= usize::MAX {
            js_child_sound(c, src, acc, parent, language);
            js_scan_sound(node, i + 1, src, m, parent, language);
        }
    }
}

proof fn js_child_sound(
    child: SyntaxNode,
    src: Seq<u8>,
    acc: ParseView,
    parent: Option<usize>,
    language: SourceLanguage,
)
    requires
        js_family(language),
        well_formed(child, src.len()),
        consistent(acc, language),
        parent_ok(parent, acc),
    ensures
        js_child(child, src, acc, parent).symbols.len() <= usize::MAX ==> consistent(
            js_child(child, src, acc, parent),
            language,
        ),
    decreases child, 1int, 0int,
{
    lemma_parts_well_formed(child, src.len());
    let r = js_child(child, src, acc, parent);
    if child.kind@ == "function_declaration"@ {
        if let Some(name) = field_child(child, Field::Name) {
            let idx = acc.symbols.len() as usize;
            let sym = symbol_of(node_text(name, src), "function"@, child, parent, Some("function "@ + node_text(name, src)));
            let a1 = acc.push_symbol(sym);
            let a2 = js_calls(child, src, a1, idx);
            js_calls_scan_appends(child, 0, src, a1, idx);
            js_scan_appends(child, 0, src, a2, Some(idx));
            if r.symbols.len() <= usize::MAX {
                lemma_push_symbol(acc, sym, language);
                js_calls_scan_sound(child, 0, src, a1, idx, language);
                js_scan_sound(child, 0, src, a2, Some(idx), language);
            }
        }
    } else if child.kind@ == "class_declaration"@ {
        if let Some(name) = field_child(child, Field::Name) {
            let idx = acc.symbols.len() as usize;
            let sym = symbol_of(node_text(name, src), "class"@, child, parent, None);
            let a1 = acc.push_symbol(sym);
            js_scan_appends(child, 0, src, a1, Some(idx));
            if r.symbols.len() <= usize::MAX {
                lemma_push_symbol(acc, sym, language);
                js_scan_sound(child, 0, src, a1, Some(idx), language);
            }
        }
    } else if child.kind@ == "method_definition"@ {
        if let Some(name) = field_child(child, Field::Name) {
            let idx = acc.symbols.len() as usize;
            let sym = symbol_of(node_text(name, src), "method"@, child, parent, None);
            let a1 = acc.push_symbol(sym);
            js_calls_scan_appends(child, 0, src, a1, idx);
            if r.symbols.len() <= usize::MAX {
                lemma_push_symbol(acc, sym, language);
                js_calls_scan_sound(child, 0, src, a1, idx, language);
            }
        }
    } else if child.kind@ == "lexical_declaration"@ || child.kind@ == "variable_declaration"@ {
        js_arrows_sound(child, 0, src, acc, parent, language);
    } else if child.kind@ == "import_statement"@ {
        if let Some(source) = field_child(child, Field::Source) {
            lemma_push_import(
                acc,
                ImportView {
                    module: trim_quotes(node_text(source, src)),
                    names: joined_names(js_import_names(child, src, child.children@.len())),
                },
                language,
            );
        }
    } else {
        js_scan_sound(child, 0, src, acc, parent, language);
    }
}


/// Trees that differ only in where they lie give the same calls, on lines
/// moved as theirs are.
proof fn js_calls_scan_moved(
    a: SyntaxNode,
    b: SyntaxNode,
    i: nat,
    sa: Seq<u8>,
    sb: Seq<u8>,
    acc: ParseView,
    caller: usize,
    lines: int,
)
    requires
        moved(a, b, sa, sb, lines),
    ensures
        js_calls_scan(b, i, sb, shift_view(acc, lines), caller) == shift_view(
            js_calls_scan(a, i, sa, acc, caller),
            lines,
        ),
    decreases a, 0int, a.children@.len() - i,
{
    if i < a.children@.len() {
        let ca = a.children@[i as int];
        let cb = b.children@[i as int];
        assert(moved(ca, cb, sa, sb, lines));
        js_call_child_moved(ca, cb, sa, sb, acc, caller, lines);
        js_calls_scan_moved(a, b, i + 1, sa, sb, js_call_child(ca, sa, acc, caller), caller, lines);
    }
}

proof fn js_call_child_moved(
    a: SyntaxNode,
    b: SyntaxNode,
    sa: Seq<u8>,
    sb: Seq<u8>,
    acc: ParseView,
    caller: usize,
    lines: int,
)
    requires
        moved(a, b, sa, sb, lines),
    ensures
        js_call_child(b, sb, shift_view(acc, lines), caller) == shift_view(
            js_call_child(a, sa, acc, caller),
            lines,
        ),
    decreases a, 1int, 0int,
{
    lemma_moved_parts(a, b, sa, sb, lines);
    if a.kind@ == "call_expression"@ && field_child(a, Field::Function) is Some {
        let fa = field_child(a, Field::Function)->0;
        let fb = field_child(b, Field::Function)->0;
        lemma_moved_parts(fa, fb, sa, sb, lines);
        assert(js_callee(b, sb) == js_callee(a, sa));
        if let Some(name) = js_callee(a, sa) {
            let c = call_of(caller, name, a);
            lemma_shift_push_call(acc, c, lines);
            assert(call_of(caller, name, b) == shift_call(c, lines));
            js_calls_scan_moved(a, b, 0, sa, sb, acc.push_call(c), caller, lines);
        }
    } else {
        js_calls_scan_moved(a, b, 0, sa, sb, acc, caller, lines);
    }
}

proof fn js_specifier_names_moved(a: SyntaxNode, b: SyntaxNode, sa: Seq<u8>, sb: Seq<u8>, lines: int, k: nat)
    requires
        moved(a, b, sa, sb, lines),
    ensures
        js_specifier_names(b, sb, k) == js_specifier_names(a, sa, k),
    decreases k,
{
    if k > 0 && k <= a.children@.len() {
        js_specifier_names_moved(a, b, sa, sb, lines, (k - 1) as nat);
        let na = a.children@[k - 1];
        let nb = b.children@[k - 1];
        assert(moved(na, nb, sa, sb, lines));
        lemma_moved_parts(na, nb, sa, sb, lines);
        if field_child(na, Field::Name) is Some {
            lemma_moved_parts(field_child(na, Field::Name)->0, field_child(nb, Field::Name)->0, sa, sb, lines);
        }
    }
}

proof fn js_clause_names_moved(a: SyntaxNode, b: SyntaxNode, sa: Seq<u8>, sb: Seq<u8>, lines: int, k: nat)
    requires
        moved(a, b, sa, sb, lines),
    ensures
        js_clause_names(b, sb, k) == js_clause_names(a, sa, k),
    decreases k,
{
    if k > 0 && k <= a.children@.len() {
        js_clause_names_moved(a, b, sa, sb, lines, (k - 1) as nat);
        let ia = a.children@[k - 1];
        let ib = b.children@[k - 1];
        assert(moved(ia, ib, sa, sb, lines));
        lemma_moved_parts(ia, ib, sa, sb, lines);
        js_specifier_names_moved(ia, ib, sa, sb, lines, ia.children@.len());
    }
}

proof fn js_import_names_moved(a: SyntaxNode, b: SyntaxNode, sa: Seq<u8>, sb: Seq<u8>, lines: int, k: nat)
    requires
        moved(a, b, sa, sb, lines),
    ensures
        js_import_names(b, sb, k) == js_import_names(a, sa, k),
    decreases k,
{
    if k > 0 && k <= a.children@.len() {
        js_import_names_moved(a, b, sa, sb, lines, (k - 1) as nat);
        let ca = a.children@[k - 1];
        let cb = b.children@[k - 1];
        assert(moved(ca, cb, sa, sb, lines));
        lemma_moved_parts(ca, cb, sa, sb, lines);
        if field_child(ca, Field::Name) is Some {
            lemma_moved_parts(field_child(ca, Field::Name)->0, field_child(cb, Field::Name)->0, sa, sb, lines);
        }
        js_clause_names_moved(ca, cb, sa, sb, lines, ca.children@.len());
    }
}

proof fn js_arrows_moved(
    a: SyntaxNode,
    b: SyntaxNode,
    i: nat,
    sa: Seq<u8>,
    sb: Seq<u8>,
    acc: ParseView,
    parent: Option<usize>,
    lines: int,
)
    requires
        moved(a, b, sa, sb, lines),
    ensures
        js_arrows(b, i, sb, shift_view(acc, lines), parent) == shift_view(
            js_arrows(a, i, sa, acc, parent),
            lines,
        ),
    decreases a.children@.len() - i,
{
    if i < a.children@.len() {
        lemma_moved_parts(a, b, sa, sb, lines);
        let da = a.children@[i as int];
        let db = b.children@[i as int];
        assert(moved(da, db, sa, sb, lines));
        lemma_moved_parts(da, db, sa, sb, lines);
        let next = if js_is_function_binding(da) {
            let na = field_child(da, Field::Name)->0;
            let va = field_child(da, Field::Value)->0;
            let vb = field_child(db, Field::Value)->0;
            lemma_moved_parts(na, field_child(db, Field::Name)->0, sa, sb, lines);
            lemma_moved_parts(va, vb, sa, sb, lines);
            let name = node_text(na, sa);
            let idx = acc.symbols.len() as usize;
            let sym = symbol_of(name, "function"@, a, parent, Some("const "@ + name));
            lemma_shift_push_symbol(acc, sym, lines);
            assert(symbol_of(name, "function"@, b, parent, Some("const "@ + name)) == shift_symbol(sym, lines));
            js_calls_scan_moved(va, vb, 0, sa, sb, acc.push_symbol(sym), idx, lines);
            js_calls(va, sa, acc.push_symbol(sym), idx)
        } else {
            acc
        };
        js_arrows_moved(a, b, i + 1, sa, sb, next, parent, lines);
    }
}

/// Extraction depends on where a tree lies only through line numbers: trees
/// that differ only in that give results that differ only in their lines.
pub proof fn js_scan_moved(
    a: SyntaxNode,
    b: SyntaxNode,
    i: nat,
    sa: Seq<u8>,
    sb: Seq<u8>,
    acc: ParseView,
    parent: Option<usize>,
    lines: int,
)
    requires
        moved(a, b, sa, sb, lines),
    ensures
        js_scan(b, i, sb, shift_view(acc, lines), parent) == shift_view(
            js_scan(a, i, sa, acc, parent),
            lines,
        ),
    decreases a, 0int, a.children@.len() - i,
{
    if i < a.children@.len() {
        let ca = a.children@[i as int];
        let cb = b.children@[i as int];
        assert(moved(ca, cb, sa, sb, lines));
        js_child_moved(ca, cb, sa, sb, acc, parent, lines);
        js_scan_moved(a, b, i + 1, sa, sb, js_child(ca, sa, acc, parent), parent, lines);
    }
}

proof fn js_child_moved(
    a: SyntaxNode,
    b: SyntaxNode,
    sa: Seq<u8>,
    sb: Seq<u8>,
    acc: ParseView,
    parent: Option<usize>,
    lines: int,
)
    requires
        moved(a, b, sa, sb, lines),
    ensures
        js_child(b, sb, shift_view(acc, lines), parent) == shift_view(js_child(a, sa, acc, parent), lines),
    decreases a, 1int, 0int,
{
    lemma_moved_parts(a, b, sa, sb, lines);
    if a.kind@ == "function_declaration"@ {
        if let Some(name) = field_child(a, Field::Name) {
            lemma_moved_parts(name, field_child(b, Field::Name)->0, sa, sb, lines);
            let idx = acc.symbols.len() as usize;
            let text = node_text(name, sa);
            let sym = symbol_of(text, "function"@, a, parent, Some("function "@ + text));
            let a1 = acc.push_symbol(sym);
            lemma_shift_push_symbol(acc, sym, lines);
            assert(symbol_of(text, "function"@, b, parent, Some("function "@ + text)) == shift_symbol(sym, lines));
            js_calls_scan_moved(a, b, 0, sa, sb, a1, idx, lines);
            js_scan_moved(a, b, 0, sa, sb, js_calls(a, sa, a1, idx), Some(idx), lines);
        }
    } else if a.kind@ == "class_declaration"@ {
        if let Some(name) = field_child(a, Field::Name) {
            lemma_moved_parts(name, field_child(b, Field::Name)->0, sa, sb, lines);
            let idx = acc.symbols.len() as usize;
            let sym = symbol_of(node_text(name, sa), "class"@, a, parent, None);
            lemma_shift_push_symbol(acc, sym, lines);
            assert(symbol_of(node_text(name, sa), "class"@, b, parent, None) == shift_symbol(sym, lines));
            js_scan_moved(a, b, 0, sa, sb, acc.push_symbol(sym), Some(idx), lines);
        }
    } else if a.kind@ == "method_definition"@ {
        if let Some(name) = field_child(a, Field::Name) {
            lemma_moved_parts(name, field_child(b, Field::Name)->0, sa, sb, lines);
            let idx = acc.symbols.len() as usize;
            let sym = symbol_of(node_text(name, sa), "method"@, a, parent, None);
            lemma_shift_push_symbol(acc, sym, lines);
            assert(symbol_of(node_text(name, sa), "method"@, b, parent, None) == shift_symbol(sym, lines));
            js_calls_scan_moved(a, b, 0, sa, sb, acc.push_symbol(sym), idx, lines);
        }
    } else if a.kind@ == "lexical_declaration"@ || a.kind@ == "variable_declaration"@ {
        js_arrows_moved(a, b, 0, sa, sb, acc, parent, lines);
    } else if a.kind@ == "import_statement"@ {
        if let Some(source) = field_child(a, Field::Source) {
            lemma_moved_parts(source, field_child(b, Field::Source)->0, sa, sb, lines);
            js_import_names_moved(a, b, sa, sb, lines, a.children@.len());
            lemma_shift_push_import(
                acc,
                ImportView {
                    module: trim_quotes(node_text(source, sa)),
                    names: joined_names(js_import_names(a, sa, a.children@.len())),
                },
                lines,
            );
        }
    } else {
        js_scan_moved(a, b, 0, sa, sb, acc, parent, lines);
    }
}

/// Nodes that definition extraction passes into, reading what lies below them
/// with the parent it was given: all but definitions, declarations and imports.
pub open spec fn js_scan_passes(x: SyntaxNode) -> bool {
    !(x.kind@ == "function_declaration"@ || x.kind@ == "class_declaration"@ || x.kind@
        == "method_definition"@ || x.kind@ == "lexical_declaration"@ || x.kind@ == "variable_declaration"@
        || x.kind@ == "import_statement"@)
}

pub open spec fn js_scan_through() -> spec_fn(SyntaxNode) -> bool {
    |x: SyntaxNode| js_scan_passes(x)
}

/// A call expression whose callee is an identifier, or a member expression
/// with a property.
pub open spec fn js_named_call(x: SyntaxNode) -> bool {
    &&& x.kind@ == "call_expression"@
    &&& field_child(x, Field::Function) matches Some(f) && (f.kind@ == "identifier"@ || (f.kind@
        == "member_expression"@ && field_child(f, Field::Property) is Some))
}

/// The name a named call calls: the identifier, or the member's property.
pub open spec fn js_called_name(x: SyntaxNode, src: Seq<u8>) -> Seq<char> {
    let f = field_child(x, Field::Function)->0;
    if f.kind@ == "identifier"@ {
        node_text(f, src)
    } else {
        node_text(field_child(f, Field::Property)->0, src)
    }
}

/// Nodes that call extraction passes into: all but call expressions with a
/// callee that has no name.
pub open spec fn js_call_through() -> spec_fn(SyntaxNode) -> bool {
    |x: SyntaxNode|
        !(x.kind@ == "call_expression"@ && field_child(x, Field::Function) is Some && !js_named_call(x))
}

/// The scan of `node` reaches its child `i` with a result that extends the
/// one it started from.
proof fn js_scan_split(node: SyntaxNode, i: nat, src: Seq<u8>, acc: ParseView, parent: Option<usize>) -> (a:
    ParseView)
    requires
        i < node.children@.len(),
    ensures
        extends(acc, a),
        js_scan(node, 0, src, acc, parent) == js_scan(
            node,
            i + 1,
            src,
            js_child(node.children@[i as int], src, a, parent),
            parent,
        ),
    decreases i,
{
    if i == 0 {
        assert(extends(acc, acc));
        acc
    } else {
        let a0 = js_scan_split(node, (i - 1) as nat, src, acc, parent);
        let a1 = js_child(node.children@[i - 1], src, a0, parent);
        js_child_appends(node.children@[i - 1], src, a0, parent);
        lemma_extends_chain(acc, a0, a1, 0, parent);
        a1
    }
}

/// A node reached below `node` through nodes the scan passes into is read
/// with the same parent, and what reading it gives is kept in the result.
proof fn js_scan_reaches(node: SyntaxNode, src: Seq<u8>, acc: ParseView, parent: Option<usize>, d: SyntaxNode) -> (a:
    ParseView)
    requires
        reaches(node, d, js_scan_through()),
    ensures
        extends(acc, a),
        extends(js_child(d, src, a, parent), js_scan(node, 0, src, acc, parent)),
    decreases node,
{
    let i = choose|i: int|
        0 <= i < node.children@.len() && (#[trigger] node.children@[i] == d || (js_scan_through()(
            node.children@[i],
        ) && reaches(node.children@[i], d, js_scan_through())));
    let c = node.children@[i];
    let a0 = js_scan_split(node, i as nat, src, acc, parent);
    let m = js_child(c, src, a0, parent);
    let r = js_scan(node, i as nat + 1, src, m, parent);
    js_scan_appends(node, i as nat + 1, src, m, parent);
    if c == d {
        a0
    } else {
        assert(js_scan_passes(c));
        assert(m == js_scan(c, 0, src, a0, parent));
        let a = js_scan_reaches(c, src, a0, parent, d);
        lemma_extends_chain(acc, a0, a, 0, parent);
        lemma_extends_chain(js_child(d, src, a, parent), m, r, 0, parent);
        a
    }
}

/// The definition kinds are told apart.
proof fn js_definition_kinds_differ()
    ensures
        "method_definition"@ != "function_declaration"@,
        "method_definition"@ != "class_declaration"@,
        "class_declaration"@ != "function_declaration"@,
{
    reveal_strlit("function_declaration");
    reveal_strlit("class_declaration");
    reveal_strlit("method_definition");
    assert("method_definition"@.len() != "function_declaration"@.len());
    assert("method_definition"@[0] != "class_declaration"@[0]);
    assert("class_declaration"@.len() != "function_declaration"@.len());
}

/// Reading a named definition first adds its own symbol.
proof fn js_child_defines(d: SyntaxNode, src: Seq<u8>, acc: ParseView, parent: Option<usize>)
    requires
        d.kind@ == "function_declaration"@ || d.kind@ == "class_declaration"@ || d.kind@
            == "method_definition"@,
        field_child(d, Field::Name) is Some,
    ensures
        js_child(d, src, acc, parent).symbols.len() > acc.symbols.len(),
        js_child(d, src, acc, parent).symbols[acc.symbols.len() as int].name == node_text(
            field_child(d, Field::Name)->0,
            src,
        ),
        js_child(d, src, acc, parent).symbols[acc.symbols.len() as int].parent_index == parent,
        js_child(d, src, acc, parent).symbols[acc.symbols.len() as int].line_start == start_line(d),
        d.kind@ == "method_definition"@ ==> js_child(d, src, acc, parent).symbols[acc.symbols.len() as int].kind
            == "method"@,
        d.kind@ == "function_declaration"@ ==> js_child(d, src, acc, parent).symbols[acc.symbols.len() as int].kind
            == "function"@,
        d.kind@ == "class_declaration"@ ==> js_child(d, src, acc, parent).symbols[acc.symbols.len() as int].kind
            == "class"@,
{
    js_definition_kinds_differ();
    let name = field_child(d, Field::Name)->0;
    let idx = acc.symbols.len() as usize;
    let r = js_child(d, src, acc, parent);
    if d.kind@ == "function_declaration"@ {
        let sym = symbol_of(node_text(name, src), "function"@, d, parent, Some("function "@ + node_text(name, src)));
        let a1 = acc.push_symbol(sym);
        let a2 = js_calls(d, src, a1, idx);
        js_calls_scan_appends(d, 0, src, a1, idx);
        js_scan_appends(d, 0, src, a2, Some(idx));
        assert(r.symbols[acc.symbols.len() as int] == a2.symbols[acc.symbols.len() as int]);
    } else if d.kind@ == "class_declaration"@ {
        let sym = symbol_of(node_text(name, src), "class"@, d, parent, None);
        let a1 = acc.push_symbol(sym);
        js_scan_appends(d, 0, src, a1, Some(idx));
        assert(r.symbols[acc.symbols.len() as int] == a1.symbols[acc.symbols.len() as int]);
    } else {
        let sym = symbol_of(node_text(name, src), "method"@, d, parent, None);
        let a1 = acc.push_symbol(sym);
        js_calls_scan_appends(d, 0, src, a1, idx);
    }
}

/// Every method, function or class defined inside a class or a function
/// declaration (below it through nodes that are not themselves definitions,
/// declarations or imports) is listed after the enclosing symbol, with that
/// symbol as its parent; the enclosing symbol keeps the parent it was given.
pub proof fn js_definitions_hang_below_their_container(
    c: SyntaxNode,
    src: Seq<u8>,
    acc: ParseView,
    parent: Option<usize>,
    d: SyntaxNode,
)
    requires
        c.kind@ == "class_declaration"@ || c.kind@ == "function_declaration"@,
        field_child(c, Field::Name) is Some,
        acc.symbols.len() < usize::MAX,
        reaches(c, d, js_scan_through()),
        d.kind@ == "function_declaration"@ || d.kind@ == "class_declaration"@ || d.kind@
            == "method_definition"@,
        field_child(d, Field::Name) is Some,
    ensures
        ({
            let r = js_child(c, src, acc, parent);
            &&& r.symbols[acc.symbols.len() as int].name == node_text(field_child(c, Field::Name)->0, src)
            &&& r.symbols[acc.symbols.len() as int].parent_index == parent
            &&& exists|k: int|
                acc.symbols.len() < k < r.symbols.len() && r.symbols[k].name == node_text(
                    field_child(d, Field::Name)->0,
                    src,
                ) && r.symbols[k].parent_index == Some(acc.symbols.len() as usize)
                    && r.symbols[k].line_start == start_line(d) && (d.kind@ == "method_definition"@
                    ==> r.symbols[k].kind == "method"@)
        }),
{
    js_definition_kinds_differ();
    let name = field_child(c, Field::Name)->0;
    let idx = acc.symbols.len() as usize;
    let r = js_child(c, src, acc, parent);
    js_child_defines(c, src, acc, parent);
    let inner = if c.kind@ == "function_declaration"@ {
        let sym = symbol_of(node_text(name, src), "function"@, c, parent, Some("function "@ + node_text(name, src)));
        let a1 = acc.push_symbol(sym);
        js_calls_scan_appends(c, 0, src, a1, idx);
        js_calls(c, src, a1, idx)
    } else {
        let sym = symbol_of(node_text(name, src), "class"@, c, parent, None);
        acc.push_symbol(sym)
    };
    assert(inner.symbols.len() == acc.symbols.len() + 1);
    assert(r == js_scan(c, 0, src, inner, Some(idx)));
    let a = js_scan_reaches(c, src, inner, Some(idx), d);
    js_child_defines(d, src, a, Some(idx));
    let k = a.symbols.len() as int;
    assert(r.symbols[k] == js_child(d, src, a, Some(idx)).symbols[k]);
}

/// The call scan of `node` reaches its child `i` with a result that has the
/// calls it started with and more of `caller`.
proof fn js_calls_scan_split(node: SyntaxNode, i: nat, src: Seq<u8>, acc: ParseView, caller: usize) -> (a:
    ParseView)
    requires
        i < node.children@.len(),
    ensures
        calls_appended(acc, a, caller),
        js_calls_scan(node, 0, src, acc, caller) == js_calls_scan(
            node,
            i + 1,
            src,
            js_call_child(node.children@[i as int], src, a, caller),
            caller,
        ),
    decreases i,
{
    if i == 0 {
        acc
    } else {
        let a0 = js_calls_scan_split(node, (i - 1) as nat, src, acc, caller);
        let a1 = js_call_child(node.children@[i - 1], src, a0, caller);
        js_call_child_appends(node.children@[i - 1], src, a0, caller);
        lemma_calls_appended_chain(acc, a0, a1, caller);
        a1
    }
}

/// A call reached below `node` through nodes call extraction passes into is
/// read, and what reading it gives is kept.
proof fn js_calls_reaches(node: SyntaxNode, src: Seq<u8>, acc: ParseView, caller: usize, d: SyntaxNode) -> (a:
    ParseView)
    requires
        reaches(node, d, js_call_through()),
    ensures
        calls_appended(acc, a, caller),
        calls_appended(js_call_child(d, src, a, caller), js_calls_scan(node, 0, src, acc, caller), caller),
    decreases node,
{
    let i = choose|i: int|
        0 <= i < node.children@.len() && (#[trigger] node.children@[i] == d || (js_call_through()(
            node.children@[i],
        ) && reaches(node.children@[i], d, js_call_through())));
    let c = node.children@[i];
    let a0 = js_calls_scan_split(node, i as nat, src, acc, caller);
    let m = js_call_child(c, src, a0, caller);
    let r = js_calls_scan(node, i as nat + 1, src, m, caller);
    js_calls_scan_appends(node, i as nat + 1, src, m, caller);
    if c == d {
        a0
    } else {
        let start = if c.kind@ == "call_expression"@ && field_child(c, Field::Function) is Some {
            let c1 = a0.push_call(call_of(caller, js_callee(c, src)->0, c));
            c1
        } else {
            a0
        };
        assert(m == js_calls_scan(c, 0, src, start, caller));
        assert(calls_appended(a0, start, caller));
        let a = js_calls_reaches(c, src, start, caller, d);
        lemma_calls_appended_chain(a0, start, a, caller);
        lemma_calls_appended_chain(acc, a0, a, caller);
        lemma_calls_appended_chain(js_call_child(d, src, a, caller), m, r, caller);
        a
    }
}

/// Every named call below `node`, reached through nodes that are not calls
/// with an unnamed callee (so inside another call's arguments or callee
/// too), is appended, attributed to `caller`, with its callee's name and
/// its line.
pub proof fn js_calls_find_every_named_call(node: SyntaxNode, src: Seq<u8>, acc: ParseView, caller: usize, d: SyntaxNode)
    requires
        reaches(node, d, js_call_through()),
        js_named_call(d),
    ensures
        exists|k: int|
            acc.calls.len() <= k < js_calls_scan(node, 0, src, acc, caller).calls.len() && js_calls_scan(
                node,
                0,
                src,
                acc,
                caller,
            ).calls[k] == (CallView { caller_index: caller, callee_name: js_called_name(d, src), line: start_line(d) }),
{
    let a = js_calls_reaches(node, src, acc, caller, d);
    let c = call_of(caller, js_callee(d, src)->0, d);
    let a1 = a.push_call(c);
    js_calls_scan_appends(d, 0, src, a1, caller);
    let k = a.calls.len() as int;
    assert(js_calls_scan(node, 0, src, acc, caller).calls[k] == a1.calls[k]);
}

/// Every named call inside a function declaration or a method is attributed
/// to that function or method.
pub proof fn js_calls_belong_to_their_function(
    c: SyntaxNode,
    src: Seq<u8>,
    acc: ParseView,
    parent: Option<usize>,
    d: SyntaxNode,
)
    requires
        c.kind@ == "function_declaration"@ || c.kind@ == "method_definition"@,
        field_child(c, Field::Name) is Some,
        reaches(c, d, js_call_through()),
        js_named_call(d),
    ensures
        exists|k: int|
            acc.calls.len() <= k < js_child(c, src, acc, parent).calls.len() && js_child(c, src, acc, parent).calls[k]
                == (CallView {
                caller_index: acc.symbols.len() as usize,
                callee_name: js_called_name(d, src),
                line: start_line(d),
            }),
{
    js_definition_kinds_differ();
    let name = field_child(c, Field::Name)->0;
    let idx = acc.symbols.len() as usize;
    let r = js_child(c, src, acc, parent);
    let kind = if c.kind@ == "function_declaration"@ {
        "function"@
    } else {
        "method"@
    };
    let sig = if c.kind@ == "function_declaration"@ {
        Some("function "@ + node_text(name, src))
    } else {
        None
    };
    let a1 = acc.push_symbol(symbol_of(node_text(name, src), kind, c, parent, sig));
    let a2 = js_calls(c, src, a1, idx);
    js_calls_find_every_named_call(c, src, a1, idx, d);
    if c.kind@ == "function_declaration"@ {
        js_scan_appends(c, 0, src, a2, Some(idx));
        let k = choose|k: int|
            a1.calls.len() <= k < a2.calls.len() && a2.calls[k] == (CallView {
                caller_index: idx,
                callee_name: js_called_name(d, src),
                line: start_line(d),
            });
        assert(r.calls[k] == a2.calls[k]);
    }
}

/// Every function, class or method definition reached below `node` through
/// nodes the scan passes into is listed after what `acc` held, with the
/// parent the scan was given.
pub proof fn js_scan_lists_reached_definitions(
    node: SyntaxNode,
    src: Seq<u8>,
    acc: ParseView,
    parent: Option<usize>,
    d: SyntaxNode,
)
    requires
        reaches(node, d, js_scan_through()),
        d.kind@ == "function_declaration"@ || d.kind@ == "class_declaration"@ || d.kind@
            == "method_definition"@,
        field_child(d, Field::Name) is Some,
    ensures
        ({
            let r = js_scan(node, 0, src, acc, parent);
            exists|k: int|
                acc.symbols.len() <= k < r.symbols.len() && r.symbols[k].name == node_text(
                    field_child(d, Field::Name)->0,
                    src,
                ) && r.symbols[k].parent_index == parent && r.symbols[k].line_start == start_line(d)
                    && (d.kind@ == "method_definition"@ ==> r.symbols[k].kind == "method"@) && (d.kind@
                    == "function_declaration"@ ==> r.symbols[k].kind == "function"@) && (d.kind@
                    == "class_declaration"@ ==> r.symbols[k].kind == "class"@)
        }),
{
    let a = js_scan_reaches(node, src, acc, parent, d);
    js_child_defines(d, src, a, parent);
    let k = a.symbols.len() as int;
    assert(js_scan(node, 0, src, acc, parent).symbols[k] == js_child(d, src, a, parent).symbols[k]);
}

/// The functions of a declaration are read declarator by declarator, each
/// from a result that extends the one the declaration started from.
proof fn js_arrows_split(decl: SyntaxNode, i: nat, src: Seq<u8>, acc: ParseView, parent: Option<usize>) -> (a:
    ParseView)
    requires
        i <= decl.children@.len(),
    ensures
        extends(acc, a),
        js_arrows(decl, 0, src, acc, parent) == js_arrows(decl, i, src, a, parent),
    decreases i,
{
    if i == 0 {
        acc
    } else {
        let a0 = js_arrows_split(decl, (i - 1) as nat, src, acc, parent);
        let d = decl.children@[i - 1];
        let next = if js_is_function_binding(d) {
            let name = node_text(field_child(d, Field::Name)->0, src);
            let idx = a0.symbols.len() as usize;
            let sym = symbol_of(name, "function"@, decl, parent, Some("const "@ + name));
            let value = field_child(d, Field::Value)->0;
            lemma_push_symbol_appends(a0, sym);
            js_calls_scan_appends(value, 0, src, a0.push_symbol(sym), idx);
            lemma_calls_appended_fresh(a0.push_symbol(sym), js_calls(value, src, a0.push_symbol(sym), idx), idx, 0, parent);
            lemma_extends_chain(a0, a0.push_symbol(sym), js_calls(value, src, a0.push_symbol(sym), idx), 0, parent);
            js_calls(value, src, a0.push_symbol(sym), idx)
        } else {
            a0
        };
        lemma_extends_chain(acc, a0, next, 0, parent);
        next
    }
}

/// In a `const`, `let` or `var` declaration, every declarator that binds a
/// name to an arrow function or a function expression is listed as a
/// function of that name, with the declaration's parent and starting line,
/// and every named call inside the bound function is attributed to it.
pub proof fn js_declared_functions_are_listed(
    decl: SyntaxNode,
    src: Seq<u8>,
    acc: ParseView,
    parent: Option<usize>,
    i: int,
    call: SyntaxNode,
)
    requires
        decl.kind@ == "lexical_declaration"@ || decl.kind@ == "variable_declaration"@,
        0 <= i < decl.children@.len(),
        decl.children@[i].kind@ == "variable_declarator"@,
        field_child(decl.children@[i], Field::Name) is Some,
        field_child(decl.children@[i], Field::Value) matches Some(v) && (v.kind@ == "arrow_function"@
            || v.kind@ == "function"@),
    ensures
        ({
            let r = js_child(decl, src, acc, parent);
            let name = node_text(field_child(decl.children@[i], Field::Name)->0, src);
            exists|k: int|
                acc.symbols.len() <= k < r.symbols.len() && r.symbols[k].name == name && r.symbols[k].kind
                    == "function"@ && r.symbols[k].parent_index == parent && r.symbols[k].line_start
                    == start_line(decl) && (reaches(field_child(decl.children@[i], Field::Value)->0, call, js_call_through())
                    && js_named_call(call) ==> exists|j: int|
                    0 <= j < r.calls.len() && r.calls[j] == (CallView {
                        caller_index: k as usize,
                        callee_name: js_called_name(call, src),
                        line: start_line(call),
                    }))
        }),
{
    js_definition_kinds_differ();
    reveal_strlit("lexical_declaration");
    reveal_strlit("variable_declaration");
    reveal_strlit("function_declaration");
    reveal_strlit("class_declaration");
    reveal_strlit("method_definition");
    assert(decl.kind@ != "function_declaration"@ && decl.kind@ != "class_declaration"@ && decl.kind@
        != "method_definition"@) by {
        assert("lexical_declaration"@[0] != "function_declaration"@[0]);
        assert("lexical_declaration"@[0] != "class_declaration"@[0]);
        assert("lexical_declaration"@[0] != "method_definition"@[0]);
        assert("variable_declaration"@[0] != "function_declaration"@[0]);
        assert("variable_declaration"@[0] != "class_declaration"@[0]);
        assert("variable_declaration"@[0] != "method_definition"@[0]);
    }
    let r = js_child(decl, src, acc, parent);
    assert(r == js_arrows(decl, 0, src, acc, parent));
    let a = js_arrows_split(decl, i as nat, src, acc, parent);
    let d = decl.children@[i];
    assert(js_is_function_binding(d));
    let name = node_text(field_child(d, Field::Name)->0, src);
    let idx = a.symbols.len() as usize;
    let sym = symbol_of(name, "function"@, decl, parent, Some("const "@ + name));
    let a1 = a.push_symbol(sym);
    let value = field_child(d, Field::Value)->0;
    let next = js_calls(value, src, a1, idx);
    js_calls_scan_appends(value, 0, src, a1, idx);
    js_arrows_appends(decl, i as nat + 1, src, next, parent);
    let k = a.symbols.len() as int;
    assert(r.symbols[k] == next.symbols[k]);
    if reaches(value, call, js_call_through()) && js_named_call(call) {
        js_calls_find_every_named_call(value, src, a1, idx, call);
        let j = choose|j: int|
            a1.calls.len() <= j < next.calls.len() && next.calls[j] == (CallView {
                caller_index: idx,
                callee_name: js_called_name(call, src),
                line: start_line(call),
            });
        assert(r.calls[j] == next.calls[j]);
    }
}

} // verus!
