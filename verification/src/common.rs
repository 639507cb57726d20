use vstd::prelude::*;
use vstd::string::*;
use crate::model::{Symbol, Call, SymbolView, CallView, opt_string_view};
use crate::syntax::{SyntaxNode, start_line, end_line};

verus! {

/// The symbol that a definition node yields.
pub open spec fn symbol_of(
    name: Seq<char>,
    kind: Seq<char>,
    node: SyntaxNode,
    parent: Option<usize>,
    signature: Option<Seq<char>>,
) -> SymbolView {
    SymbolView {
        name,
        kind,
        line_start: start_line(node),
        line_end: end_line(node),
        parent_index: parent,
        signature,
    }
}

/// The call that a call-site node yields.
pub open spec fn call_of(caller: usize, callee: Seq<char>, node: SyntaxNode) -> CallView {
    CallView { caller_index: caller, callee_name: callee, line: start_line(node) }
}

/// The rows of `node` lie within the lines of symbol `s`.
pub open spec fn spans_within(node: SyntaxNode, s: SymbolView) -> bool {
    s.line_start <= start_line(node) && end_line(node) <= s.line_end
}

/// `None` for no names, else the names joined with `", "`.
pub open spec fn joined_names(names: Seq<Seq<char>>) -> Option<Seq<char>> {
    if names.len() == 0 {
        None
    } else {
        Some(crate::text::join(names, ", "@))
    }
}

pub fn new_symbol(
    name: &str,
    kind: &str,
    node: &SyntaxNode,
    parent: Option<usize>,
    signature: Option<String>,
) -> (s: Symbol)
    requires
        node.start_row < usize::MAX,
        node.end_row < usize::MAX,
    ensures
        s@ == symbol_of(name@, kind@, *node, parent, opt_string_view(signature)),
{
    Symbol {
        name: String::from_str(name),
        kind: String::from_str(kind),
        line_start: node.start_line(),
        line_end: node.end_line(),
        parent_index: parent,
        signature,
    }
}

pub fn new_call(caller: usize, callee: &str, node: &SyntaxNode) -> (c: Call)
    requires
        node.start_row < usize::MAX,
    ensures
        c@ == call_of(caller, callee@, *node),
{
    Call { caller_index: caller, callee_name: String::from_str(callee), line: node.start_line() }
}

/// The import names of a statement: `None` when there are none, else joined with `", "`.
pub fn joined_names_of(names: &Vec<String>) -> (r: Option<String>)
    ensures
        opt_string_view(r) == joined_names(names@.map_values(|p: String| p@)),
{
    if names.len() == 0 {
        None
    } else {
        Some(crate::text::join_strings(names, ", "))
    }
}

} // verus!
