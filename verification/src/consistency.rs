//! What every extraction result satisfies (calls name existing functions,
//! methods or constructors and lie within their lines, parents come before
//! their children, lines are one-based, symbol kinds come from the language's
//! fixed vocabulary, symbols are listed in source order), and how a result
//! before an extraction step relates to the one after it.
use vstd::prelude::*;
use crate::language::SourceLanguage;
use crate::model::{ParseView, SymbolView, CallView};

verus! {

/// The symbol kinds that extraction in `language` produces.
pub open spec fn allowed_kind(language: SourceLanguage, kind: Seq<char>) -> bool {
    match language {
        SourceLanguage::Python => kind == "function"@ || kind == "method"@ || kind == "class"@,
        SourceLanguage::JavaScript | SourceLanguage::TypeScript | SourceLanguage::Tsx => kind
            == "function"@ || kind == "method"@ || kind == "class"@,
        SourceLanguage::Rust => kind == "function"@ || kind == "method"@ || kind == "struct"@
            || kind == "enum"@ || kind == "trait"@,
        SourceLanguage::CSharp => kind == "function"@ || kind == "method"@ || kind == "class"@
            || kind == "interface"@ || kind == "struct"@ || kind == "enum"@ || kind
            == "constructor"@,
    }
}

/// In Python, Rust and C#, a function defined inside another symbol is a
/// method and one defined at top level is a function.
pub open spec fn method_iff_nested(language: SourceLanguage, s: SymbolView) -> bool {
    match language {
        SourceLanguage::Python | SourceLanguage::Rust | SourceLanguage::CSharp => {
            &&& s.kind == "method"@ ==> s.parent_index is Some
            &&& s.kind == "function"@ ==> s.parent_index is None
        },
        _ => true,
    }
}

/// Symbol `i` of `symbols` is sound: its parent comes before it, its lines are
/// one-based and it ends on or after the line it starts on, and its kind is
/// one `language` produces.
pub open spec fn symbol_ok(symbols: Seq<SymbolView>, i: int, language: SourceLanguage) -> bool {
    &&& symbols[i].parent_index matches Some(p) ==> p < i
    &&& symbols[i].line_start >= 1
    &&& symbols[i].line_start <= symbols[i].line_end
    &&& allowed_kind(language, symbols[i].kind)
    &&& method_iff_nested(language, symbols[i])
}

/// The kinds of symbol that have a body in which calls are found.
pub open spec fn callable_kind(kind: Seq<char>) -> bool {
    kind == "function"@ || kind == "method"@ || kind == "constructor"@
}

/// `caller` is the index of a function, method or constructor of `symbols`.
pub open spec fn can_call(symbols: Seq<SymbolView>, caller: usize) -> bool {
    caller < symbols.len() && callable_kind(symbols[caller as int].kind)
}

/// A call is sound: its caller is an existing function, method or
/// constructor, and its line lies within the caller's lines.
pub open spec fn call_ok(c: CallView, symbols: Seq<SymbolView>) -> bool {
    &&& can_call(symbols, c.caller_index)
    &&& symbols[c.caller_index as int].line_start <= c.line <= symbols[c.caller_index as int].line_end
}

/// Every symbol and call of `v` is sound.
pub open spec fn consistent(v: ParseView, language: SourceLanguage) -> bool {
    &&& forall|i: int| 0 <= i < v.symbols.len() ==> #[trigger] symbol_ok(v.symbols, i, language)
    &&& forall|i: int| 0 <= i < v.calls.len() ==> call_ok(#[trigger] v.calls[i], v.symbols)
}

/// A parent index that refers to a symbol of `v`.
pub open spec fn parent_ok(parent: Option<usize>, v: ParseView) -> bool {
    parent matches Some(p) ==> p < v.symbols.len()
}

/// The kind names differ from "method" and "function" and from each other there.
pub proof fn lemma_kind_names_differ()
    ensures
        "method"@ != "function"@,
        "class"@ != "method"@,
        "class"@ != "function"@,
        "struct"@ != "method"@,
        "struct"@ != "function"@,
        "enum"@ != "method"@,
        "enum"@ != "function"@,
        "trait"@ != "method"@,
        "trait"@ != "function"@,
        "interface"@ != "method"@,
        "interface"@ != "function"@,
        "constructor"@ != "method"@,
        "constructor"@ != "function"@,
{
    reveal_strlit("method");
    reveal_strlit("function");
    reveal_strlit("class");
    reveal_strlit("struct");
    reveal_strlit("enum");
    reveal_strlit("trait");
    reveal_strlit("interface");
    reveal_strlit("constructor");
    assert("method"@.len() != "function"@.len() || "method"@[0] != "function"@[0]);
    assert("class"@.len() != "method"@.len() || "class"@[0] != "method"@[0]);
    assert("class"@.len() != "function"@.len() || "class"@[0] != "function"@[0]);
    assert("struct"@.len() != "method"@.len() || "struct"@[0] != "method"@[0]);
    assert("struct"@.len() != "function"@.len() || "struct"@[0] != "function"@[0]);
    assert("enum"@.len() != "method"@.len() || "enum"@[0] != "method"@[0]);
    assert("enum"@.len() != "function"@.len() || "enum"@[0] != "function"@[0]);
    assert("trait"@.len() != "method"@.len() || "trait"@[0] != "method"@[0]);
    assert("trait"@.len() != "function"@.len() || "trait"@[0] != "function"@[0]);
    assert("interface"@.len() != "method"@.len() || "interface"@[0] != "method"@[0]);
    assert("interface"@.len() != "function"@.len() || "interface"@[0] != "function"@[0]);
    assert("constructor"@.len() != "method"@.len() || "constructor"@[0] != "method"@[0]);
    assert("constructor"@.len() != "function"@.len() || "constructor"@[0] != "function"@[0]);
}

/// Adding a sound symbol keeps a result consistent.
pub proof fn lemma_push_symbol(v: ParseView, s: SymbolView, language: SourceLanguage)
    requires
        consistent(v, language),
        s.parent_index matches Some(p) ==> p < v.symbols.len(),
        s.line_start >= 1,
        s.line_start <= s.line_end,
        allowed_kind(language, s.kind),
        method_iff_nested(language, s),
    ensures
        consistent(v.push_symbol(s), language),
{
    let w = v.push_symbol(s);
    assert forall|i: int| 0 <= i < w.symbols.len() implies #[trigger] symbol_ok(
        w.symbols,
        i,
        language,
    ) by {
        if i < v.symbols.len() {
            assert(symbol_ok(v.symbols, i, language));
            assert(w.symbols[i] == v.symbols[i]);
        }
    }
    assert forall|i: int| 0 <= i < w.calls.len() implies call_ok(#[trigger] w.calls[i], w.symbols) by {
        assert(call_ok(v.calls[i], v.symbols));
        assert(w.symbols[w.calls[i].caller_index as int] == v.symbols[w.calls[i].caller_index as int]);
    }
}

/// Adding a sound call keeps a result consistent.
pub proof fn lemma_push_call(v: ParseView, c: CallView, language: SourceLanguage)
    requires
        consistent(v, language),
        call_ok(c, v.symbols),
    ensures
        consistent(v.push_call(c), language),
{
    let w = v.push_call(c);
    assert forall|i: int| 0 <= i < w.symbols.len() implies #[trigger] symbol_ok(
        w.symbols,
        i,
        language,
    ) by {
        assert(symbol_ok(v.symbols, i, language));
    }
    assert forall|i: int| 0 <= i < w.calls.len() implies call_ok(#[trigger] w.calls[i], w.symbols) by {
        if i < v.calls.len() {
            assert(call_ok(v.calls[i], v.symbols));
        }
    }
}

/// Adding an import keeps a result consistent.
pub proof fn lemma_push_import(v: ParseView, i: crate::model::ImportView, language: SourceLanguage)
    requires
        consistent(v, language),
    ensures
        consistent(v.push_import(i), language),
{
    let w = v.push_import(i);
    assert forall|k: int| 0 <= k < w.symbols.len() implies #[trigger] symbol_ok(
        w.symbols,
        k,
        language,
    ) by {
        assert(symbol_ok(v.symbols, k, language));
    }
    assert forall|k: int| 0 <= k < w.calls.len() implies call_ok(#[trigger] w.calls[k], w.symbols) by {
        assert(call_ok(v.calls[k], v.symbols));
    }
}

/// `new` starts with all of `old`: nothing is removed or changed.
pub open spec fn keeps<T>(old: Seq<T>, new: Seq<T>) -> bool {
    &&& old.len() <= new.len()
    &&& forall|i: int| 0 <= i < old.len() ==> #[trigger] new[i] == old[i]
}

/// `new` is `old` with symbols, imports and calls appended.
pub open spec fn extends(old: ParseView, new: ParseView) -> bool {
    &&& keeps(old.symbols, new.symbols)
    &&& keeps(old.imports, new.imports)
    &&& keeps(old.calls, new.calls)
}

/// Each symbol appended to `old` has parent `parent` or a parent at index
/// `base` or above.
pub open spec fn parents_fresh(old: ParseView, new: ParseView, base: int, parent: Option<usize>) -> bool {
    forall|i: int|
        old.symbols.len() <= i < new.symbols.len() ==> {
            ||| (#[trigger] new.symbols[i]).parent_index == parent
            ||| (new.symbols[i].parent_index matches Some(j) && j >= base)
        }
}

/// Each call appended to `old` is attributed to a symbol at index `base` or above.
pub open spec fn callers_fresh(old: ParseView, new: ParseView, base: int) -> bool {
    forall|i: int| old.calls.len() <= i < new.calls.len() ==> (#[trigger] new.calls[i]).caller_index >= base
}

/// What one extraction step appends to `old` hangs below `parent` or below a
/// symbol it appended itself, and its calls come from symbols it appended.
pub open spec fn appended_below(old: ParseView, new: ParseView, parent: Option<usize>) -> bool {
    &&& parents_fresh(old, new, old.symbols.len() as int, parent)
    &&& callers_fresh(old, new, old.symbols.len() as int)
}

/// `new` is `old` with calls of `caller` appended, and nothing else.
pub open spec fn calls_appended(old: ParseView, new: ParseView, caller: usize) -> bool {
    &&& new.symbols == old.symbols
    &&& new.imports == old.imports
    &&& keeps(old.calls, new.calls)
    &&& forall|i: int| old.calls.len() <= i < new.calls.len() ==> (#[trigger] new.calls[i]).caller_index == caller
}

/// Two appending steps make one.
pub proof fn lemma_extends_chain(a: ParseView, b: ParseView, c: ParseView, base: int, parent: Option<usize>)
    requires
        extends(a, b),
        extends(b, c),
    ensures
        extends(a, c),
        callers_fresh(a, b, base) && callers_fresh(b, c, base) ==> callers_fresh(a, c, base),
        parents_fresh(a, b, base, parent) && parents_fresh(b, c, base, parent) ==> parents_fresh(
            a,
            c,
            base,
            parent,
        ),
{
    assert forall|i: int| 0 <= i < a.symbols.len() implies #[trigger] c.symbols[i] == a.symbols[i] by {
        assert(c.symbols[i] == b.symbols[i]);
    }
    assert forall|i: int| 0 <= i < a.imports.len() implies #[trigger] c.imports[i] == a.imports[i] by {
        assert(c.imports[i] == b.imports[i]);
    }
    assert forall|i: int| 0 <= i < a.calls.len() implies #[trigger] c.calls[i] == a.calls[i] by {
        assert(c.calls[i] == b.calls[i]);
    }
    if callers_fresh(a, b, base) && callers_fresh(b, c, base) {
        assert forall|i: int| a.calls.len() <= i < c.calls.len() implies (#[trigger] c.calls[i]).caller_index
            >= base by {
            if i < b.calls.len() {
                assert(c.calls[i] == b.calls[i]);
            }
        }
    }
    if parents_fresh(a, b, base, parent) && parents_fresh(b, c, base, parent) {
        assert forall|i: int| a.symbols.len() <= i < c.symbols.len() implies {
            ||| (#[trigger] c.symbols[i]).parent_index == parent
            ||| (c.symbols[i].parent_index matches Some(j) && j >= base)
        } by {
            if i < b.symbols.len() {
                assert(c.symbols[i] == b.symbols[i]);
            }
        }
    }
}

/// A step that is fresh above a higher base, below a parent that is itself
/// fresh, is fresh above a lower base.
pub proof fn lemma_fresh_weaken(
    b: ParseView,
    c: ParseView,
    high: int,
    inner: Option<usize>,
    base: int,
    parent: Option<usize>,
)
    requires
        base <= high,
    ensures
        callers_fresh(b, c, high) ==> callers_fresh(b, c, base),
        parents_fresh(b, c, high, inner) && (inner == parent || (inner matches Some(j) && j >= base))
            ==> parents_fresh(b, c, base, parent),
{
}

/// Adding a symbol appends it.
pub proof fn lemma_push_symbol_appends(v: ParseView, s: SymbolView)
    ensures
        extends(v, v.push_symbol(s)),
        parents_fresh(v, v.push_symbol(s), v.symbols.len() as int, s.parent_index),
        callers_fresh(v, v.push_symbol(s), v.symbols.len() as int),
{
}

/// Adding an import appends it and nothing else.
pub proof fn lemma_push_import_appends(v: ParseView, i: crate::model::ImportView, base: int, parent: Option<usize>)
    ensures
        extends(v, v.push_import(i)),
        parents_fresh(v, v.push_import(i), base, parent),
        callers_fresh(v, v.push_import(i), base),
{
}

/// Appending calls of one caller is an appending step whose calls are fresh
/// when the caller is.
pub proof fn lemma_calls_appended_fresh(a: ParseView, b: ParseView, caller: usize, base: int, parent: Option<usize>)
    requires
        calls_appended(a, b, caller),
    ensures
        extends(a, b),
        parents_fresh(a, b, base, parent),
        caller >= base ==> callers_fresh(a, b, base),
{
}

/// Appending calls twice appends them once.
pub proof fn lemma_calls_appended_chain(a: ParseView, b: ParseView, c: ParseView, caller: usize)
    requires
        calls_appended(a, b, caller),
        calls_appended(b, c, caller),
    ensures
        calls_appended(a, c, caller),
{
    assert forall|i: int| 0 <= i < a.calls.len() implies #[trigger] c.calls[i] == a.calls[i] by {
        assert(c.calls[i] == b.calls[i]);
    }
    assert forall|i: int| a.calls.len() <= i < c.calls.len() implies (#[trigger] c.calls[i]).caller_index
        == caller by {
        if i < b.calls.len() {
            assert(c.calls[i] == b.calls[i]);
        }
    }
}

/// The symbols of `v` are listed in the order of the lines they start on.
pub open spec fn in_source_order(v: ParseView) -> bool {
    forall|i: int, j: int|
        0 <= i <= j < v.symbols.len() ==> #[trigger] v.symbols[i].line_start
            <= #[trigger] v.symbols[j].line_start
}

/// No symbol of `v` starts after line `line`.
pub open spec fn starts_by(v: ParseView, line: int) -> bool {
    forall|i: int| 0 <= i < v.symbols.len() ==> #[trigger] v.symbols[i].line_start <= line
}

/// A bound on where symbols start holds for any later line too.
pub proof fn lemma_starts_by_weaken(v: ParseView, line: int, later: int)
    requires
        starts_by(v, line),
        line <= later,
    ensures
        starts_by(v, later),
{
}

/// Adding a symbol that starts no earlier than any other keeps the order.
pub proof fn lemma_push_symbol_ordered(v: ParseView, s: SymbolView)
    requires
        in_source_order(v),
        starts_by(v, s.line_start as int),
    ensures
        in_source_order(v.push_symbol(s)),
        starts_by(v.push_symbol(s), s.line_start as int),
{
    let w = v.push_symbol(s);
    assert forall|i: int, j: int| 0 <= i <= j < w.symbols.len() implies #[trigger] w.symbols[i].line_start
        <= #[trigger] w.symbols[j].line_start by {
        if j < v.symbols.len() {
            assert(v.symbols[i].line_start <= v.symbols[j].line_start);
        } else if i < v.symbols.len() {
            assert(v.symbols[i].line_start <= s.line_start);
        }
    }
    assert forall|i: int| 0 <= i < w.symbols.len() implies #[trigger] w.symbols[i].line_start
        <= s.line_start by {
        if i < v.symbols.len() {
            assert(v.symbols[i].line_start <= s.line_start);
        }
    }
}

/// The calls appended to `old` are on lines `lo` to `hi`.
pub open spec fn calls_on_lines(old: ParseView, new: ParseView, lo: int, hi: int) -> bool {
    forall|i: int| old.calls.len() <= i < new.calls.len() ==> lo <= #[trigger] new.calls[i].line <= hi
}

/// Two steps that append calls within some lines append them within the
/// lines that hold both.
pub proof fn lemma_calls_on_lines_chain(
    a: ParseView,
    b: ParseView,
    c: ParseView,
    lo1: int,
    hi1: int,
    lo2: int,
    hi2: int,
    lo: int,
    hi: int,
)
    requires
        keeps(a.calls, b.calls),
        keeps(b.calls, c.calls),
        calls_on_lines(a, b, lo1, hi1),
        calls_on_lines(b, c, lo2, hi2),
        lo <= lo1,
        lo <= lo2,
        hi1 <= hi,
        hi2 <= hi,
    ensures
        calls_on_lines(a, c, lo, hi),
{
    assert forall|i: int| a.calls.len() <= i < c.calls.len() implies lo <= #[trigger] c.calls[i].line
        <= hi by {
        if i < b.calls.len() {
            assert(c.calls[i] == b.calls[i]);
        }
    }
}

} // verus!
