use vstd::prelude::*;

verus! {

/// A definition found in a source file: a function, method, class, struct,
/// enum, trait, interface or constructor.
#[derive(Debug, Clone)]
pub struct Symbol {
    pub name: String,
    pub kind: String,
    pub line_start: usize,
    pub line_end: usize,
    pub parent_index: Option<usize>,
    pub signature: Option<String>,
}

/// An import, `use` or `using` statement.
#[derive(Debug, Clone)]
pub struct Import {
    pub module: String,
    pub names: Option<String>,
}

/// A call site inside a symbol's body.
#[derive(Debug, Clone)]
pub struct Call {
    /// Index into `ParseResult::symbols` for the caller.
    pub caller_index: usize,
    pub callee_name: String,
    pub line: usize,
}

/// Extracted symbols, imports, and calls from a single file.
#[derive(Debug)]
pub struct ParseResult {
    pub symbols: Vec<Symbol>,
    pub imports: Vec<Import>,
    pub calls: Vec<Call>,
}

/// The mathematical value of a `Symbol`.
pub struct SymbolView {
    pub name: Seq<char>,
    pub kind: Seq<char>,
    pub line_start: usize,
    pub line_end: usize,
    pub parent_index: Option<usize>,
    pub signature: Option<Seq<char>>,
}

/// The mathematical value of an `Import`.
pub struct ImportView {
    pub module: Seq<char>,
    pub names: Option<Seq<char>>,
}

/// The mathematical value of a `Call`.
pub struct CallView {
    pub caller_index: usize,
    pub callee_name: Seq<char>,
    pub line: usize,
}

/// The mathematical value of a `ParseResult`.
pub struct ParseView {
    pub symbols: Seq<SymbolView>,
    pub imports: Seq<ImportView>,
    pub calls: Seq<CallView>,
}

pub open spec fn opt_string_view(s: Option<String>) -> Option<Seq<char>> {
    match s {
        Some(t) => Some(t@),
        None => None,
    }
}

impl View for Symbol {
    type V = SymbolView;

    open spec fn view(&self) -> SymbolView {
        SymbolView {
            name: self.name@,
            kind: self.kind@,
            line_start: self.line_start,
            line_end: self.line_end,
            parent_index: self.parent_index,
            signature: opt_string_view(self.signature),
        }
    }
}

impl View for Import {
    type V = ImportView;

    open spec fn view(&self) -> ImportView {
        ImportView { module: self.module@, names: opt_string_view(self.names) }
    }
}

impl View for Call {
    type V = CallView;

    open spec fn view(&self) -> CallView {
        CallView { caller_index: self.caller_index, callee_name: self.callee_name@, line: self.line }
    }
}

impl View for ParseResult {
    type V = ParseView;

    open spec fn view(&self) -> ParseView {
        ParseView {
            symbols: self.symbols@.map_values(|s: Symbol| s@),
            imports: self.imports@.map_values(|i: Import| i@),
            calls: self.calls@.map_values(|c: Call| c@),
        }
    }
}

/// The result of a file in which nothing was found.
pub open spec fn empty_view() -> ParseView {
    ParseView { symbols: Seq::empty(), imports: Seq::empty(), calls: Seq::empty() }
}

impl ParseView {
    pub open spec fn push_symbol(self, s: SymbolView) -> ParseView {
        ParseView { symbols: self.symbols.push(s), ..self }
    }

    pub open spec fn push_import(self, i: ImportView) -> ParseView {
        ParseView { imports: self.imports.push(i), ..self }
    }

    pub open spec fn push_call(self, c: CallView) -> ParseView {
        ParseView { calls: self.calls.push(c), ..self }
    }
}

/// Line `line` moved by `lines` lines.
pub open spec fn shift_line(line: usize, lines: int) -> usize {
    (line + lines) as usize
}

/// `s` with its lines moved by `lines`.
pub open spec fn shift_symbol(s: SymbolView, lines: int) -> SymbolView {
    SymbolView {
        line_start: shift_line(s.line_start, lines),
        line_end: shift_line(s.line_end, lines),
        ..s
    }
}

/// `c` with its line moved by `lines`.
pub open spec fn shift_call(c: CallView, lines: int) -> CallView {
    CallView { line: shift_line(c.line, lines), ..c }
}

/// `v` with every line number moved by `lines`.
pub open spec fn shift_view(v: ParseView, lines: int) -> ParseView {
    ParseView {
        symbols: v.symbols.map_values(|s: SymbolView| shift_symbol(s, lines)),
        imports: v.imports,
        calls: v.calls.map_values(|c: CallView| shift_call(c, lines)),
    }
}

/// Moving lines commutes with adding a symbol.
pub proof fn lemma_shift_push_symbol(v: ParseView, s: SymbolView, lines: int)
    ensures
        shift_view(v.push_symbol(s), lines) == shift_view(v, lines).push_symbol(shift_symbol(s, lines)),
        shift_view(v, lines).symbols.len() == v.symbols.len(),
{
    assert(shift_view(v.push_symbol(s), lines).symbols =~= shift_view(v, lines).symbols.push(
        shift_symbol(s, lines),
    ));
}

/// Moving lines commutes with adding a call.
pub proof fn lemma_shift_push_call(v: ParseView, c: CallView, lines: int)
    ensures
        shift_view(v.push_call(c), lines) == shift_view(v, lines).push_call(shift_call(c, lines)),
{
    assert(shift_view(v.push_call(c), lines).calls =~= shift_view(v, lines).calls.push(
        shift_call(c, lines),
    ));
}

/// Moving lines commutes with adding an import.
pub proof fn lemma_shift_push_import(v: ParseView, i: ImportView, lines: int)
    ensures
        shift_view(v.push_import(i), lines) == shift_view(v, lines).push_import(i),
{
}

/// Moving lines by nothing changes nothing.
pub proof fn lemma_shift_zero(v: ParseView)
    ensures
        shift_view(v, 0) == v,
{
    assert(shift_view(v, 0).symbols =~= v.symbols);
    assert(shift_view(v, 0).calls =~= v.calls);
}

impl Default for ParseResult {
    fn default() -> (r: ParseResult)
        ensures
            r@ == empty_view(),
    {
        ParseResult::new()
    }
}

impl ParseResult {
    /// An empty result.
    pub fn new() -> (r: ParseResult)
        ensures
            r@ == empty_view(),
    {
        let r = ParseResult { symbols: Vec::new(), imports: Vec::new(), calls: Vec::new() };
        assert(r@.symbols =~= Seq::<SymbolView>::empty());
        assert(r@.imports =~= Seq::<ImportView>::empty());
        assert(r@.calls =~= Seq::<CallView>::empty());
        r
    }

    pub fn add_symbol(&mut self, s: Symbol)
        ensures
            final(self)@ == old(self)@.push_symbol(s@),
    {
        let ghost before = self.symbols@;
        self.symbols.push(s);
        assert(self.symbols@.map_values(|s: Symbol| s@) =~= before.map_values(|s: Symbol| s@).push(
            s@,
        ));
        assert(self.imports@.map_values(|i: Import| i@) =~= old(self).imports@.map_values(|i: Import| i@));
        assert(self.calls@.map_values(|c: Call| c@) =~= old(self).calls@.map_values(|c: Call| c@));
    }

    pub fn add_import(&mut self, i: Import)
        ensures
            final(self)@ == old(self)@.push_import(i@),
    {
        let ghost before = self.imports@;
        self.imports.push(i);
        assert(self.imports@.map_values(|i: Import| i@) =~= before.map_values(|i: Import| i@).push(
            i@,
        ));
        assert(self.symbols@.map_values(|s: Symbol| s@) =~= old(self).symbols@.map_values(|s: Symbol| s@));
        assert(self.calls@.map_values(|c: Call| c@) =~= old(self).calls@.map_values(|c: Call| c@));
    }

    pub fn add_call(&mut self, c: Call)
        ensures
            final(self)@ == old(self)@.push_call(c@),
    {
        let ghost before = self.calls@;
        self.calls.push(c);
        assert(self.calls@.map_values(|c: Call| c@) =~= before.map_values(|c: Call| c@).push(c@));
        assert(self.symbols@.map_values(|s: Symbol| s@) =~= old(self).symbols@.map_values(|s: Symbol| s@));
        assert(self.imports@.map_values(|i: Import| i@) =~= old(self).imports@.map_values(|i: Import| i@));
    }

    pub fn symbol_count(&self) -> (n: usize)
        ensures
            n == self@.symbols.len(),
    {
        self.symbols.len()
    }
}

} // verus!
