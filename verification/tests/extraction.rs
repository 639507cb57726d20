//! Extraction over hand-built syntax trees, the text helpers, the syntax
//! trees tree-sitter hands back, and properties every result has.

use pruner_parser::csharp::csharp_using_target;
use pruner_parser::text::{
    find_char_index, join_strings, same_text, strip_prefix_str, trim_class, trim_ws, CharClass,
};
use pruner_parser::python::python_node;
use pruner_parser::{
    extract_symbols, parse_source, syntax_tree, FieldChildren, Import, ParseError, ParseResult,
    SourceLanguage, Symbol, SyntaxNode,
};

fn node(
    kind: &str,
    rows: (usize, usize),
    bytes: (usize, usize),
    fields: FieldChildren,
    children: Vec<SyntaxNode>,
) -> SyntaxNode {
    SyntaxNode {
        kind: kind.to_string(),
        start_row: rows.0,
        end_row: rows.1,
        start_byte: bytes.0,
        end_byte: bytes.1,
        fields,
        children,
    }
}

fn leaf(kind: &str, row: usize, bytes: (usize, usize)) -> SyntaxNode {
    node(kind, (row, row), bytes, FieldChildren::none(), Vec::new())
}

/// The tree of "def f(x):\n    g(x)\n" as the Python grammar shapes it.
fn python_def_tree() -> SyntaxNode {
    let call = node(
        "call",
        (1, 1),
        (14, 18),
        FieldChildren { function: Some(0), ..FieldChildren::none() },
        vec![leaf("identifier", 1, (14, 15)), leaf("argument_list", 1, (15, 18))],
    );
    let statement = node("expression_statement", (1, 1), (14, 18), FieldChildren::none(), vec![call]);
    let block = node("block", (1, 1), (14, 18), FieldChildren::none(), vec![statement]);
    let def = node(
        "function_definition",
        (0, 1),
        (0, 18),
        FieldChildren { name: Some(1), parameters: Some(2), ..FieldChildren::none() },
        vec![
            leaf("def", 0, (0, 3)),
            leaf("identifier", 0, (4, 5)),
            leaf("parameters", 0, (5, 8)),
            leaf(":", 0, (8, 9)),
            block,
        ],
    );
    node("module", (0, 2), (0, 19), FieldChildren::none(), vec![def])
}

#[test]
fn extract_from_hand_built_python_tree() {
    let src = "def f(x):\n    g(x)\n";
    let tree = python_def_tree();
    let result = extract_symbols(&tree, src.as_bytes(), SourceLanguage::Python);
    assert_eq!(result.symbols.len(), 1);
    let f = &result.symbols[0];
    assert_eq!(f.name, "f");
    assert_eq!(f.kind, "function");
    assert_eq!(f.line_start, 1);
    assert_eq!(f.line_end, 2);
    assert_eq!(f.parent_index, None);
    assert_eq!(f.signature.as_deref(), Some("def f(x)"));
    assert_eq!(result.calls.len(), 1);
    assert_eq!(result.calls[0].caller_index, 0);
    assert_eq!(result.calls[0].callee_name, "g");
    assert_eq!(result.calls[0].line, 2);
    assert!(result.imports.is_empty());
}

#[test]
fn hand_built_tree_matches_tree_sitter() {
    let src = "def f(x):\n    g(x)\n";
    let parsed = parse_source(src, SourceLanguage::Python).unwrap();
    let built = extract_symbols(&python_def_tree(), src.as_bytes(), SourceLanguage::Python);
    assert_same_result(&parsed, &built);
}

#[test]
fn same_tree_read_by_other_rules_finds_nothing() {
    let src = "def f(x):\n    g(x)\n";
    let result = extract_symbols(&python_def_tree(), src.as_bytes(), SourceLanguage::Rust);
    assert!(result.symbols.is_empty());
    assert!(result.calls.is_empty());
}

#[test]
fn invalid_utf8_node_text_is_empty() {
    let src: &[u8] = &[0x64, 0x65, 0x66, 0x20, 0xff, 0x28, 0x29, 0x3a];
    let def = node(
        "function_definition",
        (0, 0),
        (0, 8),
        FieldChildren { name: Some(0), ..FieldChildren::none() },
        vec![leaf("identifier", 0, (4, 5))],
    );
    let tree = node("module", (0, 0), (0, 8), FieldChildren::none(), vec![def]);
    let result = extract_symbols(&tree, src, SourceLanguage::Python);
    assert_eq!(result.symbols.len(), 1);
    assert_eq!(result.symbols[0].name, "");
    assert_eq!(result.symbols[0].signature.as_deref(), Some("def ()"));
}

fn assert_same_result(a: &ParseResult, b: &ParseResult) {
    assert_eq!(a.symbols.len(), b.symbols.len());
    for (x, y) in a.symbols.iter().zip(b.symbols.iter()) {
        assert_eq!(x.name, y.name);
        assert_eq!(x.kind, y.kind);
        assert_eq!(x.line_start, y.line_start);
        assert_eq!(x.line_end, y.line_end);
        assert_eq!(x.parent_index, y.parent_index);
        assert_eq!(x.signature, y.signature);
    }
    assert_eq!(a.imports.len(), b.imports.len());
    for (x, y) in a.imports.iter().zip(b.imports.iter()) {
        assert_eq!(x.module, y.module);
        assert_eq!(x.names, y.names);
    }
    assert_eq!(a.calls.len(), b.calls.len());
    for (x, y) in a.calls.iter().zip(b.calls.iter()) {
        assert_eq!(x.caller_index, y.caller_index);
        assert_eq!(x.callee_name, y.callee_name);
        assert_eq!(x.line, y.line);
    }
}

fn assert_consistent(result: &ParseResult) {
    for (i, s) in result.symbols.iter().enumerate() {
        if let Some(p) = s.parent_index {
            assert!(p < i, "parent of {} comes after it", s.name);
        }
        assert!(s.line_start >= 1 && s.line_start <= s.line_end);
        if i > 0 {
            assert!(result.symbols[i - 1].line_start <= s.line_start, "{} is out of order", s.name);
        }
    }
    for c in &result.calls {
        let caller = &result.symbols[c.caller_index];
        assert!(["function", "method", "constructor"].contains(&caller.kind.as_str()));
        assert!(caller.line_start <= c.line && c.line <= caller.line_end);
    }
}

const MIXED_PYTHON: &str = r#"
import os.path
from a.b import c as d, e

class Outer:
    class Inner:
        def deep(self):
            helper()

    def method(self):
        self.deep()

def top():
    fns[0](inner())
    return Outer()
"#;

#[test]
fn python_results_are_consistent() -> Result<(), ParseError> {
    let result = parse_source(MIXED_PYTHON, SourceLanguage::Python)?;
    assert_consistent(&result);
    let kinds: Vec<&str> = result.symbols.iter().map(|s| s.kind.as_str()).collect();
    assert_eq!(kinds, vec!["class", "class", "method", "method", "function"]);
    assert_eq!(result.symbols[1].parent_index, Some(0));
    assert_eq!(result.symbols[2].parent_index, Some(1));
    assert_eq!(result.symbols[3].parent_index, Some(0));
    assert_eq!(result.symbols[4].parent_index, None);
    Ok(())
}

#[test]
fn python_imports_exact() -> Result<(), ParseError> {
    let result = parse_source(MIXED_PYTHON, SourceLanguage::Python)?;
    assert_eq!(result.imports.len(), 2);
    assert_eq!(result.imports[0].module, "os.path");
    assert_eq!(result.imports[0].names, None);
    assert_eq!(result.imports[1].module, "a.b");
    assert_eq!(result.imports[1].names.as_deref(), Some("c, e"));
    Ok(())
}

#[test]
fn python_call_through_subscript_is_not_searched() -> Result<(), ParseError> {
    let result = parse_source(MIXED_PYTHON, SourceLanguage::Python)?;
    let top_calls: Vec<&str> = result
        .calls
        .iter()
        .filter(|c| c.caller_index == 4)
        .map(|c| c.callee_name.as_str())
        .collect();
    assert_eq!(top_calls, vec!["Outer"]);
    Ok(())
}

#[test]
fn parse_is_deterministic() -> Result<(), ParseError> {
    let a = parse_source(MIXED_PYTHON, SourceLanguage::Python)?;
    let b = parse_source(MIXED_PYTHON, SourceLanguage::Python)?;
    assert_same_result(&a, &b);
    Ok(())
}

#[test]
fn rust_signature_and_lines_exact() -> Result<(), ParseError> {
    let src = "\nfn process(input: &str) -> Result<()> {\n    validate(input)\n}\n";
    let result = parse_source(src, SourceLanguage::Rust)?;
    assert_eq!(result.symbols.len(), 1);
    let s = &result.symbols[0];
    assert_eq!(s.signature.as_deref(), Some("fn process(input: &str) -> Result<()>"));
    assert_eq!(s.line_start, 2);
    assert_eq!(s.line_end, 4);
    assert_eq!(result.calls.len(), 1);
    assert_eq!(result.calls[0].line, 3);
    Ok(())
}

#[test]
fn rust_use_and_impl_parents() -> Result<(), ParseError> {
    let src = r#"
use std::io::{self, Read};
struct A;
enum B { X }
impl B { fn b(&self) {} }
impl A { fn a(&self) {} }
impl Missing { fn m(&self) {} }
fn free() {}
"#;
    let result = parse_source(src, SourceLanguage::Rust)?;
    assert_consistent(&result);
    assert_eq!(result.imports.len(), 1);
    assert_eq!(result.imports[0].module, "std::io::{self, Read}");
    let find = |n: &str| result.symbols.iter().find(|s| s.name == n).unwrap();
    assert_eq!(find("b").parent_index, Some(1));
    assert_eq!(find("b").kind, "method");
    assert_eq!(find("a").parent_index, Some(0));
    assert_eq!(find("m").parent_index, None);
    assert_eq!(find("m").kind, "function");
    assert_eq!(find("free").kind, "function");
    Ok(())
}

#[test]
fn js_signatures_and_imports_exact() -> Result<(), ParseError> {
    let src = r#"
import React, { useState as s, useEffect } from "react";
function handle(req) { return parse(req); }
const greet = (name) => name;
const other = function (name) { return name; };
"#;
    let result = parse_source(src, SourceLanguage::JavaScript)?;
    assert_consistent(&result);
    assert_eq!(result.imports.len(), 1);
    assert_eq!(result.imports[0].module, "react");
    assert_eq!(result.imports[0].names.as_deref(), Some("React, useState, useEffect"));
    assert_eq!(result.symbols[0].signature.as_deref(), Some("function handle"));
    assert_eq!(result.symbols[1].name, "greet");
    assert_eq!(result.symbols[1].signature.as_deref(), Some("const greet"));
    // This grammar calls a function expression `function_expression`, which the
    // rules do not take for a function binding.
    assert_eq!(result.symbols.len(), 2);
    Ok(())
}

#[test]
fn csharp_signatures_and_usings_exact() -> Result<(), ParseError> {
    let src = r#"
using static System.Math;
using Alias = System.Text;
public class Calc
{
    public Calc(int seed) { Init(seed); }
    public int Add(int a, int b) { return a + b; }
}
"#;
    let result = parse_source(src, SourceLanguage::CSharp)?;
    assert_consistent(&result);
    let modules: Vec<&str> = result.imports.iter().map(|i| i.module.as_str()).collect();
    assert_eq!(modules, vec!["System.Math", "System.Text"]);
    let ctor = result.symbols.iter().find(|s| s.kind == "constructor").unwrap();
    assert_eq!(ctor.signature.as_deref(), Some("Calc(int seed)"));
    let add = result.symbols.iter().find(|s| s.name == "Add").unwrap();
    assert_eq!(add.signature.as_deref(), Some("int Add(int a, int b)"));
    assert_eq!(add.parent_index, Some(0));
    Ok(())
}

#[test]
fn syntax_tree_reports_tree_sitter_nodes() -> Result<(), ParseError> {
    let src = "def f(x):\n    g(x)\n";
    let tree = syntax_tree(src.as_bytes(), SourceLanguage::Python)?;
    assert_eq!(tree.kind, "module");
    assert_eq!(tree.start_byte, 0);
    assert_eq!(tree.end_byte, src.len());
    assert_eq!(tree.children.len(), 1);
    let def = &tree.children[0];
    assert_eq!(def.kind, "function_definition");
    assert_eq!((def.start_row, def.end_row), (0, 1));
    assert_eq!((def.start_byte, def.end_byte), (0, 18));
    let name = def.fields.name.unwrap();
    assert_eq!(def.children[name].kind, "identifier");
    assert_eq!((def.children[name].start_byte, def.children[name].end_byte), (4, 5));
    assert_eq!(def.children[def.fields.parameters.unwrap()].kind, "parameters");
    assert_eq!(def.fields.module_name, None);
    Ok(())
}

#[test]
fn syntax_tree_of_each_language_has_its_root() -> Result<(), ParseError> {
    let roots = [
        (SourceLanguage::Python, "x = 1\n", "module"),
        (SourceLanguage::JavaScript, "let x = 1;\n", "program"),
        (SourceLanguage::TypeScript, "let x: number = 1;\n", "program"),
        (SourceLanguage::Tsx, "let x = <div/>;\n", "program"),
        (SourceLanguage::Rust, "fn main() {}\n", "source_file"),
        (SourceLanguage::CSharp, "class A {}\n", "compilation_unit"),
    ];
    for (language, src, root) in roots {
        let tree = syntax_tree(src.as_bytes(), language)?;
        assert_eq!(tree.kind, root);
    }
    Ok(())
}

#[test]
fn text_trim_and_prefix() {
    assert_eq!(trim_ws(" \t a b\u{a0}\n"), "a b");
    assert_eq!(trim_ws("   "), "");
    assert_eq!(trim_class("'path'", CharClass::Quote, true, true), "path");
    assert_eq!(trim_class("\"a'b\"", CharClass::Quote, true, true), "a'b");
    assert_eq!(trim_class("x;;", CharClass::Semicolon, false, true), "x");
    assert_eq!(trim_class(";x;", CharClass::Semicolon, false, true), ";x");
    assert_eq!(strip_prefix_str("import os", "import "), Some("os"));
    assert_eq!(strip_prefix_str("imported", "import "), None);
    assert_eq!(strip_prefix_str("use", "use "), None);
}

#[test]
fn text_find_and_join() {
    assert_eq!(find_char_index("A = B = C", '='), Some(2));
    assert_eq!(find_char_index("äb=c", '='), Some(2));
    assert_eq!(find_char_index("abc", '='), None);
    let parts = vec!["a".to_string(), "b".to_string(), "c".to_string()];
    assert_eq!(join_strings(&parts, ", "), "a, b, c");
    assert_eq!(join_strings(&Vec::new(), ", "), "");
}

#[test]
fn csharp_using_targets() {
    assert_eq!(csharp_using_target("using System;"), "System");
    assert_eq!(csharp_using_target("  using static System.Math;  "), "System.Math");
    assert_eq!(csharp_using_target("using Alias = System.Text;"), "System.Text");
    assert_eq!(csharp_using_target("global using X;"), "global using X");
}

#[test]
fn nested_symbols_follow_their_enclosing_one() -> Result<(), ParseError> {
    let result = parse_source(MIXED_PYTHON, SourceLanguage::Python)?;
    let starts: Vec<usize> = result.symbols.iter().map(|s| s.line_start).collect();
    assert_eq!(starts, vec![5, 6, 7, 10, 13]);
    let deep_call = result.calls.iter().find(|c| c.callee_name == "helper").unwrap();
    assert_eq!(deep_call.caller_index, 2);
    assert_eq!(deep_call.line, 8);
    assert_eq!((result.symbols[2].line_start, result.symbols[2].line_end), (7, 8));
    Ok(())
}

#[test]
fn extraction_appends_below_the_given_parent() {
    let src = "def f(x):\n    g(x)\n";
    let mut result = ParseResult::new();
    result.add_symbol(Symbol {
        name: "outer".to_string(),
        kind: "class".to_string(),
        line_start: 1,
        line_end: 2,
        parent_index: None,
        signature: None,
    });
    result.add_import(Import { module: "os".to_string(), names: None });
    python_node(&python_def_tree(), src.as_bytes(), &mut result, Some(0));
    assert_eq!(result.symbols.len(), 2);
    assert_eq!(result.symbols[0].name, "outer");
    assert_eq!(result.imports.len(), 1);
    assert_eq!(result.imports[0].module, "os");
    assert_eq!(result.symbols[1].name, "f");
    assert_eq!(result.symbols[1].kind, "method");
    assert_eq!(result.symbols[1].parent_index, Some(0));
    assert_eq!(result.calls.len(), 1);
    assert_eq!(result.calls[0].caller_index, 1);
}

#[test]
fn javascript_calls_lie_in_their_callers() -> Result<(), ParseError> {
    let src = "const run = () => {\n  go();\n};\nclass K {\n  m() { stop(); }\n}\n";
    let result = parse_source(src, SourceLanguage::JavaScript)?;
    assert_consistent(&result);
    let names: Vec<&str> = result.symbols.iter().map(|s| s.name.as_str()).collect();
    assert_eq!(names, vec!["run", "K", "m"]);
    assert_eq!(result.calls.len(), 2);
    assert_eq!((result.calls[0].caller_index, result.calls[0].line), (0, 2));
    assert_eq!((result.calls[1].caller_index, result.calls[1].line), (2, 5));
    Ok(())
}

#[test]
fn text_equality() {
    assert!(same_text("call", "call"));
    assert!(!same_text("call", "calls"));
    assert!(!same_text("call", "cell"));
    assert!(same_text("", ""));
    assert!(same_text("ä", "ä"));
    assert!(!same_text("a", "ä"));
}

fn assert_moved_by(a: &ParseResult, b: &ParseResult, lines: usize) {
    assert_eq!(a.symbols.len(), b.symbols.len());
    for (x, y) in a.symbols.iter().zip(b.symbols.iter()) {
        assert_eq!(x.name, y.name);
        assert_eq!(x.kind, y.kind);
        assert_eq!(x.line_start + lines, y.line_start);
        assert_eq!(x.line_end + lines, y.line_end);
        assert_eq!(x.parent_index, y.parent_index);
        assert_eq!(x.signature, y.signature);
    }
    assert_eq!(a.imports.len(), b.imports.len());
    for (x, y) in a.imports.iter().zip(b.imports.iter()) {
        assert_eq!(x.module, y.module);
        assert_eq!(x.names, y.names);
    }
    assert_eq!(a.calls.len(), b.calls.len());
    for (x, y) in a.calls.iter().zip(b.calls.iter()) {
        assert_eq!(x.caller_index, y.caller_index);
        assert_eq!(x.callee_name, y.callee_name);
        assert_eq!(x.line + lines, y.line);
    }
}

#[test]
fn leading_newlines_move_every_line() -> Result<(), ParseError> {
    let sources = [
        (SourceLanguage::Python, MIXED_PYTHON),
        (SourceLanguage::Rust, "use a::b;\nstruct S;\nimpl S { fn f(&self) { g(); } }\n"),
        (SourceLanguage::JavaScript, "import x from 'y';\nfunction f() { g(); }\n"),
        (SourceLanguage::CSharp, "using System;\nclass C { void M() { N(); } }\n"),
    ];
    for (language, src) in sources {
        let plain = parse_source(src, language)?;
        let moved = parse_source(&format!("\n\n\n{}", src), language)?;
        assert!(!plain.symbols.is_empty());
        assert_moved_by(&plain, &moved, 3);
    }
    Ok(())
}
