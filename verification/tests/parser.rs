//! Extraction from sources in each supported language.

use pruner_parser::{parse_source, ParseError, SourceLanguage};

#[test]
fn test_parse_python_function() -> Result<(), ParseError> {
    let src = r#"
def hello(name):
    print(name)
    return greet(name)
"#;
    let result = parse_source(src, SourceLanguage::Python)?;
    assert_eq!(result.symbols.len(), 1);
    assert_eq!(result.symbols[0].name, "hello");
    assert_eq!(result.symbols[0].kind, "function");
    assert!(
        result.symbols[0]
            .signature
            .as_ref()
            .unwrap()
            .contains("def hello")
    );

    // Should find calls to print and greet
    assert!(result.calls.iter().any(|c| c.callee_name == "print"));
    assert!(result.calls.iter().any(|c| c.callee_name == "greet"));
    Ok(())
}

#[test]
fn test_parse_python_class() -> Result<(), ParseError> {
    let src = r#"
class MyClass:
    def method_one(self):
        pass

    def method_two(self, x):
        self.method_one()
"#;
    let result = parse_source(src, SourceLanguage::Python)?;
    assert_eq!(result.symbols.len(), 3); // class + 2 methods
    assert_eq!(result.symbols[0].kind, "class");
    assert_eq!(result.symbols[1].kind, "method");
    assert_eq!(result.symbols[1].parent_index, Some(0));
    Ok(())
}

#[test]
fn test_parse_python_imports() -> Result<(), ParseError> {
    let src = r#"
import os
from pathlib import Path
from typing import Optional, List
"#;
    let result = parse_source(src, SourceLanguage::Python)?;
    assert_eq!(result.imports.len(), 3);
    assert_eq!(result.imports[0].module, "os");
    assert_eq!(result.imports[1].module, "pathlib");
    Ok(())
}

#[test]
fn test_parse_rust_function() -> Result<(), ParseError> {
    let src = r#"
fn process(input: &str) -> Result<()> {
    let x = parse(input);
    validate(x)
}
"#;
    let result = parse_source(src, SourceLanguage::Rust)?;
    assert_eq!(result.symbols.len(), 1);
    assert_eq!(result.symbols[0].name, "process");
    assert!(
        result.symbols[0]
            .signature
            .as_ref()
            .unwrap()
            .contains("-> Result<()>")
    );

    assert!(result.calls.iter().any(|c| c.callee_name == "parse"));
    assert!(result.calls.iter().any(|c| c.callee_name == "validate"));
    Ok(())
}

#[test]
fn test_parse_rust_struct_and_impl() -> Result<(), ParseError> {
    let src = r#"
struct Config {
    name: String,
}

impl Config {
    fn new(name: String) -> Self {
        Self { name }
    }
}
"#;
    let result = parse_source(src, SourceLanguage::Rust)?;
    assert!(
        result
            .symbols
            .iter()
            .any(|s| s.name == "Config" && s.kind == "struct")
    );
    let new_fn = result.symbols.iter().find(|s| s.name == "new").unwrap();
    assert_eq!(new_fn.kind, "method");
    // Parent should point to Config
    assert_eq!(new_fn.parent_index, Some(0));
    Ok(())
}

#[test]
fn test_parse_js_function() -> Result<(), ParseError> {
    let src = r#"
function handleRequest(req, res) {
    const data = parseBody(req);
    res.send(data);
}
"#;
    let result = parse_source(src, SourceLanguage::JavaScript)?;
    assert_eq!(result.symbols.len(), 1);
    assert_eq!(result.symbols[0].name, "handleRequest");
    assert!(result.calls.iter().any(|c| c.callee_name == "parseBody"));
    Ok(())
}

#[test]
fn test_parse_js_arrow_function() -> Result<(), ParseError> {
    let src = r#"
const greet = (name) => {
    return format(name);
};
"#;
    let result = parse_source(src, SourceLanguage::JavaScript)?;
    assert_eq!(result.symbols.len(), 1);
    assert_eq!(result.symbols[0].name, "greet");
    assert!(result.calls.iter().any(|c| c.callee_name == "format"));
    Ok(())
}

#[test]
fn test_parse_ts_imports() -> Result<(), ParseError> {
    let src = r#"
import { Router } from 'express';
import path from 'path';
"#;
    let result = parse_source(src, SourceLanguage::TypeScript)?;
    assert_eq!(result.imports.len(), 2);
    assert_eq!(result.imports[0].module, "express");
    assert_eq!(result.imports[1].module, "path");
    Ok(())
}

#[test]
fn test_parse_js_class_and_method() -> Result<(), ParseError> {
    let src = r#"
class UserService {
    getUser(id) {
        return findById(id);
    }
}
"#;
    let result = parse_source(src, SourceLanguage::JavaScript)?;
    assert!(
        result
            .symbols
            .iter()
            .any(|s| s.name == "UserService" && s.kind == "class")
    );
    assert!(
        result
            .symbols
            .iter()
            .any(|s| s.name == "getUser" && s.kind == "method")
    );
    assert!(result.calls.iter().any(|c| c.callee_name == "findById"));
    Ok(())
}

#[test]
fn test_parse_rust_enum() -> Result<(), ParseError> {
    let src = r#"
enum Color {
    Red,
    Green,
    Blue,
}
"#;
    let result = parse_source(src, SourceLanguage::Rust)?;
    assert!(
        result
            .symbols
            .iter()
            .any(|s| s.name == "Color" && s.kind == "enum")
    );
    Ok(())
}

#[test]
fn test_parse_rust_trait() -> Result<(), ParseError> {
    let src = r#"
trait Drawable {
    fn draw(&self) {}
    fn resize(&mut self, w: u32, h: u32) {}
}
"#;
    let result = parse_source(src, SourceLanguage::Rust)?;
    assert!(
        result
            .symbols
            .iter()
            .any(|s| s.name == "Drawable" && s.kind == "trait")
    );
    // Methods with bodies inside trait should be parsed as children
    let draw = result.symbols.iter().find(|s| s.name == "draw");
    assert!(
        draw.is_some(),
        "draw should be found; symbols: {:?}",
        result
            .symbols
            .iter()
            .map(|s| format!("{} ({})", s.name, s.kind))
            .collect::<Vec<_>>()
    );
    Ok(())
}

#[test]
fn test_parse_rust_use_declaration() -> Result<(), ParseError> {
    let src = r#"
use std::collections::HashMap;
use anyhow::Result;
"#;
    let result = parse_source(src, SourceLanguage::Rust)?;
    assert_eq!(result.imports.len(), 2);
    assert!(result.imports.iter().any(|i| i.module.contains("HashMap")));
    assert!(result.imports.iter().any(|i| i.module.contains("Result")));
    Ok(())
}

#[test]
fn test_parse_rust_macro_invocation() -> Result<(), ParseError> {
    let src = r#"
fn main() {
    println!("hello");
    vec![1, 2, 3];
}
"#;
    let result = parse_source(src, SourceLanguage::Rust)?;
    assert!(result.calls.iter().any(|c| c.callee_name == "println"));
    assert!(result.calls.iter().any(|c| c.callee_name == "vec"));
    Ok(())
}

#[test]
fn test_parse_rust_method_call() -> Result<(), ParseError> {
    let src = r#"
fn process(items: Vec<String>) {
    items.iter().map(|x| x.len()).collect();
}
"#;
    let result = parse_source(src, SourceLanguage::Rust)?;
    // field_expression calls: iter, map, collect
    assert!(result.calls.iter().any(|c| c.callee_name == "iter"));
    assert!(result.calls.iter().any(|c| c.callee_name == "map"));
    Ok(())
}

#[test]
fn test_parse_rust_scoped_call() -> Result<(), ParseError> {
    let src = r#"
fn build() {
    let x = String::from("hello");
    let y = std::fs::read_to_string("file");
}
"#;
    let result = parse_source(src, SourceLanguage::Rust)?;
    assert!(result.calls.iter().any(|c| c.callee_name == "from"));
    assert!(
        result
            .calls
            .iter()
            .any(|c| c.callee_name == "read_to_string")
    );
    Ok(())
}

#[test]
fn test_parse_python_attribute_call() -> Result<(), ParseError> {
    let src = r#"
def process(data):
    result = data.transform()
    result.save()
"#;
    let result = parse_source(src, SourceLanguage::Python)?;
    assert!(result.calls.iter().any(|c| c.callee_name == "transform"));
    assert!(result.calls.iter().any(|c| c.callee_name == "save"));
    Ok(())
}

#[test]
fn test_parse_js_member_call() -> Result<(), ParseError> {
    let src = r#"
function handler(req) {
    const body = req.json();
    console.log(body);
}
"#;
    let result = parse_source(src, SourceLanguage::JavaScript)?;
    assert!(result.calls.iter().any(|c| c.callee_name == "json"));
    assert!(result.calls.iter().any(|c| c.callee_name == "log"));
    Ok(())
}

#[test]
fn test_parse_tsx() -> Result<(), ParseError> {
    let src = r#"
function App() {
    return <div>Hello</div>;
}
"#;
    let result = parse_source(src, SourceLanguage::Tsx)?;
    assert_eq!(result.symbols.len(), 1);
    assert_eq!(result.symbols[0].name, "App");
    Ok(())
}

#[test]
fn test_parse_python_aliased_import() -> Result<(), ParseError> {
    let src = r#"
from collections import OrderedDict as OD
"#;
    let result = parse_source(src, SourceLanguage::Python)?;
    assert_eq!(result.imports.len(), 1);
    assert_eq!(result.imports[0].module, "collections");
    assert!(
        result.imports[0]
            .names
            .as_ref()
            .unwrap()
            .contains("OrderedDict")
    );
    Ok(())
}

#[test]
fn test_parse_js_named_imports() -> Result<(), ParseError> {
    let src = r#"
import { useState, useEffect } from 'react';
"#;
    let result = parse_source(src, SourceLanguage::JavaScript)?;
    assert_eq!(result.imports.len(), 1);
    let names = result.imports[0].names.as_ref().unwrap();
    assert!(names.contains("useState"));
    assert!(names.contains("useEffect"));
    Ok(())
}

#[test]
fn test_parse_rust_impl_without_matching_struct() -> Result<(), ParseError> {
    // impl for a type not defined in this file
    let src = r#"
impl ExternalType {
    fn method(&self) {}
}
"#;
    let result = parse_source(src, SourceLanguage::Rust)?;
    let method = result.symbols.iter().find(|s| s.name == "method");
    assert!(method.is_some());
    // Parent should be None since ExternalType isn't defined here
    assert!(method.unwrap().parent_index.is_none());
    Ok(())
}

#[test]
fn test_parse_js_export_function() -> Result<(), ParseError> {
    let src = r#"
export function serve(port) {
    listen(port);
}
"#;
    let result = parse_source(src, SourceLanguage::JavaScript)?;
    assert!(result.symbols.iter().any(|s| s.name == "serve"));
    assert!(result.calls.iter().any(|c| c.callee_name == "listen"));
    Ok(())
}

#[test]
fn test_parse_rust_impl_for_enum() -> Result<(), ParseError> {
    let src = r#"
enum Status {
    Active,
    Inactive,
}

impl Status {
    fn is_active(&self) -> bool {
        matches!(self, Status::Active)
    }
}
"#;
    let result = parse_source(src, SourceLanguage::Rust)?;
    assert!(
        result
            .symbols
            .iter()
            .any(|s| s.name == "Status" && s.kind == "enum")
    );
    let method = result
        .symbols
        .iter()
        .find(|s| s.name == "is_active")
        .unwrap();
    // Parent should be the enum
    assert_eq!(method.parent_index, Some(0));
    Ok(())
}

#[test]
fn test_parse_ts_function() -> Result<(), ParseError> {
    let src = r#"
function greet(name: string): string {
    return format(name);
}
"#;
    let result = parse_source(src, SourceLanguage::TypeScript)?;
    assert!(result.symbols.iter().any(|s| s.name == "greet"));
    assert!(result.calls.iter().any(|c| c.callee_name == "format"));
    Ok(())
}

#[test]
fn test_parse_js_class_in_export() -> Result<(), ParseError> {
    let src = r#"
export class Router {
    route(path) {
        return match(path);
    }
}
"#;
    let result = parse_source(src, SourceLanguage::JavaScript)?;
    assert!(
        result
            .symbols
            .iter()
            .any(|s| s.name == "Router" && s.kind == "class")
    );
    assert!(
        result
            .symbols
            .iter()
            .any(|s| s.name == "route" && s.kind == "method")
    );
    Ok(())
}

#[test]
fn test_parse_python_nested_calls() -> Result<(), ParseError> {
    let src = r#"
def process():
    result = transform(parse(read_file("data.txt")))
"#;
    let result = parse_source(src, SourceLanguage::Python)?;
    assert!(result.calls.iter().any(|c| c.callee_name == "transform"));
    assert!(result.calls.iter().any(|c| c.callee_name == "parse"));
    assert!(result.calls.iter().any(|c| c.callee_name == "read_file"));
    Ok(())
}

#[test]
fn test_parse_empty_source() -> Result<(), ParseError> {
    let result = parse_source("", SourceLanguage::Python)?;
    assert!(result.symbols.is_empty());
    assert!(result.calls.is_empty());
    assert!(result.imports.is_empty());
    Ok(())
}

#[test]
fn test_parse_csharp_class_and_method() -> Result<(), ParseError> {
    let src = r#"
public class UserService
{
    public string GetUser(int id)
    {
        return FindById(id);
    }
}
"#;
    let result = parse_source(src, SourceLanguage::CSharp)?;
    assert!(
        result
            .symbols
            .iter()
            .any(|s| s.name == "UserService" && s.kind == "class")
    );
    let method = result.symbols.iter().find(|s| s.name == "GetUser").unwrap();
    assert_eq!(method.kind, "method");
    assert_eq!(method.parent_index, Some(0));
    assert!(result.calls.iter().any(|c| c.callee_name == "FindById"));
    Ok(())
}

#[test]
fn test_parse_csharp_interface() -> Result<(), ParseError> {
    let src = r#"
public interface IUserRepository
{
    User FindById(int id);
    void Save(User user);
}
"#;
    let result = parse_source(src, SourceLanguage::CSharp)?;
    assert!(
        result
            .symbols
            .iter()
            .any(|s| s.name == "IUserRepository" && s.kind == "interface")
    );
    Ok(())
}

#[test]
fn test_parse_csharp_enum() -> Result<(), ParseError> {
    let src = r#"
public enum UserRole
{
    Admin,
    User,
    Guest,
}
"#;
    let result = parse_source(src, SourceLanguage::CSharp)?;
    assert!(
        result
            .symbols
            .iter()
            .any(|s| s.name == "UserRole" && s.kind == "enum")
    );
    Ok(())
}

#[test]
fn test_parse_csharp_using_directive() -> Result<(), ParseError> {
    let src = r#"
using System;
using System.Collections.Generic;
using Microsoft.AspNetCore.Mvc;
"#;
    let result = parse_source(src, SourceLanguage::CSharp)?;
    assert_eq!(result.imports.len(), 3);
    assert!(result.imports.iter().any(|i| i.module == "System"));
    assert!(
        result
            .imports
            .iter()
            .any(|i| i.module.contains("AspNetCore"))
    );
    Ok(())
}

#[test]
fn test_parse_csharp_constructor() -> Result<(), ParseError> {
    let src = r#"
public class AuthService
{
    public AuthService(IUserRepository repo)
    {
        _repo = repo;
    }

    public bool Authenticate(string username, string password)
    {
        var user = _repo.FindByUsername(username);
        return ValidatePassword(user, password);
    }
}
"#;
    let result = parse_source(src, SourceLanguage::CSharp)?;
    assert!(
        result
            .symbols
            .iter()
            .any(|s| s.name == "AuthService" && s.kind == "class")
    );
    assert!(
        result
            .symbols
            .iter()
            .any(|s| s.name == "AuthService" && s.kind == "constructor")
    );
    assert!(
        result
            .symbols
            .iter()
            .any(|s| s.name == "Authenticate" && s.kind == "method")
    );
    assert!(
        result
            .calls
            .iter()
            .any(|c| c.callee_name == "FindByUsername")
    );
    assert!(
        result
            .calls
            .iter()
            .any(|c| c.callee_name == "ValidatePassword")
    );
    Ok(())
}

#[test]
fn test_parse_csharp_method_signature() -> Result<(), ParseError> {
    let src = r#"
public class Calculator
{
    public int Add(int a, int b)
    {
        return a + b;
    }
}
"#;
    let result = parse_source(src, SourceLanguage::CSharp)?;
    let method = result.symbols.iter().find(|s| s.name == "Add").unwrap();
    let sig = method.signature.as_ref().unwrap();
    assert!(sig.contains("Add"), "signature should contain method name");
    assert!(sig.contains("int"), "signature should contain return type");
    Ok(())
}

#[test]
fn test_parse_csharp_member_call() -> Result<(), ParseError> {
    let src = r#"
public class OrderService
{
    public void ProcessOrder(Order order)
    {
        var result = _db.SaveOrder(order);
        _logger.LogInfo(result);
    }
}
"#;
    let result = parse_source(src, SourceLanguage::CSharp)?;
    assert!(result.calls.iter().any(|c| c.callee_name == "SaveOrder"));
    assert!(result.calls.iter().any(|c| c.callee_name == "LogInfo"));
    Ok(())
}

#[test]
fn test_parse_csharp_struct() -> Result<(), ParseError> {
    let src = r#"
public struct Point
{
    public int X;
    public int Y;
}
"#;
    let result = parse_source(src, SourceLanguage::CSharp)?;
    assert!(
        result
            .symbols
            .iter()
            .any(|s| s.name == "Point" && s.kind == "struct")
    );
    Ok(())
}

#[test]
fn test_parse_csharp_namespace() -> Result<(), ParseError> {
    let src = r#"
namespace MyApp.Services;

public class SessionService
{
    public string CreateSession(int userId)
    {
        return GenerateToken(userId);
    }
}
"#;
    let result = parse_source(src, SourceLanguage::CSharp)?;
    // Namespace is transparent — class should be found at top level
    assert!(
        result
            .symbols
            .iter()
            .any(|s| s.name == "SessionService" && s.kind == "class")
    );
    assert!(
        result
            .calls
            .iter()
            .any(|c| c.callee_name == "GenerateToken")
    );
    Ok(())
}
