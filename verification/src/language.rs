use vstd::prelude::*;

verus! {

/// The source languages the extractor understands.
#[derive(Clone, Copy, Debug, PartialEq, Eq, Structural)]
pub enum SourceLanguage {
    Python,
    JavaScript,
    TypeScript,
    Tsx,
    Rust,
    CSharp,
}

} // verus!
