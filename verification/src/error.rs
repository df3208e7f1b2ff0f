//! The ways in which a header can fail to parse.

use vstd::prelude::*;

verus! {

/// What a scanner was looking for when it gave up.
#[derive(Clone, Copy, Debug, PartialEq, Eq, Structural)]
pub enum Expected {
    /// The literal that opens an inclusion directive.
    IncludeDirective,
    /// The literal `namespace`.
    Namespace,
    /// One of the literals `class` and `struct`.
    ClassKeyword,
    /// The literal `virtual`.
    Virtual,
    /// An opening brace.
    OpenBrace,
    /// An opening parenthesis.
    OpenParen,
    /// A closing parenthesis.
    CloseParen,
    /// A semicolon.
    Semicolon,
    /// A whitespace byte that ends a captured target.
    Whitespace,
    /// A token between two delimiters of an argument list.
    Token,
}

/// The captured piece in which a span did not decode as text.
#[derive(Clone, Copy, Debug, PartialEq, Eq, Structural)]
pub enum Field {
    Includes,
    Namespaces,
    ClassName,
    Methods,
}

/// Why no model was produced. `offset` is the byte position at which the
/// scanner stood when it found that `expected` was missing.
#[derive(Clone, Copy, Debug, PartialEq, Eq, Structural)]
pub enum ParseError {
    /// A required marker was not where the grammar requires it.
    GrammarMismatch { offset: usize, expected: Expected },
    /// The input ended before a block that needs at least one item had one.
    Incomplete { offset: usize, expected: Expected },
    /// A captured span is not valid UTF-8.
    MalformedUtf8 { field: Field },
}

} // verus!
