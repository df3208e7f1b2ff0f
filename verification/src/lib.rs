//! Structural summaries of C++ interface headers.
//!
//! The crate scans the bytes of one header, left to right, for its inclusion
//! directives, its chain of namespaces, the name of its first class or struct
//! and the virtual methods that follow, and packages what it captured as a
//! [`Model`]. Every scanner is a function of the input and a cursor, and its
//! contract equates its result with a specification function over `Seq<u8>`.

pub mod boundaries;
pub mod bytes;
pub mod error;
pub mod grammar;
pub mod laws;
pub mod model;
pub mod order;
pub mod scanner;

pub use error::{Expected, Field, ParseError};
pub use grammar::{ArgumentSpans, Header, MethodSpans, Span};
pub use model::{
    assemble, make_argument, make_method, method, parse, parse_bytes, Argument, Class, Method,
    Model,
};
pub use scanner::{
    arguments, class_name, header, include_block, methods, namespaces, one_include, one_namespace,
};
