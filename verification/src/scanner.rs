//! The scanners: executable counterparts of the grammar's specification
//! functions. Each takes the input and a cursor and is proved to return
//! exactly what its specification function says.

use vstd::prelude::*;
use crate::bytes::{find_literal, skip_run, starts_with_at, ByteClass, CLOSE_PAREN, COMMA, TILDE};
use crate::error::{Expected, ParseError};
use crate::grammar::{
    argument_list_spec, arguments_spec, class_name_spec, header_spec, include_block_spec,
    include_items, lemma_method, lemma_one_argument, lemma_one_include, lemma_one_namespace,
    method_items, method_shapes, method_spec, named_block_spec, namespace_items, namespaces_spec,
    one_argument_spec, one_include_spec, one_namespace_spec, ArgumentSpans, Header, Literal,
    MethodShape, MethodSpans, Span,
};

verus! {

/// The bytes of a literal marker.
pub fn literal_bytes(lit: Literal) -> (v: Vec<u8>)
    ensures
        v@ == lit.bytes(),
{
    let v: Vec<u8> = match lit {
        Literal::IncludeDirective => vec![0x23u8, 0x69u8, 0x6Eu8, 0x63u8, 0x6Cu8, 0x75u8, 0x64u8, 0x65u8],
        Literal::Namespace => vec![0x6Eu8, 0x61u8, 0x6Du8, 0x65u8, 0x73u8, 0x70u8, 0x61u8, 0x63u8, 0x65u8],
        Literal::Class => vec![0x63u8, 0x6Cu8, 0x61u8, 0x73u8, 0x73u8],
        Literal::Struct => vec![0x73u8, 0x74u8, 0x72u8, 0x75u8, 0x63u8, 0x74u8],
        Literal::Virtual => vec![0x76u8, 0x69u8, 0x72u8, 0x74u8, 0x75u8, 0x61u8, 0x6Cu8],
        Literal::OpenBrace => vec![0x7Bu8],
        Literal::OpenParen => vec![0x28u8],
        Literal::Semicolon => vec![0x3Bu8],
    };
    proof {
        assert(v@ =~= lit.bytes());
    }
    v
}

/// Scans one inclusion directive at the cursor and returns the span of its
/// target and the cursor behind the whitespace that follows it.
pub fn one_include(input: &[u8], pos: usize) -> (res: Result<(Span, usize), ParseError>)
    ensures
        res == one_include_spec(input@, pos as int),
{
    let lit = literal_bytes(Literal::IncludeDirective);
    let lead: usize = skip_run(input, pos, ByteClass::Whitespace);
    if !starts_with_at(input, lead, lit.as_slice()) {
        return Err(ParseError::GrammarMismatch { offset: lead, expected: Expected::IncludeDirective });
    }
    let head: usize = skip_run(input, lead + lit.len(), ByteClass::Whitespace);
    let tail: usize = skip_run(input, head, ByteClass::Visible);
    if tail >= input.len() {
        return Err(ParseError::Incomplete { offset: tail, expected: Expected::Whitespace });
    }
    let next: usize = skip_run(input, tail, ByteClass::Whitespace);
    Ok((Span { start: head, end: tail }, next))
}

/// Scans the block of inclusion directives that starts at the first marker
/// at or after the cursor, and returns the spans of their targets in source
/// order and the cursor behind the block.
pub fn include_block(input: &[u8], pos: usize) -> (res: Result<(Vec<Span>, usize), ParseError>)
    ensures
        match include_block_spec(input@, pos as int) {
            Ok((items, end)) => res matches Ok((v, next)) && v@ == items && next == end,
            Err(e) => res matches Err(x) && x == e,
        },        input@.len() <= usize::MAX,
{
    let lit = literal_bytes(Literal::IncludeDirective);
    let first: usize = match find_literal(input, pos, lit.as_slice()) {
        None => {
            return Err(ParseError::Incomplete { offset: pos, expected: Expected::IncludeDirective });
        },
        Some(i) => i,
    };
    let mut items: Vec<Span> = Vec::new();
    let mut cur: usize = first;
    let mut done: bool = false;
    while !done
        invariant
            cur <= input@.len() <= usize::MAX,
            include_items(input@, first as int).0 == items@ + include_items(input@, cur as int).0,
            include_items(input@, first as int).1 == include_items(input@, cur as int).1,
            done ==> one_include_spec(input@, cur as int) is Err,
        decreases input@.len() - cur, if done { 0int } else { 1int },
    {
        match one_include(input, cur) {
            Ok((target, next)) => {
                proof {
                    lemma_one_include(input@, cur as int);
                    let rest = include_items(input@, next as int).0;
                    assert(items@ + (seq![target] + rest) =~= items@.push(target) + rest);
                }
                items.push(target);
                cur = next;
            },
            Err(_) => {
                done = true;
            },
        }
    }
    proof {
        assert(items@ + Seq::<Span>::empty() =~= items@);
    }
    if items.len() == 0 {
        Err(ParseError::Incomplete { offset: first, expected: Expected::Whitespace })
    } else {
        Ok((items, cur))
    }
}

/// Scans what follows a keyword that introduces a named block.
pub fn named_block(input: &[u8], pos: usize) -> (res: Result<(Span, usize), ParseError>)
    ensures
        res == named_block_spec(input@, pos as int),
{
    let brace = literal_bytes(Literal::OpenBrace);
    let lead: usize = skip_run(input, pos, ByteClass::Whitespace);
    let head: usize = skip_run(input, lead, ByteClass::Alphanumeric);
    match find_literal(input, head, brace.as_slice()) {
        None => Err(ParseError::GrammarMismatch { offset: head, expected: Expected::OpenBrace }),
        Some(b) => {
            let next: usize = skip_run(input, b + 1, ByteClass::Whitespace);
            Ok((Span { start: lead, end: head }, next))
        },
    }
}

/// Scans one namespace opening at the cursor and returns the span of its
/// name and the cursor behind the whitespace that follows its brace.
pub fn one_namespace(input: &[u8], pos: usize) -> (res: Result<(Span, usize), ParseError>)
    ensures
        res == one_namespace_spec(input@, pos as int),
{
    let lit = literal_bytes(Literal::Namespace);
    let lead: usize = skip_run(input, pos, ByteClass::Whitespace);
    if !starts_with_at(input, lead, lit.as_slice()) {
        return Err(ParseError::GrammarMismatch { offset: lead, expected: Expected::Namespace });
    }
    named_block(input, lead + lit.len())
}

/// Scans the chain of namespace openings that starts at the first keyword
/// at or after the cursor, and returns the spans of their names, outermost
/// first, and the cursor behind the chain.
pub fn namespaces(input: &[u8], pos: usize) -> (res: Result<(Vec<Span>, usize), ParseError>)
    ensures
        match namespaces_spec(input@, pos as int) {
            Ok((items, end)) => res matches Ok((v, next)) && v@ == items && next == end,
            Err(e) => res matches Err(x) && x == e,
        },
{
    let lit = literal_bytes(Literal::Namespace);
    let first: usize = match find_literal(input, pos, lit.as_slice()) {
        None => {
            return Err(ParseError::Incomplete { offset: pos, expected: Expected::Namespace });
        },
        Some(i) => i,
    };
    let mut items: Vec<Span> = Vec::new();
    let mut cur: usize = first;
    let mut done: bool = false;
    while !done
        invariant
            cur <= input@.len() <= usize::MAX,
            namespace_items(input@, first as int).0 == items@ + namespace_items(input@, cur as int).0,
            namespace_items(input@, first as int).1 == namespace_items(input@, cur as int).1,
            done ==> one_namespace_spec(input@, cur as int) is Err,
        decreases input@.len() - cur, if done { 0int } else { 1int },
    {
        match one_namespace(input, cur) {
            Ok((name, next)) => {
                proof {
                    lemma_one_namespace(input@, cur as int);
                    let rest = namespace_items(input@, next as int).0;
                    assert(items@ + (seq![name] + rest) =~= items@.push(name) + rest);
                }
                items.push(name);
                cur = next;
            },
            Err(_) => {
                done = true;
            },
        }
    }
    proof {
        assert(items@ + Seq::<Span>::empty() =~= items@);
    }
    if items.len() == 0 {
        Err(ParseError::Incomplete { offset: first, expected: Expected::OpenBrace })
    } else {
        Ok((items, cur))
    }
}

/// Scans forward to whichever of `class` and `struct` stands first, and
/// returns the span of the name behind it and the cursor behind the
/// whitespace that follows the next opening brace.
pub fn class_name(input: &[u8], pos: usize) -> (res: Result<(Span, usize), ParseError>)
    ensures
        res == class_name_spec(input@, pos as int),
{
    let class_lit = literal_bytes(Literal::Class);
    let struct_lit = literal_bytes(Literal::Struct);
    let c = find_literal(input, pos, class_lit.as_slice());
    let t = find_literal(input, pos, struct_lit.as_slice());
    let after: usize = match (c, t) {
        (Some(c), Some(t)) => if c < t {
            c + class_lit.len()
        } else {
            t + struct_lit.len()
        },
        (Some(c), None) => c + class_lit.len(),
        (None, Some(t)) => t + struct_lit.len(),
        (None, None) => {
            return Err(ParseError::GrammarMismatch { offset: pos, expected: Expected::ClassKeyword });
        },
    };
    named_block(input, after)
}

/// Scans one argument at the cursor and returns its spans and the position
/// of the delimiter behind it.
pub fn one_argument(input: &[u8], pos: usize) -> (res: Result<(ArgumentSpans, usize), ParseError>)
    ensures
        res == one_argument_spec(input@, pos as int),
{
    let t0: usize = skip_run(input, pos, ByteClass::Whitespace);
    let t1: usize = skip_run(input, t0, ByteClass::Token);
    let n0: usize = skip_run(input, t1, ByteClass::Whitespace);
    let n1: usize = skip_run(input, n0, ByteClass::Token);
    let d: usize = skip_run(input, n1, ByteClass::Undelimited);
    if t1 == t0 {
        Err(ParseError::GrammarMismatch { offset: t0, expected: Expected::Token })
    } else if d >= input.len() {
        Err(ParseError::GrammarMismatch { offset: d, expected: Expected::CloseParen })
    } else {
        let argument_name = if n1 > n0 {
            Some(Span { start: n0, end: n1 })
        } else {
            None
        };
        Ok((ArgumentSpans { argument_type: Span { start: t0, end: t1 }, argument_name }, d))
    }
}

/// What an argument list is once the arguments `acc` have been scanned and
/// `rest` is what the scan of the remainder gives.
pub open spec fn with_scanned(
    acc: Seq<ArgumentSpans>,
    rest: Result<(Seq<ArgumentSpans>, usize), ParseError>,
) -> Result<(Seq<ArgumentSpans>, usize), ParseError> {
    match rest {
        Ok((tail, end)) => Ok((acc + tail, end)),
        Err(e) => Err(e),
    }
}

/// Scans the argument list behind an opening parenthesis and returns the
/// spans of its arguments in declaration order and the cursor behind the
/// closing parenthesis.
pub fn arguments(input: &[u8], pos: usize) -> (res: Result<(Vec<ArgumentSpans>, usize), ParseError>)
    ensures
        match arguments_spec(input@, pos as int) {
            Ok((items, end)) => res matches Ok((v, next)) && v@ == items && next == end,
            Err(e) => res matches Err(x) && x == e,
        },
{
    if pos > input.len() {
        return Err(ParseError::GrammarMismatch { offset: pos, expected: Expected::Token });
    }
    let p: usize = skip_run(input, pos, ByteClass::Whitespace);
    if p < input.len() && input[p] == CLOSE_PAREN {
        return Ok((Vec::new(), p + 1));
    }
    let mut items: Vec<ArgumentSpans> = Vec::new();
    let mut cur: usize = pos;
    proof {
        assert(Seq::<ArgumentSpans>::empty() + argument_list_spec(input@, pos as int)->Ok_0.0
            =~= argument_list_spec(input@, pos as int)->Ok_0.0);
    }
    loop
        invariant
            cur <= input@.len() <= usize::MAX,
            arguments_spec(input@, pos as int) == with_scanned(
                items@,
                argument_list_spec(input@, cur as int),
            ),
        decreases input@.len() - cur,
    {
        match one_argument(input, cur) {
            Err(e) => {
                return Err(e);
            },
            Ok((argument, d)) => {
                proof {
                    lemma_one_argument(input@, cur as int);
                }
                let ghost before = items@;
                items.push(argument);
                if input[d] == COMMA {
                    proof {
                        match argument_list_spec(input@, d + 1) {
                            Ok((tail, end)) => {
                                assert(before + (seq![argument] + tail) =~= items@ + tail);
                            },
                            Err(_) => {},
                        }
                    }
                    cur = d + 1;
                } else {
                    proof {
                        assert(before + seq![argument] =~= items@);
                    }
                    return Ok((items, d + 1));
                }
            },
        }
    }
}

/// Scans forward to the next `virtual` and returns the spans of the method
/// behind it and the cursor behind its semicolon.
pub fn method_spans(input: &[u8], pos: usize) -> (res: Result<(MethodSpans, usize), ParseError>)
    ensures
        match method_spec(input@, pos as int) {
            Ok((m, end)) => res matches Ok((r, next)) && r@ == m && next == end,
            Err(e) => res matches Err(x) && x == e,
        },
{
    let virtual_lit = literal_bytes(Literal::Virtual);
    let paren = literal_bytes(Literal::OpenParen);
    let semicolon = literal_bytes(Literal::Semicolon);
    let v: usize = match find_literal(input, pos, virtual_lit.as_slice()) {
        None => {
            return Err(ParseError::GrammarMismatch { offset: pos, expected: Expected::Virtual });
        },
        Some(v) => v,
    };
    let r0: usize = skip_run(input, v + virtual_lit.len(), ByteClass::Whitespace);
    let r1: usize = skip_run(input, r0, ByteClass::Alphanumeric);
    let n0: usize = skip_run(input, r1, ByteClass::Whitespace);
    let n1: usize = if n0 < input.len() && input[n0] == TILDE {
        skip_run(input, n0 + 1, ByteClass::Alphanumeric)
    } else {
        skip_run(input, n0, ByteClass::Alphanumeric)
    };
    let open: usize = match find_literal(input, n1, paren.as_slice()) {
        None => {
            return Err(ParseError::GrammarMismatch { offset: n1, expected: Expected::OpenParen });
        },
        Some(open) => open,
    };
    let (args, after) = match arguments(input, open + 1) {
        Err(e) => {
            return Err(e);
        },
        Ok(found) => found,
    };
    match find_literal(input, after, semicolon.as_slice()) {
        None => Err(ParseError::GrammarMismatch { offset: after, expected: Expected::Semicolon }),
        Some(semi) => Ok(
            (
                MethodSpans {
                    return_type: Span { start: r0, end: r1 },
                    name: Span { start: n0, end: n1 },
                    arguments: args,
                },
                semi + 1,
            ),
        ),
    }
}

/// Scans the methods that follow one another from the cursor and returns
/// their spans in source order; none where no method is found.
pub fn methods(input: &[u8], pos: usize) -> (res: Vec<MethodSpans>)
    ensures
        method_shapes(res@) == method_items(input@, pos as int),
{
    let mut items: Vec<MethodSpans> = Vec::new();
    proof {
        assert(method_shapes(items@) =~= Seq::<MethodShape>::empty());
    }
    if pos > input.len() {
        return items;
    }
    let mut cur: usize = pos;
    let mut done: bool = false;
    while !done
        invariant
            cur <= input@.len() <= usize::MAX,
            method_items(input@, pos as int) == method_shapes(items@) + method_items(
                input@,
                cur as int,
            ),
            done ==> method_spec(input@, cur as int) is Err,
        decreases input@.len() - cur, if done { 0int } else { 1int },
    {
        match method_spans(input, cur) {
            Ok((m, next)) => {
                proof {
                    lemma_method(input@, cur as int);
                    let rest = method_items(input@, next as int);
                    assert(method_shapes(items@.push(m)) =~= method_shapes(items@).push(m@));
                    assert(method_shapes(items@) + (seq![m@] + rest) =~= method_shapes(items@).push(
                        m@,
                    ) + rest);
                }
                items.push(m);
                cur = next;
            },
            Err(_) => {
                done = true;
            },
        }
    }
    proof {
        assert(method_shapes(items@) + Seq::<MethodShape>::empty() =~= method_shapes(items@));
    }
    items
}

/// Scans a whole header: the block of inclusion directives, the chain of
/// namespaces, the class header and the methods, each from where the one
/// before it stopped.
pub fn header(input: &[u8]) -> (res: Result<Header, ParseError>)
    ensures
        match header_spec(input@) {
            Ok(h) => res matches Ok(r) && r@ == h,
            Err(e) => res matches Err(x) && x == e,
        },        input@.len() <= usize::MAX,
{
    let (includes, c1) = match include_block(input, 0) {
        Err(e) => {
            return Err(e);
        },
        Ok(found) => found,
    };
    let (namespaces, c2) = match namespaces(input, c1) {
        Err(e) => {
            return Err(e);
        },
        Ok(found) => found,
    };
    let (class_name, c3) = match class_name(input, c2) {
        Err(e) => {
            return Err(e);
        },
        Ok(found) => found,
    };
    let methods = methods(input, c3);
    Ok(Header { includes, namespaces, class_name, methods })
}

} // verus!
