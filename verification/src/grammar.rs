//! The extraction grammar as specification functions over `Seq<u8>`.
//!
//! Each scanner takes the input and a cursor and answers with what it
//! captured and the cursor behind it, or with the reason for which it gave up.
//! Captures are spans: pairs of byte positions into the input.

use vstd::prelude::*;
use crate::bytes::{find, lemma_find, lemma_run_end, matches_at, run_end, ByteClass, CLOSE_PAREN, COMMA, TILDE};
use crate::error::{Expected, ParseError};

verus! {

/// A half-open range of byte positions of the input.
#[derive(Clone, Copy, Debug, PartialEq, Eq, Structural)]
pub struct Span {
    pub start: usize,
    pub end: usize,
}

impl Span {
    /// Whether the span is a range of positions of `s`.
    pub open spec fn within(self, s: Seq<u8>) -> bool {
        self.start <= self.end <= s.len()
    }

    /// The bytes of `s` that the span covers.
    pub open spec fn of(self, s: Seq<u8>) -> Seq<u8> {
        s.subrange(self.start as int, self.end as int)
    }
}

/// The span from `a` to `b`.
pub open spec fn span(a: int, b: int) -> Span {
    Span { start: a as usize, end: b as usize }
}

/// The spans of one argument: its type and, where a second token follows,
/// its name.
#[derive(Clone, Copy, Debug, PartialEq, Eq, Structural)]
pub struct ArgumentSpans {
    pub argument_type: Span,
    pub argument_name: Option<Span>,
}

/// The spans of one virtual method.
#[derive(Debug, PartialEq, Eq)]
pub struct MethodSpans {
    pub return_type: Span,
    pub name: Span,
    pub arguments: Vec<ArgumentSpans>,
}

/// What a [`MethodSpans`] stands for.
pub struct MethodShape {
    pub return_type: Span,
    pub name: Span,
    pub arguments: Seq<ArgumentSpans>,
}

impl View for MethodSpans {
    type V = MethodShape;

    open spec fn view(&self) -> MethodShape {
        MethodShape { return_type: self.return_type, name: self.name, arguments: self.arguments@ }
    }
}

/// The four pieces that the grammar captures from a header.
#[derive(Debug, PartialEq, Eq)]
pub struct Header {
    pub includes: Vec<Span>,
    pub namespaces: Vec<Span>,
    pub class_name: Span,
    pub methods: Vec<MethodSpans>,
}

/// What a [`Header`] stands for.
pub struct HeaderShape {
    pub includes: Seq<Span>,
    pub namespaces: Seq<Span>,
    pub class_name: Span,
    pub methods: Seq<MethodShape>,
}

/// The shapes of a sequence of methods, in order.
pub open spec fn method_shapes(methods: Seq<MethodSpans>) -> Seq<MethodShape> {
    methods.map_values(|m: MethodSpans| m@)
}

impl View for Header {
    type V = HeaderShape;

    open spec fn view(&self) -> HeaderShape {
        HeaderShape {
            includes: self.includes@,
            namespaces: self.namespaces@,
            class_name: self.class_name,
            methods: method_shapes(self.methods@),
        }
    }
}

/// The literal markers of the grammar.
#[derive(Clone, Copy, Debug, PartialEq, Eq, Structural)]
pub enum Literal {
    /// A hash sign and the directive's keyword.
    IncludeDirective,
    Namespace,
    Class,
    Struct,
    Virtual,
    OpenBrace,
    OpenParen,
    Semicolon,
}

impl Literal {
    /// The bytes of the marker.
    pub open spec fn bytes(self) -> Seq<u8> {
        match self {
            Literal::IncludeDirective => seq![0x23u8, 0x69u8, 0x6Eu8, 0x63u8, 0x6Cu8, 0x75u8, 0x64u8, 0x65u8],
            Literal::Namespace => seq![0x6Eu8, 0x61u8, 0x6Du8, 0x65u8, 0x73u8, 0x70u8, 0x61u8, 0x63u8, 0x65u8],
            Literal::Class => seq![0x63u8, 0x6Cu8, 0x61u8, 0x73u8, 0x73u8],
            Literal::Struct => seq![0x73u8, 0x74u8, 0x72u8, 0x75u8, 0x63u8, 0x74u8],
            Literal::Virtual => seq![0x76u8, 0x69u8, 0x72u8, 0x74u8, 0x75u8, 0x61u8, 0x6Cu8],
            Literal::OpenBrace => seq![0x7Bu8],
            Literal::OpenParen => seq![0x28u8],
            Literal::Semicolon => seq![0x3Bu8],
        }
    }
}

/// One inclusion directive at the cursor: whitespace, the marker, whitespace,
/// the target up to the next whitespace byte, and the whitespace behind it.
pub open spec fn one_include_spec(s: Seq<u8>, pos: int) -> Result<(Span, usize), ParseError> {
    let lit = Literal::IncludeDirective.bytes();
    let lead = run_end(s, pos, ByteClass::Whitespace);
    let head = run_end(s, lead + lit.len(), ByteClass::Whitespace);
    let tail = run_end(s, head, ByteClass::Visible);
    if !matches_at(s, lead, lit) {
        Err(ParseError::GrammarMismatch { offset: lead as usize, expected: Expected::IncludeDirective })
    } else if tail >= s.len() {
        Err(ParseError::Incomplete { offset: tail as usize, expected: Expected::Whitespace })
    } else {
        Ok((span(head, tail), run_end(s, tail, ByteClass::Whitespace) as usize))
    }
}

/// The directives that follow one another from the cursor, and the cursor
/// at which the next attempt fails. An attempt always moves the cursor
/// forward ([`lemma_one_include`]); the test on it shows that the recursion
/// ends.
pub open spec fn include_items(s: Seq<u8>, pos: int) -> (Seq<Span>, usize)
    decreases s.len() - pos,
{
    match one_include_spec(s, pos) {
        Ok((target, next)) => if pos < next <= s.len() {
            let (rest, end) = include_items(s, next as int);
            (seq![target] + rest, end)
        } else {
            (Seq::empty(), pos as usize)
        },
        Err(_) => (Seq::empty(), pos as usize),
    }
}

/// The block of directives: it starts at the first marker at or after the
/// cursor and holds at least one directive.
pub open spec fn include_block_spec(s: Seq<u8>, pos: int) -> Result<(Seq<Span>, usize), ParseError> {
    match find(s, pos, Literal::IncludeDirective.bytes()) {
        None => Err(ParseError::Incomplete { offset: pos as usize, expected: Expected::IncludeDirective }),
        Some(first) => {
            let (items, end) = include_items(s, first);
            if items.len() == 0 {
                Err(ParseError::Incomplete { offset: first as usize, expected: Expected::Whitespace })
            } else {
                Ok((items, end))
            }
        },
    }
}

/// What follows a keyword that introduces a named block: whitespace, the
/// alphanumeric name, anything up to the next opening brace, the brace, and
/// the whitespace behind it.
pub open spec fn named_block_spec(s: Seq<u8>, pos: int) -> Result<(Span, usize), ParseError> {
    let lead = run_end(s, pos, ByteClass::Whitespace);
    let head = run_end(s, lead, ByteClass::Alphanumeric);
    match find(s, head, Literal::OpenBrace.bytes()) {
        None => Err(ParseError::GrammarMismatch { offset: head as usize, expected: Expected::OpenBrace }),
        Some(brace) => Ok((span(lead, head), run_end(s, brace + 1, ByteClass::Whitespace) as usize)),
    }
}

/// One namespace opening at the cursor: whitespace, the keyword, and the
/// named block.
pub open spec fn one_namespace_spec(s: Seq<u8>, pos: int) -> Result<(Span, usize), ParseError> {
    let lit = Literal::Namespace.bytes();
    let lead = run_end(s, pos, ByteClass::Whitespace);
    if !matches_at(s, lead, lit) {
        Err(ParseError::GrammarMismatch { offset: lead as usize, expected: Expected::Namespace })
    } else {
        named_block_spec(s, lead + lit.len())
    }
}

/// The namespace openings that follow one another from the cursor, outermost
/// first, and the cursor at which the next attempt fails. An attempt always
/// moves the cursor forward ([`lemma_one_namespace`]); the test on it shows
/// that the recursion ends.
pub open spec fn namespace_items(s: Seq<u8>, pos: int) -> (Seq<Span>, usize)
    decreases s.len() - pos,
{
    match one_namespace_spec(s, pos) {
        Ok((name, next)) => if pos < next <= s.len() {
            let (rest, end) = namespace_items(s, next as int);
            (seq![name] + rest, end)
        } else {
            (Seq::empty(), pos as usize)
        },
        Err(_) => (Seq::empty(), pos as usize),
    }
}

/// The chain of namespaces: it starts at the first keyword at or after the
/// cursor and holds at least one opening.
pub open spec fn namespaces_spec(s: Seq<u8>, pos: int) -> Result<(Seq<Span>, usize), ParseError> {
    match find(s, pos, Literal::Namespace.bytes()) {
        None => Err(ParseError::Incomplete { offset: pos as usize, expected: Expected::Namespace }),
        Some(first) => {
            let (items, end) = namespace_items(s, first);
            if items.len() == 0 {
                Err(ParseError::Incomplete { offset: first as usize, expected: Expected::OpenBrace })
            } else {
                Ok((items, end))
            }
        },
    }
}

/// The position behind whichever of the two keywords `class` and `struct`
/// stands first at or after the cursor.
pub open spec fn class_keyword_end(s: Seq<u8>, pos: int) -> Option<int> {
    let c = find(s, pos, Literal::Class.bytes());
    let t = find(s, pos, Literal::Struct.bytes());
    match (c, t) {
        (Some(c), Some(t)) => if c < t {
            Some(c + Literal::Class.bytes().len())
        } else {
            Some(t + Literal::Struct.bytes().len())
        },
        (Some(c), None) => Some(c + Literal::Class.bytes().len()),
        (None, Some(t)) => Some(t + Literal::Struct.bytes().len()),
        (None, None) => None,
    }
}

/// The class header: everything up to the first keyword, and the named block
/// behind it.
pub open spec fn class_name_spec(s: Seq<u8>, pos: int) -> Result<(Span, usize), ParseError> {
    match class_keyword_end(s, pos) {
        None => Err(ParseError::GrammarMismatch { offset: pos as usize, expected: Expected::ClassKeyword }),
        Some(k) => named_block_spec(s, k),
    }
}

/// One argument at the cursor: whitespace, the type token, whitespace, the
/// name token if there is one, and anything up to the delimiter. The second
/// component is the position of that delimiter, a comma or a closing
/// parenthesis.
pub open spec fn one_argument_spec(s: Seq<u8>, pos: int) -> Result<(ArgumentSpans, usize), ParseError> {
    let t0 = run_end(s, pos, ByteClass::Whitespace);
    let t1 = run_end(s, t0, ByteClass::Token);
    let n0 = run_end(s, t1, ByteClass::Whitespace);
    let n1 = run_end(s, n0, ByteClass::Token);
    let d = run_end(s, n1, ByteClass::Undelimited);
    if t1 == t0 {
        Err(ParseError::GrammarMismatch { offset: t0 as usize, expected: Expected::Token })
    } else if d >= s.len() {
        Err(ParseError::GrammarMismatch { offset: d as usize, expected: Expected::CloseParen })
    } else {
        Ok((
            ArgumentSpans {
                argument_type: span(t0, t1),
                argument_name: if n1 > n0 { Some(span(n0, n1)) } else { None },
            },
            d as usize,
        ))
    }
}

/// The arguments from the cursor to the first closing parenthesis, one for
/// each piece between commas, and the cursor behind the parenthesis. The
/// delimiter never stands before the cursor ([`lemma_one_argument`]); the test
/// on it shows that the recursion ends.
pub open spec fn argument_list_spec(s: Seq<u8>, pos: int) -> Result<(Seq<ArgumentSpans>, usize), ParseError>
    decreases s.len() - pos,
{
    match one_argument_spec(s, pos) {
        Err(e) => Err(e),
        Ok((argument, d)) => if pos <= d < s.len() && s[d as int] == COMMA {
            match argument_list_spec(s, d + 1) {
                Err(e) => Err(e),
                Ok((rest, end)) => Ok((seq![argument] + rest, end)),
            }
        } else {
            Ok((seq![argument], (d + 1) as usize))
        },
    }
}

/// The argument list behind an opening parenthesis: none where only
/// whitespace stands before the closing parenthesis.
pub open spec fn arguments_spec(s: Seq<u8>, pos: int) -> Result<(Seq<ArgumentSpans>, usize), ParseError> {
    let p = run_end(s, pos, ByteClass::Whitespace);
    if 0 <= p < s.len() && s[p] == CLOSE_PAREN {
        Ok((Seq::empty(), (p + 1) as usize))
    } else {
        argument_list_spec(s, pos)
    }
}

/// The end of a method's name that starts at the cursor: an alphanumeric
/// run, with a tilde before it where the cursor is at one.
pub open spec fn method_name_end(s: Seq<u8>, pos: int) -> int {
    if 0 <= pos < s.len() && s[pos] == TILDE {
        run_end(s, pos + 1, ByteClass::Alphanumeric)
    } else {
        run_end(s, pos, ByteClass::Alphanumeric)
    }
}

/// One method: everything up to the next `virtual`, the return type, the
/// name, the argument list between the next parentheses, and everything up
/// to the next semicolon.
pub open spec fn method_spec(s: Seq<u8>, pos: int) -> Result<(MethodShape, usize), ParseError> {
    match find(s, pos, Literal::Virtual.bytes()) {
        None => Err(ParseError::GrammarMismatch { offset: pos as usize, expected: Expected::Virtual }),
        Some(v) => {
            let r0 = run_end(s, v + Literal::Virtual.bytes().len(), ByteClass::Whitespace);
            let r1 = run_end(s, r0, ByteClass::Alphanumeric);
            let n0 = run_end(s, r1, ByteClass::Whitespace);
            let n1 = method_name_end(s, n0);
            match find(s, n1, Literal::OpenParen.bytes()) {
                None => Err(ParseError::GrammarMismatch { offset: n1 as usize, expected: Expected::OpenParen }),
                Some(open) => match arguments_spec(s, open + 1) {
                    Err(e) => Err(e),
                    Ok((arguments, after)) => match find(s, after as int, Literal::Semicolon.bytes()) {
                        None => Err(ParseError::GrammarMismatch { offset: after, expected: Expected::Semicolon }),
                        Some(semi) => Ok((
                            MethodShape { return_type: span(r0, r1), name: span(n0, n1), arguments },
                            (semi + 1) as usize,
                        )),
                    },
                },
            }
        },
    }
}

/// The methods that follow one another from the cursor, in source order: the
/// sequence ends where an attempt fails. An attempt always moves the cursor
/// forward ([`lemma_method`]); the test on it shows that the recursion ends.
pub open spec fn method_items(s: Seq<u8>, pos: int) -> Seq<MethodShape>
    decreases s.len() - pos,
{
    match method_spec(s, pos) {
        Ok((m, next)) => if pos < next <= s.len() {
            seq![m] + method_items(s, next as int)
        } else {
            Seq::empty()
        },
        Err(_) => Seq::empty(),
    }
}

/// The whole header: the block of directives, the chain of namespaces, the
/// class header and the methods, each from where the one before it stopped.
pub open spec fn header_spec(s: Seq<u8>) -> Result<HeaderShape, ParseError> {
    match include_block_spec(s, 0) {
        Err(e) => Err(e),
        Ok((includes, c1)) => match namespaces_spec(s, c1 as int) {
            Err(e) => Err(e),
            Ok((namespaces, c2)) => match class_name_spec(s, c2 as int) {
                Err(e) => Err(e),
                Ok((class_name, c3)) => Ok(
                    HeaderShape { includes, namespaces, class_name, methods: method_items(s, c3 as int) },
                ),
            },
        },
    }
}

/// A directive that is found lies within the input, and the cursor behind it
/// is past the cursor before it.
pub proof fn lemma_one_include(s: Seq<u8>, pos: int)
    requires
        0 <= pos <= s.len() <= usize::MAX,
    ensures
        match one_include_spec(s, pos) {
            Ok((target, next)) => pos < target.start < target.end < next <= s.len(),
            Err(_) => true,
        },
{
    let lit = Literal::IncludeDirective.bytes();
    let lead = run_end(s, pos, ByteClass::Whitespace);
    lemma_run_end(s, pos, ByteClass::Whitespace);
    if matches_at(s, lead, lit) {
        let head = run_end(s, lead + lit.len(), ByteClass::Whitespace);
        lemma_run_end(s, lead + lit.len(), ByteClass::Whitespace);
        let tail = run_end(s, head, ByteClass::Visible);
        lemma_run_end(s, head, ByteClass::Visible);
        if tail < s.len() {
            lemma_run_end(s, tail, ByteClass::Whitespace);
        }
    }
}

/// A named block that is found lies within the input, and the cursor behind
/// it is past the cursor before it.
pub proof fn lemma_named_block(s: Seq<u8>, pos: int)
    requires
        0 <= pos <= s.len() <= usize::MAX,
    ensures
        match named_block_spec(s, pos) {
            Ok((name, next)) => pos <= name.start <= name.end < next <= s.len(),
            Err(_) => true,
        },
{
    let lead = run_end(s, pos, ByteClass::Whitespace);
    lemma_run_end(s, pos, ByteClass::Whitespace);
    let head = run_end(s, lead, ByteClass::Alphanumeric);
    lemma_run_end(s, lead, ByteClass::Alphanumeric);
    lemma_find(s, head, Literal::OpenBrace.bytes());
    match find(s, head, Literal::OpenBrace.bytes()) {
        Some(brace) => {
            lemma_run_end(s, brace + 1, ByteClass::Whitespace);
        },
        None => {},
    }
}

/// A namespace opening that is found lies within the input, and the cursor
/// behind it is past the cursor before it.
pub proof fn lemma_one_namespace(s: Seq<u8>, pos: int)
    requires
        0 <= pos <= s.len() <= usize::MAX,
    ensures
        match one_namespace_spec(s, pos) {
            Ok((name, next)) => pos < name.start <= name.end < next <= s.len(),
            Err(_) => true,
        },
{
    let lit = Literal::Namespace.bytes();
    let lead = run_end(s, pos, ByteClass::Whitespace);
    lemma_run_end(s, pos, ByteClass::Whitespace);
    if matches_at(s, lead, lit) {
        lemma_named_block(s, lead + lit.len());
    }
}

/// A class header that is found lies within the input.
pub proof fn lemma_class_name(s: Seq<u8>, pos: int)
    requires
        0 <= pos <= s.len() <= usize::MAX,
    ensures
        match class_name_spec(s, pos) {
            Ok((name, next)) => pos < name.start <= name.end < next <= s.len(),
            Err(_) => true,
        },
{
    lemma_find(s, pos, Literal::Class.bytes());
    lemma_find(s, pos, Literal::Struct.bytes());
    match class_keyword_end(s, pos) {
        Some(k) => {
            lemma_named_block(s, k);
        },
        None => {},
    }
}

/// An argument that is found lies within the input and before its
/// delimiter, which is a comma or a closing parenthesis.
pub proof fn lemma_one_argument(s: Seq<u8>, pos: int)
    requires
        0 <= pos <= s.len() <= usize::MAX,
    ensures
        match one_argument_spec(s, pos) {
            Ok((a, d)) => {
                &&& pos <= a.argument_type.start < a.argument_type.end <= d < s.len()
                &&& (s[d as int] == COMMA || s[d as int] == CLOSE_PAREN)
                &&& match a.argument_name {
                    Some(n) => a.argument_type.end < n.start < n.end <= d,
                    None => true,
                }
            },
            Err(_) => true,
        },
{
    let t0 = run_end(s, pos, ByteClass::Whitespace);
    lemma_run_end(s, pos, ByteClass::Whitespace);
    let t1 = run_end(s, t0, ByteClass::Token);
    lemma_run_end(s, t0, ByteClass::Token);
    let n0 = run_end(s, t1, ByteClass::Whitespace);
    lemma_run_end(s, t1, ByteClass::Whitespace);
    let n1 = run_end(s, n0, ByteClass::Token);
    lemma_run_end(s, n0, ByteClass::Token);
    lemma_run_end(s, n1, ByteClass::Undelimited);
    if n1 > n0 && n0 == t1 {
        assert(ByteClass::Token.holds(s[n0]));
    }
}

/// An argument list that is found ends within the input, behind the cursor.
pub proof fn lemma_argument_list(s: Seq<u8>, pos: int)
    requires
        0 <= pos <= s.len() <= usize::MAX,
    ensures
        match argument_list_spec(s, pos) {
            Ok((args, end)) => pos < end <= s.len() && args.len() >= 1,
            Err(_) => true,
        },
    decreases s.len() - pos,
{
    lemma_one_argument(s, pos);
    match one_argument_spec(s, pos) {
        Ok((a, d)) => {
            if s[d as int] == COMMA {
                lemma_argument_list(s, d + 1);
            }
        },
        Err(_) => {},
    }
}

/// A method that is found ends within the input, behind the cursor.
pub proof fn lemma_method(s: Seq<u8>, pos: int)
    requires
        0 <= pos <= s.len() <= usize::MAX,
    ensures
        match method_spec(s, pos) {
            Ok((m, next)) => {
                &&& pos < m.return_type.start <= m.return_type.end <= m.name.start <= m.name.end < next <= s.len()
            },
            Err(_) => true,
        },
{
    lemma_find(s, pos, Literal::Virtual.bytes());
    match find(s, pos, Literal::Virtual.bytes()) {
        Some(v) => {
            let r0 = run_end(s, v + Literal::Virtual.bytes().len(), ByteClass::Whitespace);
            lemma_run_end(s, v + Literal::Virtual.bytes().len(), ByteClass::Whitespace);
            let r1 = run_end(s, r0, ByteClass::Alphanumeric);
            lemma_run_end(s, r0, ByteClass::Alphanumeric);
            let n0 = run_end(s, r1, ByteClass::Whitespace);
            lemma_run_end(s, r1, ByteClass::Whitespace);
            let n1 = method_name_end(s, n0);
            lemma_run_end(s, n0, ByteClass::Alphanumeric);
            if n0 < s.len() {
                lemma_run_end(s, n0 + 1, ByteClass::Alphanumeric);
            }
            lemma_find(s, n1, Literal::OpenParen.bytes());
            match find(s, n1, Literal::OpenParen.bytes()) {
                Some(open) => {
                    lemma_run_end(s, open + 1, ByteClass::Whitespace);
                    lemma_argument_list(s, open + 1);
                    match arguments_spec(s, open + 1) {
                        Ok((args, after)) => {
                            lemma_find(s, after as int, Literal::Semicolon.bytes());
                        },
                        Err(_) => {},
                    }
                },
                None => {},
            }
        },
        None => {},
    }
}

} // verus!
