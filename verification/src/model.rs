//! The model of a header and its assembly from the spans that the grammar
//! captured.

use vstd::prelude::*;
use vstd::slice::{slice_subrange, slice_to_vec};
use vstd::string::StringSliceAdditionalSpecFns;
use vstd::utf8::{decode_utf8, encode_utf8_valid_utf8, valid_utf8};
use crate::boundaries::law_text_always_decodes;
use crate::error::{Field, ParseError};
use crate::grammar::{
    header_spec, method_spec, ArgumentSpans, Header, HeaderShape, MethodShape, MethodSpans, Span,
};
use crate::scanner::{header, method_spans};

verus! {

/// One argument of a method.
#[derive(Debug, PartialEq)]
pub struct Argument {
    pub argument_type: String,
    pub argument_name: Option<String>,
}

/// What an [`Argument`] stands for.
pub struct ArgumentView {
    pub argument_type: Seq<char>,
    pub argument_name: Option<Seq<char>>,
}

impl View for Argument {
    type V = ArgumentView;

    open spec fn view(&self) -> ArgumentView {
        ArgumentView {
            argument_type: self.argument_type@,
            argument_name: match self.argument_name {
                Some(n) => Some(n@),
                None => None,
            },
        }
    }
}

/// One virtual method of a class.
#[derive(Debug, PartialEq)]
pub struct Method {
    pub return_value: Option<String>,
    pub name: String,
    pub is_pure_virtual: bool,
    pub arguments: Vec<Argument>,
}

/// What a [`Method`] stands for.
pub struct MethodView {
    pub return_value: Option<Seq<char>>,
    pub name: Seq<char>,
    pub is_pure_virtual: bool,
    pub arguments: Seq<ArgumentView>,
}

impl View for Method {
    type V = MethodView;

    open spec fn view(&self) -> MethodView {
        MethodView {
            return_value: match self.return_value {
                Some(r) => Some(r@),
                None => None,
            },
            name: self.name@,
            is_pure_virtual: self.is_pure_virtual,
            arguments: self.arguments@.map_values(|a: Argument| a@),
        }
    }
}

/// A class or struct with the namespaces that enclose it, outermost first.
#[derive(Debug, PartialEq)]
pub struct Class {
    pub namespaces: Vec<String>,
    pub name: String,
    pub methods: Vec<Method>,
}

/// What a [`Class`] stands for.
pub struct ClassView {
    pub namespaces: Seq<Seq<char>>,
    pub name: Seq<char>,
    pub methods: Seq<MethodView>,
}

impl View for Class {
    type V = ClassView;

    open spec fn view(&self) -> ClassView {
        ClassView {
            namespaces: self.namespaces@.map_values(|t: String| t@),
            name: self.name@,
            methods: self.methods@.map_values(|m: Method| m@),
        }
    }
}

/// The summary of one header.
#[derive(Debug, PartialEq)]
pub struct Model {
    pub includes: Vec<String>,
    pub classes: Vec<Class>,
}

/// What a [`Model`] stands for.
pub struct ModelView {
    pub includes: Seq<Seq<char>>,
    pub classes: Seq<ClassView>,
}

impl View for Model {
    type V = ModelView;

    open spec fn view(&self) -> ModelView {
        ModelView {
            includes: self.includes@.map_values(|t: String| t@),
            classes: self.classes@.map_values(|c: Class| c@),
        }
    }
}

/// The argument that a list of raw tokens describes: the first is its type,
/// the second, where there is one, its name.
pub open spec fn make_argument_spec(tokens: Seq<Seq<u8>>) -> Result<ArgumentView, ParseError> {
    if !valid_utf8(tokens[0]) || (tokens.len() > 1 && !valid_utf8(tokens[1])) {
        Err(ParseError::MalformedUtf8 { field: Field::Methods })
    } else {
        Ok(
            ArgumentView {
                argument_type: decode_utf8(tokens[0]),
                argument_name: if tokens.len() > 1 {
                    Some(decode_utf8(tokens[1]))
                } else {
                    None
                },
            },
        )
    }
}

/// The method that a raw return type, a raw name and a list of arguments
/// describe. The return type is always present: it is empty where no
/// alphanumeric run stands behind the keyword, as for a destructor. Every
/// method counts as pure virtual, whether or not a pure specifier follows.
pub open spec fn make_method_spec(
    return_raw: Seq<u8>,
    name_raw: Seq<u8>,
    arguments: Seq<ArgumentView>,
) -> Result<MethodView, ParseError> {
    if !valid_utf8(return_raw) || !valid_utf8(name_raw) {
        Err(ParseError::MalformedUtf8 { field: Field::Methods })
    } else {
        Ok(
            MethodView {
                return_value: Some(decode_utf8(return_raw)),
                name: decode_utf8(name_raw),
                is_pure_virtual: true,
                arguments,
            },
        )
    }
}

/// The raw tokens of an argument.
pub open spec fn argument_tokens(s: Seq<u8>, a: ArgumentSpans) -> Seq<Seq<u8>> {
    match a.argument_name {
        Some(n) => seq![a.argument_type.of(s), n.of(s)],
        None => seq![a.argument_type.of(s)],
    }
}

/// Whether the spans of an argument are ranges of the input.
pub open spec fn argument_within(s: Seq<u8>, a: ArgumentSpans) -> bool {
    a.argument_type.within(s) && match a.argument_name {
        Some(n) => n.within(s),
        None => true,
    }
}

/// The argument that the spans `a` capture from `s`. Spans that are no
/// ranges of the input count as malformed.
pub open spec fn argument_of(s: Seq<u8>, a: ArgumentSpans) -> Result<ArgumentView, ParseError> {
    if argument_within(s, a) {
        make_argument_spec(argument_tokens(s, a))
    } else {
        Err(ParseError::MalformedUtf8 { field: Field::Methods })
    }
}

/// The arguments that a sequence of spans captures, in order; malformed
/// where one of them is.
pub open spec fn arguments_of(s: Seq<u8>, args: Seq<ArgumentSpans>) -> Result<Seq<ArgumentView>, ParseError> {
    if forall|i: int| 0 <= i < args.len() ==> (#[trigger] argument_of(s, args[i])) is Ok {
        Ok(Seq::new(args.len(), |i: int| argument_of(s, args[i])->Ok_0))
    } else {
        Err(ParseError::MalformedUtf8 { field: Field::Methods })
    }
}

/// The method that the spans `m` capture from `s`.
pub open spec fn method_of(s: Seq<u8>, m: MethodShape) -> Result<MethodView, ParseError> {
    match arguments_of(s, m.arguments) {
        Err(e) => Err(e),
        Ok(arguments) => if m.return_type.within(s) && m.name.within(s) {
            make_method_spec(m.return_type.of(s), m.name.of(s), arguments)
        } else {
            Err(ParseError::MalformedUtf8 { field: Field::Methods })
        },
    }
}

/// The methods that a sequence of spans captures, in order; malformed where
/// one of them is.
pub open spec fn methods_of(s: Seq<u8>, methods: Seq<MethodShape>) -> Result<Seq<MethodView>, ParseError> {
    if forall|i: int| 0 <= i < methods.len() ==> (#[trigger] method_of(s, methods[i])) is Ok {
        Ok(Seq::new(methods.len(), |i: int| method_of(s, methods[i])->Ok_0))
    } else {
        Err(ParseError::MalformedUtf8 { field: Field::Methods })
    }
}

/// The text that a span captures from `s`: none where the span is no range
/// of the input or its bytes are not valid UTF-8.
pub open spec fn text_of(s: Seq<u8>, span: Span) -> Option<Seq<char>> {
    if span.within(s) && valid_utf8(span.of(s)) {
        Some(decode_utf8(span.of(s)))
    } else {
        None
    }
}

/// The texts that a sequence of spans captures, in order; `field` is
/// malformed where one of them has none.
pub open spec fn texts_of(s: Seq<u8>, spans: Seq<Span>, field: Field) -> Result<Seq<Seq<char>>, ParseError> {
    if forall|i: int| 0 <= i < spans.len() ==> (#[trigger] text_of(s, spans[i])) is Some {
        Ok(Seq::new(spans.len(), |i: int| text_of(s, spans[i])->Some_0))
    } else {
        Err(ParseError::MalformedUtf8 { field })
    }
}

/// The model that the captured pieces `h` describe: one class, with the
/// texts of the spans. The first piece that holds a malformed span, in the
/// order inclusions, namespaces, class name, methods, fails the assembly.
pub open spec fn model_of(s: Seq<u8>, h: HeaderShape) -> Result<ModelView, ParseError> {
    match texts_of(s, h.includes, Field::Includes) {
        Err(e) => Err(e),
        Ok(includes) => match texts_of(s, h.namespaces, Field::Namespaces) {
            Err(e) => Err(e),
            Ok(namespaces) => match text_of(s, h.class_name) {
                None => Err(ParseError::MalformedUtf8 { field: Field::ClassName }),
                Some(name) => match methods_of(s, h.methods) {
                    Err(e) => Err(e),
                    Ok(methods) => Ok(
                        ModelView { includes, classes: seq![ClassView { namespaces, name, methods }] },
                    ),
                },
            },
        },
    }
}

/// What parsing the bytes `s` gives: the model of the header that the
/// grammar finds in them, or the reason for which there is none.
pub open spec fn parse_spec(s: Seq<u8>) -> Result<ModelView, ParseError> {
    match header_spec(s) {
        Err(e) => Err(e),
        Ok(h) => model_of(s, h),
    }
}

/// Whether `res` is what parsing `s` must return.
pub open spec fn is_parse_of(s: Seq<u8>, res: Result<Model, ParseError>) -> bool {
    match parse_spec(s) {
        Ok(m) => res matches Ok(r) && r@ == m,
        Err(e) => res matches Err(x) && x == e,
    }
}

/// `String::from_utf8` is taken on trust: it succeeds exactly on the byte
/// sequences that are valid UTF-8, and the string it returns is the text
/// that those bytes encode.
#[verifier::external_body]
fn string_from_utf8(bytes: Vec<u8>) -> (r: Option<String>)
    ensures
        r is Some <==> valid_utf8(bytes@),
        r matches Some(t) ==> t@ == decode_utf8(bytes@),
{
    match String::from_utf8(bytes) {
        Ok(t) => Some(t),
        Err(_) => None,
    }
}

/// Decodes raw bytes as text.
fn decode(raw: &[u8]) -> (r: Option<String>)
    ensures
        r is Some <==> valid_utf8(raw@),
        r matches Some(t) ==> t@ == decode_utf8(raw@),
{
    string_from_utf8(slice_to_vec(raw))
}

/// The bytes that a span covers, where it is a range of the input.
fn span_bytes<'a>(input: &'a [u8], span: Span) -> (r: Option<&'a [u8]>)
    ensures
        r is Some <==> span.within(input@),
        r matches Some(b) ==> b@ == span.of(input@),
{
    if span.start <= span.end && span.end <= input.len() {
        Some(slice_subrange(input, span.start, span.end))
    } else {
        None
    }
}

/// Decodes the text that a span captures.
fn span_text(input: &[u8], span: Span) -> (r: Option<String>)
    ensures
        match text_of(input@, span) {
            Some(t) => r matches Some(x) && x@ == t,
            None => r is None,
        },
{
    match span_bytes(input, span) {
        Some(raw) => decode(raw),
        None => None,
    }
}

/// Decodes the texts that a list of spans captures.
fn span_texts(input: &[u8], spans: &Vec<Span>, field: Field) -> (res: Result<Vec<String>, ParseError>)
    ensures
        match texts_of(input@, spans@, field) {
            Ok(texts) => res matches Ok(v) && v@.map_values(|t: String| t@) == texts,
            Err(e) => res matches Err(x) && x == e,
        },
{
    let mut out: Vec<String> = Vec::new();
    let mut i: usize = 0;
    while i < spans.len()
        invariant
            i <= spans@.len(),
            out@.len() == i,
            forall|j: int| 0 <= j < i ==> text_of(input@, spans@[j]) == Some(#[trigger] out@[j]@),
        decreases spans@.len() - i,
    {
        match span_text(input, spans[i]) {
            Some(t) => {
                out.push(t);
            },
            None => {
                assert(text_of(input@, spans@[i as int]) is None);
                return Err(ParseError::MalformedUtf8 { field });
            },
        }
        i = i + 1;
    }
    proof {
        assert forall|j: int| 0 <= j < spans@.len() implies (#[trigger] text_of(input@, spans@[j])) is Some by {
            assert(text_of(input@, spans@[j]) == Some(out@[j]@));
        }
        assert(out@.map_values(|t: String| t@) =~= Seq::new(
            spans@.len(),
            |i: int| text_of(input@, spans@[i])->Some_0,
        ));
    }
    Ok(out)
}

/// Builds an argument from its raw tokens: the first is the type, the
/// second, where there is one, the name.
pub fn make_argument(parsed_argument: Vec<&[u8]>) -> (res: Result<Argument, ParseError>)
    requires
        parsed_argument@.len() >= 1,
    ensures
        match make_argument_spec(parsed_argument@.map_values(|t: &[u8]| t@)) {
            Ok(a) => res matches Ok(r) && r@ == a,
            Err(e) => res matches Err(x) && x == e,
        },
{
    let ghost tokens = parsed_argument@.map_values(|t: &[u8]| t@);
    assert(tokens[0] == parsed_argument@[0]@);
    let argument_type = match decode(parsed_argument[0]) {
        Some(t) => t,
        None => {
            return Err(ParseError::MalformedUtf8 { field: Field::Methods });
        },
    };
    if parsed_argument.len() > 1 {
        assert(tokens[1] == parsed_argument@[1]@);
        match decode(parsed_argument[1]) {
            Some(n) => Ok(Argument { argument_type, argument_name: Some(n) }),
            None => Err(ParseError::MalformedUtf8 { field: Field::Methods }),
        }
    } else {
        Ok(Argument { argument_type, argument_name: None })
    }
}

/// Builds a method from its raw return type, its raw name and its
/// arguments, and marks it as pure virtual.
pub fn make_method(return_raw: &[u8], name_raw: &[u8], arguments: Vec<Argument>) -> (res: Result<
    Method,
    ParseError,
>)
    ensures
        match make_method_spec(return_raw@, name_raw@, arguments@.map_values(|a: Argument| a@)) {
            Ok(m) => res matches Ok(r) && r@ == m,
            Err(e) => res matches Err(x) && x == e,
        },
{
    let return_value = match decode(return_raw) {
        Some(t) => t,
        None => {
            return Err(ParseError::MalformedUtf8 { field: Field::Methods });
        },
    };
    match decode(name_raw) {
        Some(name) => Ok(
            Method { return_value: Some(return_value), name, is_pure_virtual: true, arguments },
        ),
        None => Err(ParseError::MalformedUtf8 { field: Field::Methods }),
    }
}

/// Builds the argument that the spans `a` capture from the input.
pub fn build_argument(input: &[u8], a: ArgumentSpans) -> (res: Result<Argument, ParseError>)
    ensures
        match argument_of(input@, a) {
            Ok(v) => res matches Ok(r) && r@ == v,
            Err(e) => res matches Err(x) && x == e,
        },
{
    let mut tokens: Vec<&[u8]> = Vec::new();
    match span_bytes(input, a.argument_type) {
        Some(raw) => {
            tokens.push(raw);
        },
        None => {
            return Err(ParseError::MalformedUtf8 { field: Field::Methods });
        },
    }
    match a.argument_name {
        Some(n) => match span_bytes(input, n) {
            Some(raw) => {
                tokens.push(raw);
            },
            None => {
                return Err(ParseError::MalformedUtf8 { field: Field::Methods });
            },
        },
        None => {},
    }
    proof {
        assert(tokens@.map_values(|t: &[u8]| t@) =~= argument_tokens(input@, a));
    }
    make_argument(tokens)
}

/// Builds the method that the spans `m` capture from the input.
pub fn build_method(input: &[u8], m: &MethodSpans) -> (res: Result<Method, ParseError>)
    ensures
        match method_of(input@, m@) {
            Ok(v) => res matches Ok(r) && r@ == v,
            Err(e) => res matches Err(x) && x == e,
        },
{
    let mut arguments: Vec<Argument> = Vec::new();
    let mut i: usize = 0;
    while i < m.arguments.len()
        invariant
            i <= m.arguments@.len(),
            arguments@.len() == i,
            forall|j: int|
                0 <= j < i ==> argument_of(input@, m.arguments@[j]) == Ok::<ArgumentView, ParseError>(
                    #[trigger] arguments@[j]@,
                ),
        decreases m.arguments@.len() - i,
    {
        match build_argument(input, m.arguments[i]) {
            Ok(a) => {
                arguments.push(a);
            },
            Err(_) => {
                assert(argument_of(input@, m.arguments@[i as int]) is Err);
                return Err(ParseError::MalformedUtf8 { field: Field::Methods });
            },
        }
        i = i + 1;
    }
    proof {
        assert forall|j: int| 0 <= j < m.arguments@.len() implies (#[trigger] argument_of(
            input@,
            m.arguments@[j],
        )) is Ok by {
            assert(argument_of(input@, m.arguments@[j]) == Ok::<ArgumentView, ParseError>(arguments@[j]@));
        }
        assert(arguments@.map_values(|a: Argument| a@) =~= arguments_of(input@, m@.arguments)->Ok_0);
    }
    let return_raw = span_bytes(input, m.return_type);
    let name_raw = span_bytes(input, m.name);
    match (return_raw, name_raw) {
        (Some(r), Some(n)) => make_method(r, n, arguments),
        _ => Err(ParseError::MalformedUtf8 { field: Field::Methods }),
    }
}

/// What scanning one method at the cursor and building it gives: the method
/// and the cursor behind its semicolon.
pub open spec fn method_at(s: Seq<u8>, pos: int) -> Result<(MethodView, usize), ParseError> {
    match method_spec(s, pos) {
        Err(e) => Err(e),
        Ok((shape, end)) => match method_of(s, shape) {
            Err(e) => Err(e),
            Ok(m) => Ok((m, end)),
        },
    }
}

/// Scans forward to the next `virtual` and returns the method behind it and
/// the cursor behind its semicolon.
pub fn method(input: &[u8], pos: usize) -> (res: Result<(Method, usize), ParseError>)
    ensures
        match method_at(input@, pos as int) {
            Ok((m, end)) => res matches Ok((r, next)) && r@ == m && next == end,
            Err(e) => res matches Err(x) && x == e,
        },
{
    match method_spans(input, pos) {
        Err(e) => Err(e),
        Ok((spans, next)) => match build_method(input, &spans) {
            Err(e) => Err(e),
            Ok(m) => Ok((m, next)),
        },
    }
}

/// Builds the methods that a list of spans captures from the input.
fn build_methods(input: &[u8], methods: &Vec<MethodSpans>) -> (res: Result<Vec<Method>, ParseError>)
    ensures
        match methods_of(input@, methods@.map_values(|m: MethodSpans| m@)) {
            Ok(v) => res matches Ok(r) && r@.map_values(|m: Method| m@) == v,
            Err(e) => res matches Err(x) && x == e,
        },
{
    let ghost shapes = methods@.map_values(|m: MethodSpans| m@);
    let mut out: Vec<Method> = Vec::new();
    let mut i: usize = 0;
    while i < methods.len()
        invariant
            i <= methods@.len(),
            out@.len() == i,
            shapes == methods@.map_values(|m: MethodSpans| m@),
            forall|j: int|
                0 <= j < i ==> method_of(input@, shapes[j]) == Ok::<MethodView, ParseError>(
                    #[trigger] out@[j]@,
                ),
        decreases methods@.len() - i,
    {
        assert(shapes[i as int] == methods@[i as int]@);
        match build_method(input, &methods[i]) {
            Ok(m) => {
                out.push(m);
            },
            Err(_) => {
                assert(method_of(input@, shapes[i as int]) is Err);
                return Err(ParseError::MalformedUtf8 { field: Field::Methods });
            },
        }
        i = i + 1;
    }
    proof {
        assert forall|j: int| 0 <= j < shapes.len() implies (#[trigger] method_of(input@, shapes[j])) is Ok by {
            assert(method_of(input@, shapes[j]) == Ok::<MethodView, ParseError>(out@[j]@));
        }
        assert(out@.map_values(|m: Method| m@) =~= methods_of(input@, shapes)->Ok_0);
    }
    Ok(out)
}

/// Assembles the model from the pieces that the grammar captured.
pub fn assemble(input: &[u8], h: &Header) -> (res: Result<Model, ParseError>)
    ensures
        match model_of(input@, h@) {
            Ok(m) => res matches Ok(r) && r@ == m,
            Err(e) => res matches Err(x) && x == e,
        },
{
    let includes = match span_texts(input, &h.includes, Field::Includes) {
        Ok(v) => v,
        Err(e) => {
            return Err(e);
        },
    };
    let namespaces = match span_texts(input, &h.namespaces, Field::Namespaces) {
        Ok(v) => v,
        Err(e) => {
            return Err(e);
        },
    };
    let name = match span_text(input, h.class_name) {
        Some(t) => t,
        None => {
            return Err(ParseError::MalformedUtf8 { field: Field::ClassName });
        },
    };
    let methods = match build_methods(input, &h.methods) {
        Ok(v) => v,
        Err(e) => {
            return Err(e);
        },
    };
    let class = Class { namespaces, name, methods };
    let mut classes: Vec<Class> = Vec::new();
    classes.push(class);
    let model = Model { includes, classes };
    proof {
        assert(model.classes@.map_values(|c: Class| c@) =~= seq![class@]);
    }
    Ok(model)
}

/// Parses the bytes of a header into its model.
pub fn parse_bytes(input: &[u8]) -> (res: Result<Model, ParseError>)
    ensures
        is_parse_of(input@, res),
        input@.len() <= usize::MAX,
{
    match header(input) {
        Err(e) => Err(e),
        Ok(h) => assemble(input, &h),
    }
}

/// Parses the text of a header into its model. Text is valid UTF-8, so
/// every span that the grammar captures decodes: there is a model exactly
/// where the grammar finds a header, and no error speaks of malformed text.
pub fn parse(input: &str) -> (res: Result<Model, ParseError>)
    ensures
        is_parse_of(input.spec_bytes(), res),
        res is Ok <==> header_spec(input.spec_bytes()) is Ok,
        res matches Err(e) ==> !(e is MalformedUtf8),
{
    let res = parse_bytes(input.as_bytes());
    proof {
        encode_utf8_valid_utf8(input@);
        law_text_always_decodes(input.spec_bytes());
    }
    res
}

} // verus!
