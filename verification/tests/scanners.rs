use cppheader::{
    arguments, class_name, include_block, make_argument, make_method, method, namespaces,
    one_include, one_namespace, Argument, ArgumentSpans, Expected, Field, ParseError, Span,
};

fn text<'a>(input: &'a [u8], span: &Span) -> &'a [u8] {
    &input[span.start..span.end]
}

fn texts<'a>(input: &'a [u8], spans: &[Span]) -> Vec<&'a [u8]> {
    spans.iter().map(|s| text(input, s)).collect()
}

#[test]
fn one_include_test() {
    let input = &b"#include <foo.h>\n"[..];
    let (span, next) = one_include(input, 0).unwrap();
    assert_eq!((&input[next..], text(input, &span)), (&b""[..], &b"<foo.h>"[..]));
    assert_eq!((span, next), (Span { start: 9, end: 16 }, 17));
}

#[test]
fn one_include_with_leading_whitespace_test() {
    let input = &b"  #include <foo.h>\n"[..];
    let (span, next) = one_include(input, 0).unwrap();
    assert_eq!((&input[next..], text(input, &span)), (&b""[..], &b"<foo.h>"[..]));
}

#[test]
fn one_include_with_trailing_whitespace_test() {
    let input = &b"#include <foo.h>  \n"[..];
    let (span, next) = one_include(input, 0).unwrap();
    assert_eq!((&input[next..], text(input, &span)), (&b""[..], &b"<foo.h>"[..]));
}

#[test]
fn one_include_with_trailing_and_leading_whitespace_test() {
    let input = &b"   #include <foo.h>  \n"[..];
    let (span, next) = one_include(input, 0).unwrap();
    assert_eq!((&input[next..], text(input, &span)), (&b""[..], &b"<foo.h>"[..]));
}

#[test]
fn include_block_one_include_test() {
    let input = &b"#include <foo.h>\n"[..];
    let (spans, next) = include_block(input, 0).unwrap();
    assert_eq!((&input[next..], texts(input, &spans)), (&b""[..], vec![&b"<foo.h>"[..]]));
}

#[test]
fn include_block_multiple_include_test() {
    let input = &b"#include <foo.h>\n#include \"bar.h\"\n"[..];
    let (spans, next) = include_block(input, 0).unwrap();
    assert_eq!(
        (&input[next..], texts(input, &spans)),
        (&b""[..], vec![&b"<foo.h>"[..], &b"\"bar.h\""[..]])
    );
}

#[test]
fn include_block_multiple_newline_separated_blocks_test() {
    let include_blocks = &br###"
#include <foo.h>
#include "bar.h"

#include <boost/shared_ptr.hpp>
#include <boost/thread.hpp>
"###[..];

    let (spans, next) = include_block(include_blocks, 0).unwrap();
    assert_eq!(
        (&include_blocks[next..], texts(include_blocks, &spans)),
        (
            &b""[..],
            vec![
                &b"<foo.h>"[..],
                &b"\"bar.h\""[..],
                &b"<boost/shared_ptr.hpp>"[..],
                &b"<boost/thread.hpp>"[..],
            ]
        )
    );
}

#[test]
fn one_namespace_simple_test() {
    let input = &b"namespace foo {"[..];
    let (span, next) = one_namespace(input, 0).unwrap();
    assert_eq!((&input[next..], text(input, &span)), (&b""[..], &b"foo"[..]));
}

#[test]
fn namespaces_simple_test() {
    let namespace_block = &br###"
namespace foo {
namespace bar {
namespace baz{
"###[..];
    let (spans, next) = namespaces(namespace_block, 0).unwrap();
    assert_eq!(
        (&namespace_block[next..], texts(namespace_block, &spans)),
        (&b""[..], vec![&b"foo"[..], &b"bar"[..], &b"baz"[..]])
    );
}

#[test]
fn test_class_name_class() {
    let class_block = &br###"class Foo {"###[..];
    let (span, next) = class_name(class_block, 0).unwrap();
    assert_eq!((&class_block[next..], text(class_block, &span)), (&b""[..], &b"Foo"[..]));
}

#[test]
fn test_class_name_struct() {
    let class_block = &br###"struct Bar {"###[..];
    let (span, next) = class_name(class_block, 0).unwrap();
    assert_eq!((&class_block[next..], text(class_block, &span)), (&b""[..], &b"Bar"[..]));
}

#[test]
fn test_simple_method_name() {
    let simple_method = &b"virtual void foobar() = 0;"[..];
    let (parsed_method, _) = method(simple_method, 0).unwrap();
    assert_eq!(parsed_method.name, "foobar".to_owned());
}

#[test]
fn test_simple_method_arguments() {
    let simple_method = &b"virtual void foobar() = 0;"[..];
    let (parsed_method, _) = method(simple_method, 0).unwrap();
    assert_eq!(parsed_method.arguments.len(), 0);
}

#[test]
fn test_method_with_one_argument() {
    let method_with_arguments = &b"virtual void baz(int abc) = 0;"[..];
    let (parsed_method, _) = method(method_with_arguments, 0).unwrap();
    assert_eq!(parsed_method.arguments[0].argument_type, "int".to_owned());
    assert_eq!(
        parsed_method.arguments[0].argument_name,
        Some("abc".to_owned())
    );
}

#[test]
fn test_method_with_two_arguments() {
    let method_with_arguments = &b"virtual void baz(int abc, bool cde) = 0;"[..];
    let (parsed_method, _) = method(method_with_arguments, 0).unwrap();
    assert_eq!(parsed_method.arguments[0].argument_type, "int".to_owned());
    assert_eq!(
        parsed_method.arguments[0].argument_name,
        Some("abc".to_owned())
    );
    assert_eq!(parsed_method.arguments[1].argument_type, "bool".to_owned());
    assert_eq!(
        parsed_method.arguments[1].argument_name,
        Some("cde".to_owned())
    );
}

#[test]
fn method_ends_behind_its_semicolon() {
    let input = &b"  virtual void baz(int abc, bool cde) = 0; rest"[..];
    let (parsed, next) = method(input, 0).unwrap();
    assert_eq!(parsed.return_value, Some("void".to_owned()));
    assert!(parsed.is_pure_virtual);
    assert_eq!(next, 42);
    assert_eq!(&input[next..], &b" rest"[..]);
}

#[test]
fn method_errors() {
    assert_eq!(
        method(b"void f();", 0),
        Err(ParseError::GrammarMismatch { offset: 0, expected: Expected::Virtual })
    );
    assert_eq!(
        method(b"virtual void f;", 0),
        Err(ParseError::GrammarMismatch { offset: 14, expected: Expected::OpenParen })
    );
    assert_eq!(
        method(b"virtual void f(int a", 0),
        Err(ParseError::GrammarMismatch { offset: 20, expected: Expected::CloseParen })
    );
    assert_eq!(
        method(b"virtual void f(int a, )", 0),
        Err(ParseError::GrammarMismatch { offset: 22, expected: Expected::Token })
    );
    assert_eq!(
        method(b"virtual void f(int a)", 0),
        Err(ParseError::GrammarMismatch { offset: 21, expected: Expected::Semicolon })
    );
}

#[test]
fn scanner_errors() {
    assert_eq!(
        one_include(b" namespace", 0),
        Err(ParseError::GrammarMismatch { offset: 1, expected: Expected::IncludeDirective })
    );
    assert_eq!(
        one_include(b"#include <a>", 0),
        Err(ParseError::Incomplete { offset: 12, expected: Expected::Whitespace })
    );
    assert_eq!(
        one_namespace(b"  class", 0),
        Err(ParseError::GrammarMismatch { offset: 2, expected: Expected::Namespace })
    );
    assert_eq!(
        one_namespace(b"namespace abc ", 0),
        Err(ParseError::GrammarMismatch { offset: 13, expected: Expected::OpenBrace })
    );
    assert_eq!(
        class_name(b"namespace abc {", 3),
        Err(ParseError::GrammarMismatch { offset: 3, expected: Expected::ClassKeyword })
    );
    assert_eq!(
        include_block(b"abc", 7),
        Err(ParseError::Incomplete { offset: 7, expected: Expected::IncludeDirective })
    );
}

#[test]
fn argument_lists() {
    let input = &b"(int, bool boo)"[..];
    let (args, next) = arguments(input, 1).unwrap();
    assert_eq!(next, input.len());
    assert_eq!(
        args,
        vec![
            ArgumentSpans { argument_type: Span { start: 1, end: 4 }, argument_name: None },
            ArgumentSpans {
                argument_type: Span { start: 6, end: 10 },
                argument_name: Some(Span { start: 11, end: 14 }),
            },
        ]
    );
    let (args, next) = arguments(b"(  ) = 0;", 1).unwrap();
    assert_eq!((args.len(), next), (0, 4));
}

#[test]
fn words_of_a_longer_type_are_read_as_type_and_name() {
    let input = &b"virtual void f(const Foo& x, unsigned int);"[..];
    let (parsed, _) = method(input, 0).unwrap();
    assert_eq!(parsed.arguments[0].argument_type, "const");
    assert_eq!(parsed.arguments[0].argument_name, Some("Foo&".to_owned()));
    assert_eq!(parsed.arguments[1].argument_type, "unsigned");
    assert_eq!(parsed.arguments[1].argument_name, Some("int".to_owned()));
}

#[test]
fn destructor_keeps_its_tilde() {
    let (parsed, _) = method(b"virtual ~Bar() = default;", 0).unwrap();
    assert_eq!(parsed.name, "~Bar");
    assert_eq!(parsed.return_value, Some("".to_owned()));
}

#[test]
fn make_argument_from_tokens() {
    assert_eq!(
        make_argument(vec![&b"int"[..]]),
        Ok(Argument { argument_type: "int".to_owned(), argument_name: None })
    );
    assert_eq!(
        make_argument(vec![&b"bool"[..], &b"boo"[..]]),
        Ok(Argument { argument_type: "bool".to_owned(), argument_name: Some("boo".to_owned()) })
    );
    assert_eq!(
        make_argument(vec![&b"bool"[..], &b"\xC3"[..]]),
        Err(ParseError::MalformedUtf8 { field: Field::Methods })
    );
}

#[test]
fn make_method_from_raw_parts() {
    let built = make_method(b"void", b"f\xC3\xA9", Vec::new()).unwrap();
    assert_eq!(built.return_value, Some("void".to_owned()));
    assert_eq!(built.name, "f\u{e9}");
    assert!(built.is_pure_virtual);
    assert_eq!(built.arguments, vec![]);
    assert_eq!(
        make_method(b"\xFF", b"f", Vec::new()),
        Err(ParseError::MalformedUtf8 { field: Field::Methods })
    );
}

#[test]
fn tabs_and_line_breaks_are_whitespace() {
    let input = &b"\t\r\n#include\t<a>\r\n\tnamespace"[..];
    let (span, next) = one_include(input, 0).unwrap();
    assert_eq!(text(input, &span), &b"<a>"[..]);
    assert_eq!(&input[next..], &b"namespace"[..]);
}

#[test]
fn namespace_names_are_alphanumeric_runs() {
    let input = &b"namespace ab_c {"[..];
    let (span, next) = one_namespace(input, 0).unwrap();
    assert_eq!(text(input, &span), &b"ab"[..]);
    assert_eq!(next, input.len());
    let input = &b"namespace Az09 {"[..];
    let (span, _) = one_namespace(input, 0).unwrap();
    assert_eq!(text(input, &span), &b"Az09"[..]);
}

#[test]
fn bytes_next_to_letters_and_digits_end_a_name() {
    for stop in [b'/', b':', b'@', b'[', b'`', b'|', b'_', b'-', 0x80u8, 0xFFu8] {
        let mut input = b"class A0Zaz9".to_vec();
        input.push(stop);
        input.extend_from_slice(b" {");
        let (span, next) = class_name(&input, 0).unwrap();
        assert_eq!(text(&input, &span), &b"A0Zaz9"[..]);
        assert_eq!(next, input.len());
    }
}

#[test]
fn only_four_bytes_are_whitespace() {
    for blank in [b' ', b'\t', b'\n', b'\r'] {
        let mut input = vec![blank];
        input.extend_from_slice(b"namespace");
        input.push(blank);
        input.extend_from_slice(b"n {");
        input.push(blank);
        let (span, next) = one_namespace(&input, 0).unwrap();
        assert_eq!(text(&input, &span), &b"n"[..]);
        assert_eq!(next, input.len());
    }
    for other in [0x0Bu8, 0x0Cu8, 0x00u8, 0xA0u8] {
        let mut input = vec![other];
        input.extend_from_slice(b"namespace n {");
        assert_eq!(
            one_namespace(&input, 0),
            Err(ParseError::GrammarMismatch { offset: 0, expected: Expected::Namespace })
        );
    }
}

#[test]
fn as_many_arguments_as_commas_and_one() {
    let (args, next) = arguments(b"f(a, b c , d e f,g) ;", 2).unwrap();
    assert_eq!(args.len(), 4);
    assert_eq!(next, 19);
    assert_eq!(args[2].argument_type, Span { start: 11, end: 12 });
    assert_eq!(args[2].argument_name, Some(Span { start: 13, end: 14 }));
    assert_eq!(args[3], ArgumentSpans { argument_type: Span { start: 17, end: 18 }, argument_name: None });
}

#[test]
fn the_first_closing_parenthesis_ends_the_list() {
    let input = &b"virtual void f(int (a), b);"[..];
    let (parsed, next) = method(input, 0).unwrap();
    assert_eq!(parsed.arguments.len(), 1);
    assert_eq!(parsed.arguments[0].argument_type, "int");
    assert_eq!(parsed.arguments[0].argument_name, Some("(a".to_owned()));
    assert_eq!(next, input.len());
}

#[test]
fn cursor_beyond_the_input() {
    assert_eq!(
        one_include(b"ab", 5),
        Err(ParseError::GrammarMismatch { offset: 5, expected: Expected::IncludeDirective })
    );
    assert_eq!(
        arguments(b"ab", 5),
        Err(ParseError::GrammarMismatch { offset: 5, expected: Expected::Token })
    );
    assert_eq!(
        method(b"ab", 5),
        Err(ParseError::GrammarMismatch { offset: 5, expected: Expected::Virtual })
    );
}
