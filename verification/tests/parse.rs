use cppheader::{parse, parse_bytes, Expected, Field, ParseError};

const TEST_INTERFACE: &str = r###"
     #pragma once

    #include <foo>

     namespace a { namespace da {

    class Bar {
    virtual ~Bar() = default;
    virtual void foo(int, bool boo) = 0;
    };

    }
    }
    "###;

#[test]
fn it_parses_includes() {
    let model = parse(&TEST_INTERFACE).unwrap();
    assert_eq!(model.includes[0], "<foo>");
}

#[test]
fn it_parses_class_names() {
    let model = parse(&TEST_INTERFACE).unwrap();
    assert_eq!(model.classes[0].name, "Bar");
}

#[test]
fn it_parses_namespaces() {
    let model = parse(&TEST_INTERFACE).unwrap();
    assert_eq!(
        model.classes[0].namespaces,
        vec!["a".to_owned(), "da".to_owned()]
    )
}

#[test]
fn it_parses_method_names() {
    let model = parse(&TEST_INTERFACE).unwrap();
    assert_eq!(model.classes[0].methods[0].name, "~Bar".to_owned());
    assert_eq!(model.classes[0].methods[1].name, "foo".to_owned());
}

#[test]
fn it_parses_method_return_values() {
    let model = parse(&TEST_INTERFACE).unwrap();
    assert_eq!(
        model.classes[0].methods[1].return_value,
        Some("void".to_owned())
    );
}

#[test]
fn it_parses_method_argument_types() {
    let model = parse(&TEST_INTERFACE).unwrap();
    assert_eq!(
        model.classes[0].methods[1].arguments[0].argument_type,
        "int".to_owned()
    );
    assert_eq!(
        model.classes[0].methods[1].arguments[1].argument_type,
        "bool".to_owned()
    );
}

#[test]
fn it_parses_method_argument_names() {
    let model = parse(&TEST_INTERFACE).unwrap();
    assert_eq!(model.classes[0].methods[1].arguments[0].argument_name, None);
    assert_eq!(
        model.classes[0].methods[1].arguments[1].argument_name,
        Some("boo".to_owned())
    );
}

#[test]
fn whole_model_of_the_sample_interface() {
    let model = parse(TEST_INTERFACE).unwrap();
    assert_eq!(model.includes, vec!["<foo>".to_owned()]);
    assert_eq!(model.classes.len(), 1);
    let class = &model.classes[0];
    assert_eq!(class.methods.len(), 2);
    assert_eq!(class.methods[0].return_value, Some("".to_owned()));
    assert_eq!(class.methods[0].arguments.len(), 0);
    assert!(class.methods[0].is_pure_virtual);
    assert!(class.methods[1].is_pure_virtual);
    assert_eq!(class.methods[1].arguments.len(), 2);
}

#[test]
fn parsing_twice_gives_equal_models() {
    let first = parse(TEST_INTERFACE);
    let second = parse(TEST_INTERFACE);
    assert!(first.is_ok());
    assert_eq!(first, second);
    let bad = "no directives here";
    assert_eq!(parse(bad), parse(bad));
}

#[test]
fn four_inclusions_in_two_groups() {
    let input = "#include <foo.h>\n#include \"bar.h\"\n\n#include <boost/shared_ptr.hpp>\n#include <boost/thread.hpp>\nnamespace n {\nclass C {\n};\n}\n";
    let model = parse(input).unwrap();
    assert_eq!(
        model.includes,
        vec![
            "<foo.h>".to_owned(),
            "\"bar.h\"".to_owned(),
            "<boost/shared_ptr.hpp>".to_owned(),
            "<boost/thread.hpp>".to_owned(),
        ]
    );
}

#[test]
fn a_comment_line_ends_the_block_of_inclusions() {
    let input = "#include <a>\n// note\n#include <b>\nnamespace n { class C { };";
    let model = parse(input).unwrap();
    assert_eq!(model.includes, vec!["<a>".to_owned()]);
}

#[test]
fn no_inclusion_is_incomplete() {
    let input = "namespace a { class B { virtual void f(); }; }";
    assert_eq!(
        parse(input),
        Err(ParseError::Incomplete { offset: 0, expected: Expected::IncludeDirective })
    );
}

#[test]
fn unterminated_inclusion_is_incomplete() {
    assert_eq!(
        parse("  #include <a>"),
        Err(ParseError::Incomplete { offset: 2, expected: Expected::Whitespace })
    );
}

#[test]
fn no_namespace_is_incomplete() {
    let input = "#include <foo>\nclass Bar {\nvirtual void foo();\n};\n";
    assert_eq!(
        parse(input),
        Err(ParseError::Incomplete { offset: 15, expected: Expected::Namespace })
    );
}

#[test]
fn namespace_without_brace_is_incomplete() {
    let input = "#include <foo>\nnamespace a class";
    assert_eq!(
        parse(input),
        Err(ParseError::Incomplete { offset: 15, expected: Expected::OpenBrace })
    );
}

#[test]
fn no_class_is_a_grammar_mismatch() {
    let input = "#include <foo>\nnamespace a {\n}\n";
    assert_eq!(
        parse(input),
        Err(ParseError::GrammarMismatch { offset: 29, expected: Expected::ClassKeyword })
    );
}

#[test]
fn class_without_brace_is_a_grammar_mismatch() {
    let input = "#include <foo>\nnamespace a {\nclass Bar;";
    assert_eq!(
        parse(input),
        Err(ParseError::GrammarMismatch { offset: 38, expected: Expected::OpenBrace })
    );
}

#[test]
fn class_without_methods_has_an_empty_list() {
    let input = "#include <foo>\nnamespace a {\nclass Foo {";
    let model = parse(input).unwrap();
    assert_eq!(model.classes[0].name, "Foo");
    assert_eq!(model.classes[0].methods, vec![]);
}

#[test]
fn whichever_keyword_stands_first_names_the_class() {
    let input = "#include <x>\nnamespace n {\nstruct First { };\nclass Second { };\n";
    let model = parse(input).unwrap();
    assert_eq!(model.classes[0].name, "First");
    let input = "#include <x>\nnamespace n {\nclass Second { };\nstruct First { };\n";
    let model = parse(input).unwrap();
    assert_eq!(model.classes[0].name, "Second");
}

#[test]
fn a_broken_method_ends_the_list() {
    let input = "#include <x>\nnamespace n {\nclass C {\nvirtual int a();\nvirtual int b(\n";
    let model = parse(input).unwrap();
    assert_eq!(model.classes[0].methods.len(), 1);
    assert_eq!(model.classes[0].methods[0].name, "a");
    assert_eq!(model.classes[0].methods[0].return_value, Some("int".to_owned()));
}

#[test]
fn methods_come_in_source_order() {
    let input = "#include <x>\nnamespace n {\nclass C {\nvirtual int a();\nvirtual int b(int x) = 0;\nvirtual void c(bool);\n};\n}\n";
    let model = parse(input).unwrap();
    let names: Vec<String> = model.classes[0].methods.iter().map(|m| m.name.clone()).collect();
    assert_eq!(names, vec!["a".to_owned(), "b".to_owned(), "c".to_owned()]);
}

#[test]
fn text_beyond_ascii_is_kept() {
    let input = "#include <caf\u{e9}.h>\nnamespace n {\nclass C {\n";
    let model = parse(input).unwrap();
    assert_eq!(model.includes, vec!["<caf\u{e9}.h>".to_owned()]);
}

#[test]
fn malformed_inclusion_target() {
    let input = b"#include <f\xFFo>\nnamespace a {\nclass B {\n";
    assert_eq!(
        parse_bytes(input),
        Err(ParseError::MalformedUtf8 { field: Field::Includes })
    );
}

#[test]
fn malformed_argument_token() {
    let input = b"#include <foo>\nnamespace a {\nclass B {\nvirtual void f(in\xFFt x);\n";
    assert_eq!(
        parse_bytes(input),
        Err(ParseError::MalformedUtf8 { field: Field::Methods })
    );
}

#[test]
fn grammar_errors_come_before_malformed_text() {
    let input = b"#include <f\xFFo>\nnamespace a {\n";
    assert_eq!(
        parse_bytes(input),
        Err(ParseError::GrammarMismatch { offset: 29, expected: Expected::ClassKeyword })
    );
}
