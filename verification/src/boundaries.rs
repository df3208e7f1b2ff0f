//! Why the spans that the grammar captures from valid UTF-8 always decode:
//! each of them starts and ends between two characters.

use vstd::prelude::*;
use vstd::utf8::{
    is_char_boundary_iff_not_is_continuation_byte, is_char_boundary_start_end_of_seq,
    is_continuation_byte, length_of_first_scalar, pop_first_scalar, valid_first_scalar, valid_utf8,
    valid_utf8_split,
};
use crate::bytes::{find, lemma_find, lemma_run_end, matches_at, run_end, ByteClass, COMMA, TILDE};
use crate::error::ParseError;
use crate::grammar::{
    argument_list_spec, class_keyword_end, class_name_spec, header_spec, include_items,
    lemma_class_name, lemma_method, lemma_named_block, lemma_one_argument, lemma_one_include,
    lemma_one_namespace, method_items, method_name_end, method_spec, named_block_spec,
    namespace_items, one_argument_spec, one_include_spec, one_namespace_spec, ArgumentSpans,
    Literal, MethodShape, Span,
};
use crate::model::{argument_of, method_of, parse_spec, text_of};

verus! {

/// Whether the position `p` of `s` is not inside the encoding of a
/// character: it is the end of `s`, or the byte there starts a character.
pub open spec fn at_boundary(s: Seq<u8>, p: int) -> bool {
    0 <= p <= s.len() && (p < s.len() ==> !is_continuation_byte(s[p]))
}

/// Whether a span is a range of `s` that starts and ends between characters.
pub open spec fn decodable(s: Seq<u8>, span: Span) -> bool {
    span.within(s) && at_boundary(s, span.start as int) && at_boundary(s, span.end as int)
}

/// Whether both spans of an argument are decodable.
pub open spec fn argument_decodable(s: Seq<u8>, a: ArgumentSpans) -> bool {
    decodable(s, a.argument_type) && match a.argument_name {
        Some(n) => decodable(s, n),
        None => true,
    }
}

/// Whether all spans of a method are decodable.
pub open spec fn method_decodable(s: Seq<u8>, m: MethodShape) -> bool {
    &&& decodable(s, m.return_type)
    &&& decodable(s, m.name)
    &&& forall|j: int| 0 <= j < m.arguments.len() ==> argument_decodable(s, #[trigger] m.arguments[j])
}

/// In valid UTF-8 the position behind an ASCII byte is between characters.
pub proof fn lemma_boundary_after_ascii(s: Seq<u8>, p: int)
    requires
        valid_utf8(s),
        0 < p <= s.len(),
        s[p - 1] <= 0x7f,
    ensures
        at_boundary(s, p),
{
    if p < s.len() {
        is_char_boundary_iff_not_is_continuation_byte(s, p - 1);
        valid_utf8_split(s, p - 1);
        let t = s.subrange(p - 1, s.len() as int);
        assert(t[0] == s[p - 1]);
        assert(valid_utf8(t));
        assert(valid_first_scalar(t) && valid_utf8(pop_first_scalar(t)));
        assert(length_of_first_scalar(t) == 1);
        let u = pop_first_scalar(t);
        assert(u =~= s.subrange(p, s.len() as int));
        assert(valid_utf8(u));
        assert(valid_first_scalar(u));
        assert(u[0] == s[p]);
    }
}

/// In valid UTF-8 the bytes between two positions that are between
/// characters are valid UTF-8 themselves.
pub proof fn lemma_decodable(s: Seq<u8>, span: Span)
    requires
        valid_utf8(s),
        decodable(s, span),
    ensures
        valid_utf8(span.of(s)),
        text_of(s, span) is Some,
{
    let a = span.start as int;
    let b = span.end as int;
    if b < s.len() {
        is_char_boundary_iff_not_is_continuation_byte(s, b);
    } else {
        is_char_boundary_start_end_of_seq(s);
    }
    valid_utf8_split(s, b);
    let t = s.subrange(0, b);
    if a < b {
        assert(t[a] == s[a]);
        is_char_boundary_iff_not_is_continuation_byte(t, a);
    } else {
        is_char_boundary_start_end_of_seq(t);
    }
    valid_utf8_split(t, a);
    assert(t.subrange(a, t.len() as int) =~= s.subrange(a, b));
}

/// A run that starts between characters ends between characters.
pub proof fn lemma_run_boundary(s: Seq<u8>, p: int, class: ByteClass)
    requires
        valid_utf8(s),
        at_boundary(s, p),
    ensures
        at_boundary(s, run_end(s, p, class)),
        p <= run_end(s, p, class) <= s.len(),
{
    lemma_run_end(s, p, class);
    let e = run_end(s, p, class);
    if e > p {
        match class {
            ByteClass::Whitespace => {
                assert(class.holds(s[e - 1]));
                lemma_boundary_after_ascii(s, e);
            },
            ByteClass::Alphanumeric => {
                assert(class.holds(s[e - 1]));
                lemma_boundary_after_ascii(s, e);
            },
            _ => {},
        }
    }
}

/// The position behind a literal marker is between characters.
pub proof fn lemma_boundary_after_literal(s: Seq<u8>, k: int, lit: Literal)
    requires
        valid_utf8(s),
        matches_at(s, k, lit.bytes()),
    ensures
        at_boundary(s, k + lit.bytes().len()),
        0 <= k,
        k + lit.bytes().len() <= s.len(),
{
    let n = lit.bytes().len() as int;
    assert(n >= 1 && lit.bytes()[n - 1] <= 0x7f) by {
        match lit {
            Literal::IncludeDirective => {},
            Literal::Namespace => {},
            Literal::Class => {},
            Literal::Struct => {},
            Literal::Virtual => {},
            Literal::OpenBrace => {},
            Literal::OpenParen => {},
            Literal::Semicolon => {},
        }
    }
    assert(s.subrange(k, k + n)[n - 1] == s[k + n - 1]);
    lemma_boundary_after_ascii(s, k + n);
}

/// The target of a directive that is found in valid UTF-8 is decodable.
pub proof fn lemma_one_include_decodable(s: Seq<u8>, pos: int)
    requires
        valid_utf8(s),
        0 <= pos <= s.len() <= usize::MAX,
    ensures
        match one_include_spec(s, pos) {
            Ok((target, _)) => decodable(s, target),
            Err(_) => true,
        },
{
    let lit = Literal::IncludeDirective;
    let lead = run_end(s, pos, ByteClass::Whitespace);
    lemma_one_include(s, pos);
    if matches_at(s, lead, lit.bytes()) {
        lemma_boundary_after_literal(s, lead, lit);
        lemma_run_boundary(s, lead + lit.bytes().len(), ByteClass::Whitespace);
        let head = run_end(s, lead + lit.bytes().len(), ByteClass::Whitespace);
        lemma_run_boundary(s, head, ByteClass::Visible);
    }
}

/// The name of a named block that is found in valid UTF-8 behind a position
/// between characters is decodable.
pub proof fn lemma_named_block_decodable(s: Seq<u8>, pos: int)
    requires
        valid_utf8(s),
        at_boundary(s, pos),
        s.len() <= usize::MAX,
    ensures
        match named_block_spec(s, pos) {
            Ok((name, _)) => decodable(s, name),
            Err(_) => true,
        },
{
    lemma_named_block(s, pos);
    lemma_run_boundary(s, pos, ByteClass::Whitespace);
    lemma_run_boundary(s, run_end(s, pos, ByteClass::Whitespace), ByteClass::Alphanumeric);
}

/// The name of a namespace that is found in valid UTF-8 is decodable.
pub proof fn lemma_one_namespace_decodable(s: Seq<u8>, pos: int)
    requires
        valid_utf8(s),
        0 <= pos <= s.len() <= usize::MAX,
    ensures
        match one_namespace_spec(s, pos) {
            Ok((name, _)) => decodable(s, name),
            Err(_) => true,
        },
{
    let lit = Literal::Namespace;
    let lead = run_end(s, pos, ByteClass::Whitespace);
    if matches_at(s, lead, lit.bytes()) {
        lemma_boundary_after_literal(s, lead, lit);
        lemma_named_block_decodable(s, lead + lit.bytes().len());
    }
}

/// The name of a class that is found in valid UTF-8 is decodable.
pub proof fn lemma_class_name_decodable(s: Seq<u8>, pos: int)
    requires
        valid_utf8(s),
        0 <= pos <= s.len() <= usize::MAX,
    ensures
        match class_name_spec(s, pos) {
            Ok((name, _)) => decodable(s, name),
            Err(_) => true,
        },
{
    lemma_find(s, pos, Literal::Class.bytes());
    lemma_find(s, pos, Literal::Struct.bytes());
    match find(s, pos, Literal::Class.bytes()) {
        Some(c) => {
            lemma_boundary_after_literal(s, c, Literal::Class);
        },
        None => {},
    }
    match find(s, pos, Literal::Struct.bytes()) {
        Some(t) => {
            lemma_boundary_after_literal(s, t, Literal::Struct);
        },
        None => {},
    }
    match class_keyword_end(s, pos) {
        Some(k) => {
            lemma_named_block_decodable(s, k);
        },
        None => {},
    }
}

/// The spans of an argument that is found in valid UTF-8 behind a position
/// between characters are decodable.
pub proof fn lemma_one_argument_decodable(s: Seq<u8>, pos: int)
    requires
        valid_utf8(s),
        at_boundary(s, pos),
        s.len() <= usize::MAX,
    ensures
        match one_argument_spec(s, pos) {
            Ok((a, _)) => argument_decodable(s, a),
            Err(_) => true,
        },
{
    lemma_one_argument(s, pos);
    let t0 = run_end(s, pos, ByteClass::Whitespace);
    lemma_run_boundary(s, pos, ByteClass::Whitespace);
    let t1 = run_end(s, t0, ByteClass::Token);
    lemma_run_boundary(s, t0, ByteClass::Token);
    let n0 = run_end(s, t1, ByteClass::Whitespace);
    lemma_run_boundary(s, t1, ByteClass::Whitespace);
    lemma_run_boundary(s, n0, ByteClass::Token);
}

/// The spans of the arguments of a list that is found in valid UTF-8 behind
/// a position between characters are decodable.
pub proof fn lemma_argument_list_decodable(s: Seq<u8>, pos: int)
    requires
        valid_utf8(s),
        at_boundary(s, pos),
        s.len() <= usize::MAX,
    ensures
        match argument_list_spec(s, pos) {
            Ok((args, _)) => forall|j: int| 0 <= j < args.len() ==> argument_decodable(s, #[trigger] args[j]),
            Err(_) => true,
        },
    decreases s.len() - pos,
{
    lemma_one_argument(s, pos);
    lemma_one_argument_decodable(s, pos);
    match one_argument_spec(s, pos) {
        Ok((a, d)) => {
            if s[d as int] == COMMA {
                lemma_boundary_after_ascii(s, d + 1);
                lemma_argument_list_decodable(s, d + 1);
            }
        },
        Err(_) => {},
    }
}

/// The spans of a method that is found in valid UTF-8 are decodable.
pub proof fn lemma_method_decodable(s: Seq<u8>, pos: int)
    requires
        valid_utf8(s),
        0 <= pos <= s.len() <= usize::MAX,
    ensures
        match method_spec(s, pos) {
            Ok((m, _)) => method_decodable(s, m),
            Err(_) => true,
        },
{
    let lit = Literal::Virtual;
    lemma_find(s, pos, lit.bytes());
    match find(s, pos, lit.bytes()) {
        Some(v) => {
            lemma_boundary_after_literal(s, v, lit);
            let r0 = run_end(s, v + lit.bytes().len(), ByteClass::Whitespace);
            lemma_run_boundary(s, v + lit.bytes().len(), ByteClass::Whitespace);
            let r1 = run_end(s, r0, ByteClass::Alphanumeric);
            lemma_run_boundary(s, r0, ByteClass::Alphanumeric);
            let n0 = run_end(s, r1, ByteClass::Whitespace);
            lemma_run_boundary(s, r1, ByteClass::Whitespace);
            let n1 = method_name_end(s, n0);
            if n0 < s.len() && s[n0] == TILDE {
                lemma_boundary_after_ascii(s, n0 + 1);
                lemma_run_boundary(s, n0 + 1, ByteClass::Alphanumeric);
            } else {
                lemma_run_boundary(s, n0, ByteClass::Alphanumeric);
            }
            lemma_find(s, n1, Literal::OpenParen.bytes());
            match find(s, n1, Literal::OpenParen.bytes()) {
                Some(open) => {
                    lemma_boundary_after_literal(s, open, Literal::OpenParen);
                    lemma_argument_list_decodable(s, open + 1);
                },
                None => {},
            }
        },
        None => {},
    }
}

/// Every target of a block of directives in valid UTF-8 is decodable.
pub proof fn lemma_include_items_decodable(s: Seq<u8>, pos: int)
    requires
        valid_utf8(s),
        0 <= pos <= s.len() <= usize::MAX,
    ensures
        forall|i: int|
            0 <= i < include_items(s, pos).0.len() ==> decodable(s, #[trigger] include_items(s, pos).0[i]),
        include_items(s, pos).1 <= s.len(),
    decreases s.len() - pos,
{
    lemma_one_include(s, pos);
    lemma_one_include_decodable(s, pos);
    match one_include_spec(s, pos) {
        Ok((target, next)) => {
            lemma_include_items_decodable(s, next as int);
            let rest = include_items(s, next as int).0;
            assert forall|i: int| 0 <= i < include_items(s, pos).0.len() implies decodable(
                s,
                #[trigger] include_items(s, pos).0[i],
            ) by {
                if i > 0 {
                    assert(include_items(s, pos).0[i] == rest[i - 1]);
                }
            }
        },
        Err(_) => {},
    }
}

/// Every name of a chain of namespaces in valid UTF-8 is decodable.
pub proof fn lemma_namespace_items_decodable(s: Seq<u8>, pos: int)
    requires
        valid_utf8(s),
        0 <= pos <= s.len() <= usize::MAX,
    ensures
        forall|i: int|
            0 <= i < namespace_items(s, pos).0.len() ==> decodable(
                s,
                #[trigger] namespace_items(s, pos).0[i],
            ),
        namespace_items(s, pos).1 <= s.len(),
    decreases s.len() - pos,
{
    lemma_one_namespace(s, pos);
    lemma_one_namespace_decodable(s, pos);
    match one_namespace_spec(s, pos) {
        Ok((name, next)) => {
            lemma_namespace_items_decodable(s, next as int);
            let rest = namespace_items(s, next as int).0;
            assert forall|i: int| 0 <= i < namespace_items(s, pos).0.len() implies decodable(
                s,
                #[trigger] namespace_items(s, pos).0[i],
            ) by {
                if i > 0 {
                    assert(namespace_items(s, pos).0[i] == rest[i - 1]);
                }
            }
        },
        Err(_) => {},
    }
}

/// Every method that is found in valid UTF-8 has decodable spans.
pub proof fn lemma_method_items_decodable(s: Seq<u8>, pos: int)
    requires
        valid_utf8(s),
        0 <= pos <= s.len() <= usize::MAX,
    ensures
        forall|i: int|
            0 <= i < method_items(s, pos).len() ==> method_decodable(s, #[trigger] method_items(s, pos)[i]),
    decreases s.len() - pos,
{
    lemma_method(s, pos);
    lemma_method_decodable(s, pos);
    match method_spec(s, pos) {
        Ok((m, next)) => {
            lemma_method_items_decodable(s, next as int);
            let rest = method_items(s, next as int);
            assert forall|i: int| 0 <= i < method_items(s, pos).len() implies method_decodable(
                s,
                #[trigger] method_items(s, pos)[i],
            ) by {
                if i > 0 {
                    assert(method_items(s, pos)[i] == rest[i - 1]);
                }
            }
        },
        Err(_) => {},
    }
}

/// A method whose spans are decodable is built without error.
pub proof fn lemma_method_builds(s: Seq<u8>, m: MethodShape)
    requires
        valid_utf8(s),
        method_decodable(s, m),
    ensures
        method_of(s, m) is Ok,
{
    assert forall|j: int| 0 <= j < m.arguments.len() implies (#[trigger] argument_of(s, m.arguments[j])) is Ok by {
        let a = m.arguments[j];
        assert(argument_decodable(s, a));
        lemma_decodable(s, a.argument_type);
        match a.argument_name {
            Some(n) => {
                lemma_decodable(s, n);
            },
            None => {},
        }
    }
    lemma_decodable(s, m.return_type);
    lemma_decodable(s, m.name);
}

/// Valid UTF-8 never fails for its encoding: where the grammar finds a
/// header in it, the model is assembled.
pub proof fn law_text_always_decodes(s: Seq<u8>)
    requires
        valid_utf8(s),
        s.len() <= usize::MAX,
    ensures
        parse_spec(s) is Ok <==> header_spec(s) is Ok,
        parse_spec(s) is Err ==> parse_spec(s) == Err::<crate::model::ModelView, ParseError>(
            header_spec(s)->Err_0,
        ),
        parse_spec(s) matches Err(e) ==> !(e is MalformedUtf8),
{
    match header_spec(s) {
        Ok(h) => {
            let first = find(s, 0, Literal::IncludeDirective.bytes())->Some_0;
            lemma_find(s, 0, Literal::IncludeDirective.bytes());
            lemma_include_items_decodable(s, first);
            let c1 = include_items(s, first).1;
            let ns = find(s, c1 as int, Literal::Namespace.bytes())->Some_0;
            lemma_find(s, c1 as int, Literal::Namespace.bytes());
            lemma_namespace_items_decodable(s, ns);
            let c2 = namespace_items(s, ns).1;
            lemma_class_name(s, c2 as int);
            lemma_class_name_decodable(s, c2 as int);
            let c3 = class_name_spec(s, c2 as int)->Ok_0.1;
            lemma_method_items_decodable(s, c3 as int);
            assert forall|i: int| 0 <= i < h.includes.len() implies (#[trigger] text_of(s, h.includes[i])) is Some by {
                lemma_decodable(s, h.includes[i]);
            }
            assert forall|i: int| 0 <= i < h.namespaces.len() implies (#[trigger] text_of(
                s,
                h.namespaces[i],
            )) is Some by {
                lemma_decodable(s, h.namespaces[i]);
            }
            lemma_decodable(s, h.class_name);
            assert forall|i: int| 0 <= i < h.methods.len() implies (#[trigger] method_of(s, h.methods[i])) is Ok by {
                lemma_method_builds(s, h.methods[i]);
            }
        },
        Err(_) => {},
    }
}

} // verus!
