//! Laws of the grammar and of the model, proved from the specification
//! functions that the contracts of the scanners and of `parse` use.

use vstd::prelude::*;
use vstd::utf8::{decode_utf8_encode_utf8, encode_utf8};
use crate::bytes::{
    find, lemma_find, lemma_run_end, matches_at, run_end, ByteClass, CLOSE_PAREN, COMMA,
};
use crate::error::ParseError;
use crate::grammar::{
    argument_list_spec, arguments_spec, class_keyword_end, class_name_spec, header_spec, include_block_spec, include_items,
    lemma_class_name, lemma_method, lemma_named_block, lemma_one_include, lemma_one_namespace, method_items,
    method_spec, named_block_spec, namespace_items, namespaces_spec, one_argument_spec,
    one_include_spec, one_namespace_spec, span, ArgumentSpans, HeaderShape, Literal, MethodShape,
    Span,
};
use crate::model::{
    is_parse_of, make_argument_spec, method_of, parse_spec, text_of, ArgumentView, MethodView,
    Model, ModelView,
};

verus! {

/// Whether `cursors` and `items` trace a run of consecutive items of the
/// scanner `step`: item `i` is found at cursor `i` and leaves the cursor at
/// `i + 1`, and at the last cursor no item is found.
pub open spec fn is_chain<T>(
    step: spec_fn(int) -> Result<(T, usize), ParseError>,
    cursors: Seq<usize>,
    items: Seq<T>,
) -> bool {
    &&& cursors.len() == items.len() + 1
    &&& forall|i: int|
        0 <= i < items.len() ==> #[trigger] step(cursors[i] as int) == Ok::<(T, usize), ParseError>(
            (items[i], cursors[i + 1]),
        )
    &&& step(cursors[items.len() as int] as int) is Err
}

/// Parsing is a function of the input: two results of parsing the same
/// bytes are both models with the same content, or both the same error.
pub proof fn law_parse_deterministic(
    s: Seq<u8>,
    first: Result<Model, ParseError>,
    second: Result<Model, ParseError>,
)
    requires
        is_parse_of(s, first),
        is_parse_of(s, second),
    ensures
        first is Ok <==> second is Ok,
        first is Ok ==> first->Ok_0@ == second->Ok_0@,
        first is Err ==> first->Err_0 == second->Err_0,
{
}

/// A model has exactly one class, at least one inclusion and at least one
/// namespace, and each of its methods counts as pure virtual.
pub proof fn law_model_shape(s: Seq<u8>, m: ModelView)
    requires
        parse_spec(s) == Ok::<ModelView, ParseError>(m),
    ensures
        m.classes.len() == 1,
        m.includes.len() >= 1,
        m.classes[0].namespaces.len() >= 1,
        forall|i: int| 0 <= i < m.classes[0].methods.len() ==> (#[trigger] m.classes[0].methods[i]).is_pure_virtual,
{
    let h = header_spec(s)->Ok_0;
    assert forall|i: int| 0 <= i < m.classes[0].methods.len() implies (#[trigger] m.classes[0].methods[i]).is_pure_virtual by {
        assert(method_of(s, h.methods[i]) is Ok);
    }
}

/// Directives that follow one another from a cursor are all captured, in
/// source order, and the block ends at the cursor where the next attempt
/// fails.
pub proof fn law_include_chain(s: Seq<u8>, cursors: Seq<usize>, targets: Seq<Span>, k: int)
    requires
        s.len() <= usize::MAX,
        is_chain(|p: int| one_include_spec(s, p), cursors, targets),
        0 <= k <= targets.len(),
        cursors[k] <= s.len(),
    ensures
        include_items(s, cursors[k] as int) == (
            targets.subrange(k, targets.len() as int),
            cursors[targets.len() as int],
        ),
    decreases targets.len() - k,
{
    let step = |p: int| one_include_spec(s, p);
    let n = targets.len() as int;
    if k < n {
        assert(step(cursors[k] as int) == Ok::<(Span, usize), ParseError>((targets[k], cursors[k + 1])));
        lemma_one_include(s, cursors[k] as int);
        law_include_chain(s, cursors, targets, k + 1);
        assert(seq![targets[k]] + targets.subrange(k + 1, n) =~= targets.subrange(k, n));
    } else {
        assert(step(cursors[n] as int) is Err);
        assert(targets.subrange(k, n) =~= Seq::<Span>::empty());
    }
}

/// Namespace openings that follow one another from a cursor are all
/// captured, outermost first, and the chain ends at the cursor where the
/// next attempt fails.
pub proof fn law_namespace_chain(s: Seq<u8>, cursors: Seq<usize>, names: Seq<Span>, k: int)
    requires
        s.len() <= usize::MAX,
        is_chain(|p: int| one_namespace_spec(s, p), cursors, names),
        0 <= k <= names.len(),
        cursors[k] <= s.len(),
    ensures
        namespace_items(s, cursors[k] as int) == (
            names.subrange(k, names.len() as int),
            cursors[names.len() as int],
        ),
    decreases names.len() - k,
{
    let step = |p: int| one_namespace_spec(s, p);
    let n = names.len() as int;
    if k < n {
        assert(step(cursors[k] as int) == Ok::<(Span, usize), ParseError>((names[k], cursors[k + 1])));
        lemma_one_namespace(s, cursors[k] as int);
        law_namespace_chain(s, cursors, names, k + 1);
        assert(seq![names[k]] + names.subrange(k + 1, n) =~= names.subrange(k, n));
    } else {
        assert(step(cursors[n] as int) is Err);
        assert(names.subrange(k, n) =~= Seq::<Span>::empty());
    }
}

/// Methods that follow one another from a cursor are all captured, in
/// source order, and no more: the list is as long as the run of
/// declarations that are found.
pub proof fn law_method_chain(s: Seq<u8>, cursors: Seq<usize>, methods: Seq<MethodShape>, k: int)
    requires
        s.len() <= usize::MAX,
        is_chain(|p: int| method_spec(s, p), cursors, methods),
        0 <= k <= methods.len(),
        cursors[k] <= s.len(),
    ensures
        method_items(s, cursors[k] as int) == methods.subrange(k, methods.len() as int),
    decreases methods.len() - k,
{
    let step = |p: int| method_spec(s, p);
    let n = methods.len() as int;
    if k < n {
        assert(step(cursors[k] as int) == Ok::<(MethodShape, usize), ParseError>(
            (methods[k], cursors[k + 1]),
        ));
        lemma_method(s, cursors[k] as int);
        law_method_chain(s, cursors, methods, k + 1);
        assert(seq![methods[k]] + methods.subrange(k + 1, n) =~= methods.subrange(k, n));
    } else {
        assert(step(cursors[n] as int) is Err);
        assert(methods.subrange(k, n) =~= Seq::<MethodShape>::empty());
    }
}

/// A directive that is found is whitespace, the marker, whitespace, a
/// target without whitespace in it, and whitespace up to the next byte that
/// is none: the target is captured as it stands, delimiters included.
pub proof fn law_one_include_verbatim(s: Seq<u8>, pos: int, target: Span, next: usize)
    requires
        0 <= pos <= s.len() <= usize::MAX,
        one_include_spec(s, pos) == Ok::<(Span, usize), ParseError>((target, next)),
    ensures
        ({
            let marker = run_end(s, pos, ByteClass::Whitespace);
            let behind = marker + Literal::IncludeDirective.bytes().len();
            &&& pos <= marker && matches_at(s, marker, Literal::IncludeDirective.bytes())
            &&& behind <= target.start < target.end < next <= s.len()
            &&& forall|i: int| pos <= i < marker ==> ByteClass::Whitespace.holds(#[trigger] s[i])
            &&& forall|i: int| behind <= i < target.start ==> ByteClass::Whitespace.holds(#[trigger] s[i])
            &&& forall|i: int| target.start <= i < target.end ==> !ByteClass::Whitespace.holds(#[trigger] s[i])
            &&& forall|i: int| target.end <= i < next ==> ByteClass::Whitespace.holds(#[trigger] s[i])
            &&& next < s.len() ==> !ByteClass::Whitespace.holds(s[next as int])
        }),
{
    let lit = Literal::IncludeDirective.bytes();
    let lead = run_end(s, pos, ByteClass::Whitespace);
    lemma_run_end(s, pos, ByteClass::Whitespace);
    let head = run_end(s, lead + lit.len(), ByteClass::Whitespace);
    lemma_run_end(s, lead + lit.len(), ByteClass::Whitespace);
    let tail = run_end(s, head, ByteClass::Visible);
    lemma_run_end(s, head, ByteClass::Visible);
    lemma_run_end(s, tail, ByteClass::Whitespace);
    assert forall|i: int| target.start <= i < target.end implies !ByteClass::Whitespace.holds(#[trigger] s[i]) by {
        assert(ByteClass::Visible.holds(s[i]));
    }
}

/// A block of `n >= 1` directives, each followed only by whitespace before
/// the next one, yields `n` targets in source order.
pub proof fn law_include_block(s: Seq<u8>, pos: int, cursors: Seq<usize>, targets: Seq<Span>)
    requires
        s.len() <= usize::MAX,
        0 <= pos,
        targets.len() >= 1,
        is_chain(|p: int| one_include_spec(s, p), cursors, targets),
        find(s, pos, Literal::IncludeDirective.bytes()) == Some(cursors[0] as int),
    ensures
        include_block_spec(s, pos) == Ok::<(Seq<Span>, usize), ParseError>(
            (targets, cursors[targets.len() as int]),
        ),
{
    lemma_find(s, pos, Literal::IncludeDirective.bytes());
    law_include_chain(s, cursors, targets, 0);
    assert(targets.subrange(0, targets.len() as int) =~= targets);
}

/// A chain of `n >= 1` namespace openings, each followed only by whitespace
/// before the next one, yields `n` names, outermost first.
pub proof fn law_namespace_block(s: Seq<u8>, pos: int, cursors: Seq<usize>, names: Seq<Span>)
    requires
        s.len() <= usize::MAX,
        0 <= pos,
        names.len() >= 1,
        is_chain(|p: int| one_namespace_spec(s, p), cursors, names),
        find(s, pos, Literal::Namespace.bytes()) == Some(cursors[0] as int),
    ensures
        namespaces_spec(s, pos) == Ok::<(Seq<Span>, usize), ParseError>(
            (names, cursors[names.len() as int]),
        ),
{
    lemma_find(s, pos, Literal::Namespace.bytes());
    law_namespace_chain(s, cursors, names, 0);
    assert(names.subrange(0, names.len() as int) =~= names);
}

/// An input in which the keyword `namespace` stands nowhere does not parse:
/// it is incomplete.
pub proof fn law_no_namespace_fails(s: Seq<u8>)
    requires
        forall|i: int| !matches_at(s, i, Literal::Namespace.bytes()),
    ensures
        parse_spec(s) is Err,
        parse_spec(s)->Err_0 is Incomplete,
{
    match include_block_spec(s, 0) {
        Ok((_, c1)) => {
            lemma_find(s, c1 as int, Literal::Namespace.bytes());
        },
        Err(_) => {},
    }
}

/// The name of the class is the alphanumeric run behind the whitespace that
/// follows whichever of `class` and `struct` stands first at or after the
/// cursor.
pub proof fn law_class_name(s: Seq<u8>, pos: int, k: int, keyword: Literal)
    requires
        0 <= pos <= k,
        s.len() <= usize::MAX,
        keyword == Literal::Class || keyword == Literal::Struct,
        matches_at(s, k, keyword.bytes()),
        forall|j: int|
            pos <= j < k ==> !matches_at(s, j, Literal::Class.bytes()) && !matches_at(
                s,
                j,
                Literal::Struct.bytes(),
            ),
    ensures
        class_name_spec(s, pos) == named_block_spec(s, k + keyword.bytes().len()),
        match class_name_spec(s, pos) {
            Ok((name, next)) => {
                &&& name.start == run_end(s, k + keyword.bytes().len(), ByteClass::Whitespace)
                &&& name.end == run_end(s, name.start as int, ByteClass::Alphanumeric)
                &&& name.end < next <= s.len()
                &&& forall|i: int| name.start <= i < name.end ==> ByteClass::Alphanumeric.holds(#[trigger] s[i])
                &&& !ByteClass::Alphanumeric.holds(s[name.end as int])
            },
            Err(_) => true,
        },
{
    let c = Literal::Class.bytes();
    let t = Literal::Struct.bytes();
    lemma_find(s, pos, c);
    lemma_find(s, pos, t);
    if matches_at(s, k, c) && matches_at(s, k, t) {
        assert(s.subrange(k, k + c.len())[0] == c[0]);
        assert(s.subrange(k, k + t.len())[0] == t[0]);
        assert(false);
    }
    let after = k + keyword.bytes().len();
    assert(class_keyword_end(s, pos) == Some(after));
    lemma_run_end(s, after, ByteClass::Whitespace);
    lemma_run_end(s, run_end(s, after, ByteClass::Whitespace), ByteClass::Alphanumeric);
    lemma_named_block(s, after);
}

/// An argument's name is absent exactly where a delimiter follows its type
/// and the whitespace behind it; otherwise it is the token that stands
/// there.
pub proof fn law_one_argument(s: Seq<u8>, pos: int, argument: ArgumentSpans, d: usize)
    requires
        0 <= pos <= s.len() <= usize::MAX,
        one_argument_spec(s, pos) == Ok::<(ArgumentSpans, usize), ParseError>((argument, d)),
    ensures
        ({
            let ty = argument.argument_type;
            let behind = run_end(s, ty.end as int, ByteClass::Whitespace);
            &&& ty.start == run_end(s, pos, ByteClass::Whitespace)
            &&& ty.start < ty.end <= behind <= d < s.len()
            &&& forall|i: int| ty.start <= i < ty.end ==> ByteClass::Token.holds(#[trigger] s[i])
            &&& !ByteClass::Token.holds(s[ty.end as int])
            &&& argument.argument_name is None <==> s[behind] == COMMA || s[behind] == CLOSE_PAREN
            &&& match argument.argument_name {
                Some(name) => {
                    &&& name.start == behind && name.start < name.end <= d
                    &&& forall|i: int| name.start <= i < name.end ==> ByteClass::Token.holds(#[trigger] s[i])
                    &&& !ByteClass::Token.holds(s[name.end as int])
                },
                None => true,
            }
        }),
{
    let t0 = run_end(s, pos, ByteClass::Whitespace);
    lemma_run_end(s, pos, ByteClass::Whitespace);
    let t1 = run_end(s, t0, ByteClass::Token);
    lemma_run_end(s, t0, ByteClass::Token);
    let n0 = run_end(s, t1, ByteClass::Whitespace);
    lemma_run_end(s, t1, ByteClass::Whitespace);
    let n1 = run_end(s, n0, ByteClass::Token);
    lemma_run_end(s, n0, ByteClass::Token);
    lemma_run_end(s, n1, ByteClass::Undelimited);
}

/// An argument of one token has no name; in one of two tokens or more the
/// name is the text of the second.
pub proof fn law_argument_name(tokens: Seq<Seq<u8>>, argument: ArgumentView)
    requires
        tokens.len() >= 1,
        make_argument_spec(tokens) == Ok::<ArgumentView, ParseError>(argument),
    ensures
        encode_utf8(argument.argument_type) == tokens[0],
        tokens.len() == 1 ==> argument.argument_name is None,
        tokens.len() >= 2 ==> argument.argument_name is Some && encode_utf8(
            argument.argument_name->Some_0,
        ) == tokens[1],
{
    decode_utf8_encode_utf8(tokens[0]);
    if tokens.len() >= 2 {
        decode_utf8_encode_utf8(tokens[1]);
    }
}

/// Whether the text `t` is what the span captures: its UTF-8 encoding is
/// the bytes of the span.
pub open spec fn captures(s: Seq<u8>, span: Span, t: Seq<char>) -> bool {
    span.within(s) && encode_utf8(t) == span.of(s)
}

/// Whether the argument `a` is what the spans capture.
pub open spec fn captures_argument(s: Seq<u8>, spans: ArgumentSpans, a: ArgumentView) -> bool {
    &&& captures(s, spans.argument_type, a.argument_type)
    &&& match spans.argument_name {
        Some(n) => a.argument_name is Some && captures(s, n, a.argument_name->Some_0),
        None => a.argument_name is None,
    }
}

/// Whether the method `m` is what the spans capture.
pub open spec fn captures_method(s: Seq<u8>, spans: MethodShape, m: MethodView) -> bool {
    &&& m.return_value is Some && captures(s, spans.return_type, m.return_value->Some_0)
    &&& captures(s, spans.name, m.name)
    &&& m.is_pure_virtual
    &&& m.arguments.len() == spans.arguments.len()
    &&& forall|j: int|
        0 <= j < spans.arguments.len() ==> captures_argument(
            s,
            #[trigger] spans.arguments[j],
            m.arguments[j],
        )
}

/// A method that is built holds the text of each of its spans, argument by
/// argument in declaration order.
pub proof fn law_method_texts(s: Seq<u8>, spans: MethodShape, m: MethodView)
    requires
        method_of(s, spans) == Ok::<MethodView, ParseError>(m),
    ensures
        captures_method(s, spans, m),
{
    decode_utf8_encode_utf8(spans.return_type.of(s));
    decode_utf8_encode_utf8(spans.name.of(s));
    assert forall|j: int| 0 <= j < spans.arguments.len() implies captures_argument(
        s,
        #[trigger] spans.arguments[j],
        m.arguments[j],
    ) by {
        let a = spans.arguments[j];
        assert(crate::model::argument_of(s, a) is Ok);
        decode_utf8_encode_utf8(a.argument_type.of(s));
        match a.argument_name {
            Some(n) => {
                decode_utf8_encode_utf8(n.of(s));
            },
            None => {},
        }
    }
}

/// The model holds the text of every span that the grammar captured, piece
/// by piece and in source order: as many inclusions, namespaces and methods
/// as the grammar found, and the class name.
pub proof fn law_model_texts(s: Seq<u8>, h: HeaderShape, m: ModelView)
    requires
        header_spec(s) == Ok::<HeaderShape, ParseError>(h),
        parse_spec(s) == Ok::<ModelView, ParseError>(m),
    ensures
        m.classes.len() == 1,
        m.includes.len() == h.includes.len(),
        forall|i: int| 0 <= i < h.includes.len() ==> captures(s, #[trigger] h.includes[i], m.includes[i]),
        m.classes[0].namespaces.len() == h.namespaces.len(),
        forall|i: int|
            0 <= i < h.namespaces.len() ==> captures(
                s,
                #[trigger] h.namespaces[i],
                m.classes[0].namespaces[i],
            ),
        captures(s, h.class_name, m.classes[0].name),
        m.classes[0].methods.len() == h.methods.len(),
        forall|i: int|
            0 <= i < h.methods.len() ==> captures_method(
                s,
                #[trigger] h.methods[i],
                m.classes[0].methods[i],
            ),
{
    assert forall|i: int| 0 <= i < h.includes.len() implies captures(
        s,
        #[trigger] h.includes[i],
        m.includes[i],
    ) by {
        assert(text_of(s, h.includes[i]) is Some);
        decode_utf8_encode_utf8(h.includes[i].of(s));
    }
    assert forall|i: int| 0 <= i < h.namespaces.len() implies captures(
        s,
        #[trigger] h.namespaces[i],
        m.classes[0].namespaces[i],
    ) by {
        assert(text_of(s, h.namespaces[i]) is Some);
        decode_utf8_encode_utf8(h.namespaces[i].of(s));
    }
    decode_utf8_encode_utf8(h.class_name.of(s));
    assert forall|i: int| 0 <= i < h.methods.len() implies captures_method(
        s,
        #[trigger] h.methods[i],
        m.classes[0].methods[i],
    ) by {
        assert(method_of(s, h.methods[i]) is Ok);
        law_method_texts(s, h.methods[i], m.classes[0].methods[i]);
    }
}

/// A header that holds a block of directives, a chain of namespaces, a
/// class header and a run of methods, each found where the one before it
/// stopped, is captured whole: as many items of each kind as stand there,
/// in source order.
pub proof fn law_header(
    s: Seq<u8>,
    include_cursors: Seq<usize>,
    targets: Seq<Span>,
    namespace_cursors: Seq<usize>,
    names: Seq<Span>,
    class_name: Span,
    method_cursors: Seq<usize>,
    methods: Seq<MethodShape>,
)
    requires
        s.len() <= usize::MAX,
        targets.len() >= 1,
        names.len() >= 1,
        is_chain(|p: int| one_include_spec(s, p), include_cursors, targets),
        find(s, 0, Literal::IncludeDirective.bytes()) == Some(include_cursors[0] as int),
        is_chain(|p: int| one_namespace_spec(s, p), namespace_cursors, names),
        find(s, include_cursors[targets.len() as int] as int, Literal::Namespace.bytes()) == Some(
            namespace_cursors[0] as int,
        ),
        is_chain(|p: int| method_spec(s, p), method_cursors, methods),
        class_name_spec(s, namespace_cursors[names.len() as int] as int) == Ok::<
            (Span, usize),
            ParseError,
        >((class_name, method_cursors[0])),
    ensures
        header_spec(s) == Ok::<HeaderShape, ParseError>(
            HeaderShape { includes: targets, namespaces: names, class_name, methods },
        ),
{
    law_include_block(s, 0, include_cursors, targets);
    let c1 = include_cursors[targets.len() as int];
    law_namespace_block(s, c1 as int, namespace_cursors, names);
    let c2 = namespace_cursors[names.len() as int];
    lemma_class_name(s, c2 as int);
    law_method_chain(s, method_cursors, methods, 0);
    assert(methods.subrange(0, methods.len() as int) =~= methods);
}

/// A named block that is found is whitespace, a maximal alphanumeric run
/// (the name), anything without an opening brace, the brace, and whitespace
/// up to the next byte that is none.
pub proof fn law_named_block(s: Seq<u8>, pos: int, name: Span, next: usize)
    requires
        0 <= pos <= s.len() <= usize::MAX,
        named_block_spec(s, pos) == Ok::<(Span, usize), ParseError>((name, next)),
    ensures
        pos <= name.start <= name.end < next <= s.len(),
        forall|i: int| pos <= i < name.start ==> ByteClass::Whitespace.holds(#[trigger] s[i]),
        !ByteClass::Whitespace.holds(s[name.start as int]),
        forall|i: int| name.start <= i < name.end ==> ByteClass::Alphanumeric.holds(#[trigger] s[i]),
        !ByteClass::Alphanumeric.holds(s[name.end as int]),
        ({
            let brace = find(s, name.end as int, Literal::OpenBrace.bytes())->Some_0;
            &&& name.end <= brace < next
            &&& s[brace] == 0x7Bu8
            &&& forall|i: int| name.end <= i < brace ==> #[trigger] s[i] != 0x7Bu8
            &&& forall|i: int| brace < i < next ==> ByteClass::Whitespace.holds(#[trigger] s[i])
            &&& next < s.len() ==> !ByteClass::Whitespace.holds(s[next as int])
        }),
{
    let lit = Literal::OpenBrace.bytes();
    lemma_run_end(s, pos, ByteClass::Whitespace);
    let start = run_end(s, pos, ByteClass::Whitespace);
    lemma_run_end(s, start, ByteClass::Alphanumeric);
    let end = run_end(s, start, ByteClass::Alphanumeric);
    lemma_find(s, end, lit);
    let brace = find(s, end, lit)->Some_0;
    lemma_run_end(s, brace + 1, ByteClass::Whitespace);
    assert(s.subrange(brace, brace + 1)[0] == s[brace]);
    assert forall|i: int| end <= i < brace implies #[trigger] s[i] != 0x7Bu8 by {
        if s[i] == 0x7Bu8 {
            assert(s.subrange(i, i + 1) =~= lit);
            assert(matches_at(s, i, lit));
        }
    }
}

/// A namespace opening that is found is whitespace, the keyword, and a
/// named block: its name is the identifier behind the keyword.
pub proof fn law_one_namespace(s: Seq<u8>, pos: int, name: Span, next: usize)
    requires
        0 <= pos <= s.len() <= usize::MAX,
        one_namespace_spec(s, pos) == Ok::<(Span, usize), ParseError>((name, next)),
    ensures
        ({
            let keyword = run_end(s, pos, ByteClass::Whitespace);
            let behind = keyword + Literal::Namespace.bytes().len();
            &&& pos <= keyword && matches_at(s, keyword, Literal::Namespace.bytes())
            &&& forall|i: int| pos <= i < keyword ==> ByteClass::Whitespace.holds(#[trigger] s[i])
            &&& named_block_spec(s, behind) == Ok::<(Span, usize), ParseError>((name, next))
        }),
{
    lemma_run_end(s, pos, ByteClass::Whitespace);
}

/// A method that is found starts at the first `virtual` at or after the
/// cursor; its return type is the alphanumeric run behind the keyword and
/// whitespace, its name the alphanumeric run behind that and whitespace,
/// with a tilde before it where one stands there; and it ends behind a
/// semicolon.
pub proof fn law_method(s: Seq<u8>, pos: int, m: MethodShape, next: usize)
    requires
        0 <= pos <= s.len() <= usize::MAX,
        method_spec(s, pos) == Ok::<(MethodShape, usize), ParseError>((m, next)),
    ensures
        ({
            let keyword = find(s, pos, Literal::Virtual.bytes())->Some_0;
            let behind = keyword + Literal::Virtual.bytes().len();
            let name_run = if s[m.name.start as int] == crate::bytes::TILDE {
                m.name.start + 1
            } else {
                m.name.start as int
            };
            &&& pos <= keyword && matches_at(s, keyword, Literal::Virtual.bytes())
            &&& forall|j: int| pos <= j < keyword ==> !matches_at(s, j, Literal::Virtual.bytes())
            &&& m.return_type.start == run_end(s, behind, ByteClass::Whitespace)
            &&& m.return_type.end == run_end(s, m.return_type.start as int, ByteClass::Alphanumeric)
            &&& m.name.start == run_end(s, m.return_type.end as int, ByteClass::Whitespace)
            &&& m.name.start < s.len()
            &&& m.name.end == run_end(s, name_run, ByteClass::Alphanumeric)
            &&& forall|i: int|
                m.return_type.start <= i < m.return_type.end ==> ByteClass::Alphanumeric.holds(
                    #[trigger] s[i],
                )
            &&& forall|i: int| name_run <= i < m.name.end ==> ByteClass::Alphanumeric.holds(#[trigger] s[i])
            &&& m.name.end < next <= s.len()
            &&& s[next - 1] == 0x3Bu8
        }),
{
    lemma_method(s, pos);
    let lit = Literal::Virtual.bytes();
    lemma_find(s, pos, lit);
    let v = find(s, pos, lit)->Some_0;
    let r0 = run_end(s, v + lit.len(), ByteClass::Whitespace);
    lemma_run_end(s, v + lit.len(), ByteClass::Whitespace);
    let r1 = run_end(s, r0, ByteClass::Alphanumeric);
    lemma_run_end(s, r0, ByteClass::Alphanumeric);
    let n0 = run_end(s, r1, ByteClass::Whitespace);
    lemma_run_end(s, r1, ByteClass::Whitespace);
    lemma_run_end(s, n0, ByteClass::Alphanumeric);
    if n0 < s.len() {
        lemma_run_end(s, n0 + 1, ByteClass::Alphanumeric);
    }
    let n1 = crate::grammar::method_name_end(s, n0);
    lemma_find(s, n1, Literal::OpenParen.bytes());
    let open = find(s, n1, Literal::OpenParen.bytes())->Some_0;
    let after = arguments_spec(s, open + 1)->Ok_0.1;
    lemma_find(s, after as int, Literal::Semicolon.bytes());
    let semi = find(s, after as int, Literal::Semicolon.bytes())->Some_0;
    assert(s.subrange(semi, semi + 1)[0] == s[semi]);
}

/// The number of commas among the bytes of `s` from `a` up to `b`.
pub open spec fn commas(s: Seq<u8>, a: int, b: int) -> nat
    decreases b - a,
{
    if a >= b {
        0
    } else if s[a] == COMMA {
        1 + commas(s, a + 1, b)
    } else {
        commas(s, a + 1, b)
    }
}

/// A range without a comma counts none.
pub proof fn lemma_commas_none(s: Seq<u8>, a: int, b: int)
    requires
        forall|i: int| a <= i < b ==> #[trigger] s[i] != COMMA,
    ensures
        commas(s, a, b) == 0,
    decreases b - a,
{
    if a < b {
        lemma_commas_none(s, a + 1, b);
    }
}

/// The commas of a range are those of its two parts.
pub proof fn lemma_commas_split(s: Seq<u8>, a: int, m: int, b: int)
    requires
        a <= m <= b,
    ensures
        commas(s, a, b) == commas(s, a, m) + commas(s, m, b),
    decreases m - a,
{
    if a < m {
        lemma_commas_split(s, a + 1, m, b);
    }
}

/// An argument list that is found ends behind the first closing parenthesis
/// and holds one argument for each piece between commas: one more than
/// there are commas before that parenthesis.
pub proof fn law_argument_list(s: Seq<u8>, pos: int, args: Seq<ArgumentSpans>, end: usize)
    requires
        0 <= pos <= s.len() <= usize::MAX,
        argument_list_spec(s, pos) == Ok::<(Seq<ArgumentSpans>, usize), ParseError>((args, end)),
    ensures
        pos < end <= s.len(),
        s[end - 1] == CLOSE_PAREN,
        forall|i: int| pos <= i < end - 1 ==> #[trigger] s[i] != CLOSE_PAREN,
        args.len() == commas(s, pos, end - 1) + 1,
    decreases s.len() - pos,
{
    let t0 = run_end(s, pos, ByteClass::Whitespace);
    lemma_run_end(s, pos, ByteClass::Whitespace);
    let t1 = run_end(s, t0, ByteClass::Token);
    lemma_run_end(s, t0, ByteClass::Token);
    let n0 = run_end(s, t1, ByteClass::Whitespace);
    lemma_run_end(s, t1, ByteClass::Whitespace);
    let n1 = run_end(s, n0, ByteClass::Token);
    lemma_run_end(s, n0, ByteClass::Token);
    let d = run_end(s, n1, ByteClass::Undelimited);
    lemma_run_end(s, n1, ByteClass::Undelimited);
    assert forall|i: int| pos <= i < d implies s[i] != COMMA && #[trigger] s[i] != CLOSE_PAREN by {
        if i < t0 {
            assert(ByteClass::Whitespace.holds(s[i]));
        } else if i < t1 {
            assert(ByteClass::Token.holds(s[i]));
        } else if i < n0 {
            assert(ByteClass::Whitespace.holds(s[i]));
        } else if i < n1 {
            assert(ByteClass::Token.holds(s[i]));
        } else {
            assert(ByteClass::Undelimited.holds(s[i]));
        }
    }
    lemma_commas_none(s, pos, d);
    if s[d] == COMMA {
        let rest = argument_list_spec(s, d + 1)->Ok_0;
        law_argument_list(s, d + 1, rest.0, rest.1);
        lemma_commas_split(s, pos, d, end - 1);
        assert(commas(s, d, end - 1) == 1 + commas(s, d + 1, end - 1));
    }
}

/// The argument list behind an opening parenthesis ends behind the first
/// closing parenthesis. It is empty exactly where only whitespace stands
/// before that parenthesis; otherwise it holds one argument more than
/// there are commas.
pub proof fn law_arguments(s: Seq<u8>, pos: int, args: Seq<ArgumentSpans>, end: usize)
    requires
        0 <= pos <= s.len() <= usize::MAX,
        arguments_spec(s, pos) == Ok::<(Seq<ArgumentSpans>, usize), ParseError>((args, end)),
    ensures
        pos < end <= s.len(),
        s[end - 1] == CLOSE_PAREN,
        forall|i: int| pos <= i < end - 1 ==> #[trigger] s[i] != CLOSE_PAREN,
        args.len() == 0 <==> forall|i: int| pos <= i < end - 1 ==> ByteClass::Whitespace.holds(#[trigger] s[i]),
        args.len() > 0 ==> args.len() == commas(s, pos, end - 1) + 1,
{
    let p = run_end(s, pos, ByteClass::Whitespace);
    lemma_run_end(s, pos, ByteClass::Whitespace);
    if p < s.len() && s[p] == CLOSE_PAREN {
        assert forall|i: int| pos <= i < end - 1 implies #[trigger] s[i] != CLOSE_PAREN by {
            assert(ByteClass::Whitespace.holds(s[i]));
        }
    } else {
        law_argument_list(s, pos, args, end);
        lemma_run_end(s, p, ByteClass::Token);
        assert(!ByteClass::Whitespace.holds(s[p]));
    }
}

/// A position up to which every byte from `pos` is of the class, and at
/// which the input ends or a byte of another kind stands, is where the run
/// ends.
pub proof fn lemma_run_end_unique(s: Seq<u8>, pos: int, end: int, class: ByteClass)
    requires
        0 <= pos <= end <= s.len(),
        forall|i: int| pos <= i < end ==> class.holds(#[trigger] s[i]),
        end < s.len() ==> !class.holds(s[end]),
    ensures
        run_end(s, pos, class) == end,
    decreases end - pos,
{
    if pos < end {
        lemma_run_end_unique(s, pos + 1, end, class);
    }
}

/// A position at which the literal stands, with none before it from
/// `from` on, is what `find` answers.
pub proof fn lemma_find_unique(s: Seq<u8>, from: int, at: int, lit: Seq<u8>)
    requires
        0 <= from <= at,
        matches_at(s, at, lit),
        forall|j: int| from <= j < at ==> !matches_at(s, j, lit),
    ensures
        find(s, from, lit) == Some(at),
    decreases at - from,
{
    if from < at {
        lemma_find_unique(s, from + 1, at, lit);
    }
}

/// Every line of the shape whitespace, marker, whitespace, target,
/// whitespace is recognised as a directive, and its target is captured from
/// its first byte to its last.
pub proof fn law_include_recognised(s: Seq<u8>, pos: int, marker: int, start: int, end: int)
    requires
        s.len() <= usize::MAX,
        0 <= pos <= marker,
        forall|i: int| pos <= i < marker ==> ByteClass::Whitespace.holds(#[trigger] s[i]),
        matches_at(s, marker, Literal::IncludeDirective.bytes()),
        marker + Literal::IncludeDirective.bytes().len() <= start < end < s.len(),
        forall|i: int|
            marker + Literal::IncludeDirective.bytes().len() <= i < start ==> ByteClass::Whitespace.holds(
                #[trigger] s[i],
            ),
        forall|i: int| start <= i < end ==> !ByteClass::Whitespace.holds(#[trigger] s[i]),
        ByteClass::Whitespace.holds(s[end]),
    ensures
        one_include_spec(s, pos) == Ok::<(Span, usize), ParseError>(
            (span(start, end), run_end(s, end, ByteClass::Whitespace) as usize),
        ),
{
    let lit = Literal::IncludeDirective.bytes();
    assert(s.subrange(marker, marker + lit.len())[0] == s[marker]);
    lemma_run_end_unique(s, pos, marker, ByteClass::Whitespace);
    lemma_run_end_unique(s, marker + lit.len(), start, ByteClass::Whitespace);
    assert forall|i: int| start <= i < end implies ByteClass::Visible.holds(#[trigger] s[i]) by {
        assert(!ByteClass::Whitespace.holds(s[i]));
    }
    lemma_run_end_unique(s, start, end, ByteClass::Visible);
}

/// Every opening of the shape whitespace, keyword, whitespace, identifier,
/// anything without a brace, brace is recognised as a namespace, and its
/// identifier is captured.
pub proof fn law_namespace_recognised(
    s: Seq<u8>,
    pos: int,
    keyword: int,
    start: int,
    end: int,
    brace: int,
)
    requires
        s.len() <= usize::MAX,
        0 <= pos <= keyword,
        forall|i: int| pos <= i < keyword ==> ByteClass::Whitespace.holds(#[trigger] s[i]),
        matches_at(s, keyword, Literal::Namespace.bytes()),
        keyword + Literal::Namespace.bytes().len() <= start < end <= brace < s.len(),
        forall|i: int|
            keyword + Literal::Namespace.bytes().len() <= i < start ==> ByteClass::Whitespace.holds(
                #[trigger] s[i],
            ),
        forall|i: int| start <= i < end ==> ByteClass::Alphanumeric.holds(#[trigger] s[i]),
        !ByteClass::Alphanumeric.holds(s[end]),
        forall|i: int| end <= i < brace ==> #[trigger] s[i] != 0x7Bu8,
        s[brace] == 0x7Bu8,
    ensures
        one_namespace_spec(s, pos) == Ok::<(Span, usize), ParseError>(
            (span(start, end), run_end(s, brace + 1, ByteClass::Whitespace) as usize),
        ),
{
    let lit = Literal::Namespace.bytes();
    let open = Literal::OpenBrace.bytes();
    assert(s.subrange(keyword, keyword + lit.len())[0] == s[keyword]);
    lemma_run_end_unique(s, pos, keyword, ByteClass::Whitespace);
    assert(ByteClass::Alphanumeric.holds(s[start]));
    lemma_run_end_unique(s, keyword + lit.len(), start, ByteClass::Whitespace);
    lemma_run_end_unique(s, start, end, ByteClass::Alphanumeric);
    assert(s.subrange(brace, brace + 1) =~= open);
    assert forall|j: int| end <= j < brace implies !matches_at(s, j, open) by {
        if matches_at(s, j, open) {
            assert(s.subrange(j, j + 1)[0] == s[j]);
        }
    }
    lemma_find_unique(s, end, brace, open);
}

} // verus!
