//! Textual order: what the grammar captures lies within the input, and each
//! span stands behind the spans that were captured before it.

use vstd::prelude::*;
use crate::bytes::{find, lemma_find, COMMA};
use crate::error::ParseError;
use crate::grammar::{
    argument_list_spec, arguments_spec, class_name_spec, header_spec, include_items,
    lemma_class_name, lemma_method, lemma_one_argument, lemma_one_include, lemma_one_namespace,
    method_items, method_spec, namespace_items, one_argument_spec, one_include_spec,
    one_namespace_spec, ArgumentSpans, HeaderShape, Literal, MethodShape, Span,
};

verus! {

/// Whether the spans lie between `lo` and `hi`, one behind the other.
pub open spec fn in_order(spans: Seq<Span>, lo: int, hi: int) -> bool {
    &&& forall|i: int| 0 <= i < spans.len() ==> lo <= (#[trigger] spans[i]).start <= spans[i].end <= hi
    &&& forall|i: int, j: int|
        0 <= i < j < spans.len() ==> (#[trigger] spans[i]).end <= (#[trigger] spans[j]).start
}

/// The range from the start of an argument's type to the end of its name,
/// or of its type where it has no name.
pub open spec fn argument_extent(a: ArgumentSpans) -> Span {
    Span {
        start: a.argument_type.start,
        end: match a.argument_name {
            Some(n) => n.end,
            None => a.argument_type.end,
        },
    }
}

/// Whether the name of an argument, if it has one, stands behind its type.
pub open spec fn argument_in_order(a: ArgumentSpans) -> bool {
    a.argument_type.start <= a.argument_type.end && match a.argument_name {
        Some(n) => a.argument_type.end <= n.start <= n.end,
        None => true,
    }
}

/// Whether the arguments lie between `lo` and `hi`, one behind the other.
pub open spec fn arguments_in_order(args: Seq<ArgumentSpans>, lo: int, hi: int) -> bool {
    &&& in_order(args.map_values(|a: ArgumentSpans| argument_extent(a)), lo, hi)
    &&& forall|j: int| 0 <= j < args.len() ==> argument_in_order(#[trigger] args[j])
}

/// Whether the spans of a method lie between `lo` and `hi` in the order
/// return type, name, arguments.
pub open spec fn method_in_order(m: MethodShape, lo: int, hi: int) -> bool {
    &&& lo <= m.return_type.start <= m.return_type.end <= m.name.start <= m.name.end <= hi
    &&& arguments_in_order(m.arguments, m.name.end as int, hi)
}

/// Whether each method lies between `lo` and `hi`, the whole of it before
/// the start of the next.
pub open spec fn methods_in_order(methods: Seq<MethodShape>, lo: int, hi: int) -> bool {
    &&& forall|i: int| 0 <= i < methods.len() ==> method_in_order(#[trigger] methods[i], lo, hi)
    &&& forall|i: int, j: int|
        0 <= i < j < methods.len() ==> method_in_order(
            #[trigger] methods[i],
            lo,
            (#[trigger] methods[j]).return_type.start as int,
        )
}

/// The targets of a block of directives lie between the cursor before the
/// block and the cursor behind it, in source order.
pub proof fn lemma_include_items_in_order(s: Seq<u8>, pos: int)
    requires
        0 <= pos <= s.len() <= usize::MAX,
    ensures
        in_order(include_items(s, pos).0, pos, include_items(s, pos).1 as int),
        pos <= include_items(s, pos).1 <= s.len(),
    decreases s.len() - pos,
{
    lemma_one_include(s, pos);
    match one_include_spec(s, pos) {
        Ok((target, next)) => {
            lemma_include_items_in_order(s, next as int);
            let rest = include_items(s, next as int).0;
            let all = include_items(s, pos).0;
            assert(all[0] == target);
            assert forall|i: int| 1 <= i < all.len() implies #[trigger] all[i] == rest[i - 1] by {}
        },
        Err(_) => {},
    }
}

/// The names of a chain of namespaces lie between the cursor before the
/// chain and the cursor behind it, outermost first.
pub proof fn lemma_namespace_items_in_order(s: Seq<u8>, pos: int)
    requires
        0 <= pos <= s.len() <= usize::MAX,
    ensures
        in_order(namespace_items(s, pos).0, pos, namespace_items(s, pos).1 as int),
        pos <= namespace_items(s, pos).1 <= s.len(),
    decreases s.len() - pos,
{
    lemma_one_namespace(s, pos);
    match one_namespace_spec(s, pos) {
        Ok((name, next)) => {
            lemma_namespace_items_in_order(s, next as int);
            let rest = namespace_items(s, next as int).0;
            let all = namespace_items(s, pos).0;
            assert(all[0] == name);
            assert forall|i: int| 1 <= i < all.len() implies #[trigger] all[i] == rest[i - 1] by {}
        },
        Err(_) => {},
    }
}

/// The arguments of a list lie between the cursor before the list and the
/// closing parenthesis, in declaration order.
pub proof fn lemma_argument_list_in_order(s: Seq<u8>, pos: int)
    requires
        0 <= pos <= s.len() <= usize::MAX,
    ensures
        match argument_list_spec(s, pos) {
            Ok((args, end)) => arguments_in_order(args, pos, end as int) && pos < end <= s.len(),
            Err(_) => true,
        },
    decreases s.len() - pos,
{
    lemma_one_argument(s, pos);
    match one_argument_spec(s, pos) {
        Ok((a, d)) => {
            if s[d as int] == COMMA {
                lemma_argument_list_in_order(s, d + 1);
                match argument_list_spec(s, d + 1) {
                    Ok((rest, end)) => {
                        let all = seq![a] + rest;
                        let extents = all.map_values(|a: ArgumentSpans| argument_extent(a));
                        let tail = rest.map_values(|a: ArgumentSpans| argument_extent(a));
                        assert(all[0] == a);
                        assert forall|i: int| 1 <= i < all.len() implies #[trigger] all[i] == rest[i - 1] by {}
                        assert forall|i: int| 1 <= i < all.len() implies #[trigger] extents[i] == tail[i - 1] by {
                            assert(all[i] == rest[i - 1]);
                        }
                        assert(extents[0] == argument_extent(a));
                        assert(in_order(extents, pos, end as int));
                    },
                    Err(_) => {},
                }
            } else {
                let all = seq![a];
                assert(all[0] == a);
                assert(in_order(all.map_values(|a: ArgumentSpans| argument_extent(a)), pos, d + 1));
            }
        },
        Err(_) => {},
    }
}

/// The spans of a method lie between the cursor before it and the cursor
/// behind it, in the order return type, name, arguments.
pub proof fn lemma_method_in_order(s: Seq<u8>, pos: int)
    requires
        0 <= pos <= s.len() <= usize::MAX,
    ensures
        match method_spec(s, pos) {
            Ok((m, next)) => method_in_order(m, pos, next as int) && pos < next <= s.len(),
            Err(_) => true,
        },
{
    lemma_method(s, pos);
    match method_spec(s, pos) {
        Ok((m, next)) => {
            let open = find(s, m.name.end as int, Literal::OpenParen.bytes())->Some_0;
            lemma_find(s, m.name.end as int, Literal::OpenParen.bytes());
            let after = arguments_spec(s, open + 1)->Ok_0.1;
            lemma_find(s, after as int, Literal::Semicolon.bytes());
            lemma_argument_list_in_order(s, open + 1);
            let extents = m.arguments.map_values(|a: ArgumentSpans| argument_extent(a));
            assert(in_order(extents, m.name.end as int, next as int)) by {
                if m.arguments.len() > 0 {
                    assert(in_order(extents, open + 1, after as int));
                }
            }
        },
        Err(_) => {},
    }
}

/// The methods that are found lie behind the cursor, each wholly before the
/// next.
pub proof fn lemma_method_items_in_order(s: Seq<u8>, pos: int)
    requires
        0 <= pos <= s.len() <= usize::MAX,
    ensures
        methods_in_order(method_items(s, pos), pos, s.len() as int),
    decreases s.len() - pos,
{
    lemma_method_in_order(s, pos);
    match method_spec(s, pos) {
        Ok((m, next)) => {
            lemma_method_items_in_order(s, next as int);
            let rest = method_items(s, next as int);
            let all = method_items(s, pos);
            assert(all[0] == m);
            assert forall|i: int| 1 <= i < all.len() implies #[trigger] all[i] == rest[i - 1] by {}
            assert forall|i: int| 0 <= i < all.len() implies method_in_order(
                #[trigger] all[i],
                pos,
                s.len() as int,
            ) by {
                if i > 0 {
                    assert(method_in_order(rest[i - 1], next as int, s.len() as int));
                }
            }
            assert forall|i: int, j: int| 0 <= i < j < all.len() implies method_in_order(
                #[trigger] all[i],
                pos,
                (#[trigger] all[j]).return_type.start as int,
            ) by {
                assert(method_in_order(rest[j - 1], next as int, s.len() as int));
                if i > 0 {
                    assert(method_in_order(rest[i - 1], next as int, rest[j - 1].return_type.start as int));
                }
            }
        },
        Err(_) => {},
    }
}

/// The pieces of a header stand in the input in the order in which the
/// grammar captures them: the targets of the directives, the names of the
/// namespaces, the name of the class and the methods, each span within the
/// input and behind the spans before it.
pub proof fn law_textual_order(s: Seq<u8>, h: HeaderShape)
    requires
        s.len() <= usize::MAX,
        header_spec(s) == Ok::<HeaderShape, ParseError>(h),
    ensures
        in_order(
            h.includes + h.namespaces + seq![h.class_name],
            0,
            s.len() as int,
        ),
        methods_in_order(h.methods, h.class_name.end as int, s.len() as int),
{
    let first = find(s, 0, Literal::IncludeDirective.bytes())->Some_0;
    lemma_find(s, 0, Literal::IncludeDirective.bytes());
    lemma_include_items_in_order(s, first);
    let c1 = include_items(s, first).1;
    let ns = find(s, c1 as int, Literal::Namespace.bytes())->Some_0;
    lemma_find(s, c1 as int, Literal::Namespace.bytes());
    lemma_namespace_items_in_order(s, ns);
    let c2 = namespace_items(s, ns).1;
    lemma_class_name(s, c2 as int);
    let c3 = class_name_spec(s, c2 as int)->Ok_0.1;
    lemma_method_items_in_order(s, c3 as int);
    let all = h.includes + h.namespaces + seq![h.class_name];
    let n = h.includes.len() as int;
    let k = h.namespaces.len() as int;
    assert forall|i: int| 0 <= i < all.len() implies (if i < n {
        #[trigger] all[i] == h.includes[i]
    } else if i < n + k {
        all[i] == h.namespaces[i - n]
    } else {
        all[i] == h.class_name
    }) by {}
    assert forall|i: int| 0 <= i < h.methods.len() implies method_in_order(
        #[trigger] h.methods[i],
        h.class_name.end as int,
        s.len() as int,
    ) by {
        assert(method_in_order(h.methods[i], c3 as int, s.len() as int));
    }
    assert forall|i: int, j: int| 0 <= i < j < h.methods.len() implies method_in_order(
        #[trigger] h.methods[i],
        h.class_name.end as int,
        (#[trigger] h.methods[j]).return_type.start as int,
    ) by {
        assert(method_in_order(h.methods[i], c3 as int, h.methods[j].return_type.start as int));
    }
}

} // verus!
