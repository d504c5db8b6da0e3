//! What holds across reading and writing: attributes and meta items that are
//! written out as tokens are read back as they were.
use vstd::prelude::*;

use crate::attr::{
    AttrStyle, Attribute, SpecAttribute, SpecPath, inner_attrs, is_inner, is_outer, outer_attrs,
    spec_interpret_meta,
};
use crate::meta::{
    SpecLit, SpecMeta, SpecNested, is_comma, spec_meta_list, spec_meta_name, spec_name_value,
    spec_nested_item, spec_nested_list,
};
use crate::parsing::{
    is_punct, sep_at, spec_parse_attrs, spec_parse_path,
    spec_path_segments, spec_single_attr, starts_attr,
};
use crate::printing::{
    attr_tokens, attrs_tokens, lit_token, meta_tokens, nested_item_tokens, nested_tokens,
    path_tokens, segments_tokens, sep_tokens,
};
use crate::token::{Delimiter, SpecTree, Spacing, false_text, starts_with_slash, true_text};

verus! {

/// A literal that is read back as itself when written: one that does not begin
/// with `/`, as a doc comment does.
pub open spec fn readable_lit(l: SpecLit) -> bool {
    match l {
        SpecLit::Bool(_) => true,
        SpecLit::Literal(text) => !starts_with_slash(text),
    }
}

/// A meta item that is read back as itself when written: its literals do not begin
/// with `/`, and no item of a list is a bare `true` or `false` (which is read back
/// as a word).
pub open spec fn readable_meta(m: SpecMeta) -> bool
    decreases m, 0nat,
{
    match m {
        SpecMeta::Word(_) => true,
        SpecMeta::List(_, nested) => readable_nested_seq(nested),
        SpecMeta::NameValue(_, l) => readable_lit(l),
    }
}

/// A nested item that is read back as itself when written.
pub open spec fn readable_nested(n: SpecNested) -> bool
    decreases n, 1nat,
{
    match n {
        SpecNested::Meta(m) => readable_meta(m),
        SpecNested::Literal(l) => l is Literal && readable_lit(l),
    }
}

/// Nested items that are each read back as themselves when written.
pub open spec fn readable_nested_seq(s: Seq<SpecNested>) -> bool
    decreases s, 2nat,
{
    if s.len() == 0 {
        true
    } else {
        readable_nested(s[0]) && readable_nested_seq(s.skip(1))
    }
}

proof fn lemma_item_tokens_nonempty(n: SpecNested)
    ensures
        nested_item_tokens(n).len() >= 1,
{
}

proof fn lemma_nested_tokens_nonempty(s: Seq<SpecNested>)
    requires
        s.len() > 0,
    ensures
        nested_tokens(s).len() >= 1,
{
    lemma_item_tokens_nonempty(s[0]);
}

/// A written nested item is read back, whatever follows it, provided that nothing
/// or a comma follows.
proof fn lemma_item_reads_back(x: SpecNested, rest: Seq<SpecTree>)
    requires
        readable_nested(x),
        rest.len() == 0 || is_comma(rest[0]),
    ensures
        spec_nested_item(nested_item_tokens(x) + rest) == Some((x, nested_item_tokens(x).len() as int)),
    decreases x, 1nat,
{
    let t = nested_item_tokens(x) + rest;
    match x {
        SpecNested::Literal(l) => {
            assert(t[0] == lit_token(l));
        },
        SpecNested::Meta(m) => {
            match m {
                SpecMeta::Word(i) => {
                    assert(t[0] == SpecTree::Ident(i));
                    if t.len() >= 2 {
                        assert(t[1] == rest[0]);
                    }
                },
                SpecMeta::List(i, nested) => {
                    lemma_list_reads_back(nested);
                    assert(t[0] == SpecTree::Ident(i));
                    assert(t[1] == SpecTree::Group(Delimiter::Parenthesis, nested_tokens(nested)));
                    assert(spec_meta_list(i, t[1]) == Some(SpecMeta::List(i, nested)));
                },
                SpecMeta::NameValue(i, l) => {
                    assert(t[0] == SpecTree::Ident(i));
                    assert(t[1] == SpecTree::Punct('=', Spacing::Alone));
                    assert(t[2] == lit_token(l));
                    assert(true_text() != false_text()) by {
                        assert(true_text().len() != false_text().len());
                    }
                    assert(spec_name_value(i, t[1], t[2]) == Some(m));
                },
            }
        },
    }
}

/// Written nested items are read back as a list.
proof fn lemma_list_reads_back(s: Seq<SpecNested>)
    requires
        readable_nested_seq(s),
    ensures
        spec_nested_list(nested_tokens(s), true) == Some(s),
    decreases s, 2nat,
{
    if s.len() == 0 {
        assert(s =~= Seq::<SpecNested>::empty());
    } else {
        let first = nested_item_tokens(s[0]);
        let rest = if s.len() == 1 {
            Seq::<SpecTree>::empty()
        } else {
            seq![SpecTree::Punct(',', Spacing::Alone)] + nested_tokens(s.skip(1))
        };
        assert(nested_tokens(s) =~= first + rest);
        lemma_item_reads_back(s[0], rest);
        lemma_item_tokens_nonempty(s[0]);
        assert((first + rest).skip(first.len() as int) =~= rest);
        if s.len() == 1 {
            assert(seq![s[0]] + Seq::<SpecNested>::empty() =~= s);
        } else {
            lemma_list_reads_back(s.skip(1));
            lemma_nested_tokens_nonempty(s.skip(1));
            assert(rest.skip(1) =~= nested_tokens(s.skip(1)));
            assert(is_comma(rest[0]));
            assert(spec_nested_list(rest, false) == spec_nested_list(rest.skip(1), true));
            assert(seq![s[0]] + s.skip(1) =~= s);
        }
    }
}

/// What `interpret_meta` gives for an attribute is named by the attribute's path.
pub proof fn interpreted_meta_is_named_by_path(a: SpecAttribute)
    ensures
        spec_interpret_meta(a) matches Some(m) ==> a.path.segments.len() == 1 && spec_meta_name(m)
            == a.path.segments[0],
{
}

/// A meta item written after its name reads back as itself: the attribute whose
/// path is the item's name and whose tokens are the ones written after the name
/// is interpreted as the item.
pub proof fn interpret_meta_reads_written_meta(m: SpecMeta, style: AttrStyle, leading_colon: bool)
    requires
        readable_meta(m),
    ensures
        spec_interpret_meta(
            SpecAttribute {
                style: style,
                path: SpecPath { leading_colon: leading_colon, segments: seq![spec_meta_name(m)] },
                tts: meta_tokens(m).skip(1),
            },
        ) == Some(m),
{
    let tts = meta_tokens(m).skip(1);
    match m {
        SpecMeta::Word(i) => {
            assert(tts.len() == 0);
        },
        SpecMeta::List(i, nested) => {
            lemma_list_reads_back(nested);
            assert(tts[0] == SpecTree::Group(Delimiter::Parenthesis, nested_tokens(nested)));
        },
        SpecMeta::NameValue(i, l) => {
            assert(tts[0] == SpecTree::Punct('=', Spacing::Alone));
            assert(tts[1] == lit_token(l));
            assert(true_text() != false_text()) by {
                assert(true_text().len() != false_text().len());
            }
        },
    }
}

/// A path whose tokens can be read back: it has a segment, and the tokens after it
/// do not begin with `::`.
pub open spec fn readable_path(p: SpecPath, after: Seq<SpecTree>) -> bool {
    p.segments.len() > 0 && !sep_at(after, 0)
}

/// Written segments are read back from position `i`.
proof fn lemma_segments_read_back(tts: Seq<SpecTree>, i: int, segs: Seq<Seq<char>>, after: Seq<SpecTree>, after_sep: bool)
    requires
        0 <= i <= tts.len(),
        segs.len() > 0,
        tts.skip(i) == segments_tokens(segs) + after,
        !sep_at(after, 0),
    ensures
        spec_path_segments(tts, i, after_sep) == Ok::<_, crate::parsing::Error>(
            (segs, i + segments_tokens(segs).len()),
        ),
    decreases segs.len(),
{
    assert(segments_tokens(segs).len() >= 1);
    assert(i < tts.len());
    assert(tts.skip(i)[0] == tts[i]);
    if segs.len() == 1 {
        assert(tts[i] == SpecTree::Ident(segs[0]));
        assert forall|j: int| 0 <= j < after.len() implies tts[i + 1 + j] == #[trigger] after[j] by {
            assert(tts.skip(i)[1 + j] == tts[i + 1 + j]);
        }
        if sep_at(tts, i + 1) {
            assert(tts[i + 1] == after[0]);
            assert(tts[i + 2] == after[1]);
            assert(sep_at(after, 0));
        }
        assert(seq![segs[0]] =~= segs);
    } else {
        let rest_tokens = segments_tokens(segs.skip(1));
        assert(tts.skip(i) =~= seq![SpecTree::Ident(segs[0])] + sep_tokens() + rest_tokens + after);
        assert(tts[i] == SpecTree::Ident(segs[0]));
        assert(tts.skip(i)[1] == tts[i + 1]);
        assert(tts.skip(i)[2] == tts[i + 2]);
        assert(sep_at(tts, i + 1));
        assert(tts.skip(i + 3) =~= tts.skip(i).skip(3));
        assert(tts.skip(i).skip(3) =~= rest_tokens + after);
        lemma_segments_read_back(tts, i + 3, segs.skip(1), after, true);
        assert(seq![segs[0]] + segs.skip(1) =~= segs);
    }
}

/// A written path is read back, whatever follows it, provided that what follows
/// does not begin with `::`.
proof fn lemma_path_reads_back(p: SpecPath, after: Seq<SpecTree>)
    requires
        readable_path(p, after),
    ensures
        spec_parse_path(path_tokens(p) + after) == Ok::<_, crate::parsing::Error>(
            (p, path_tokens(p).len() as int),
        ),
{
    let tts = path_tokens(p) + after;
    let start: int = if p.leading_colon {
        2
    } else {
        0
    };
    if p.leading_colon {
        assert(tts[0] == SpecTree::Punct(':', Spacing::Joint));
        assert(tts[1] == SpecTree::Punct(':', Spacing::Alone));
        assert(sep_at(tts, 0));
    } else {
        assert(tts[0] == SpecTree::Ident(p.segments[0]));
        assert(!sep_at(tts, 0));
    }
    assert(tts.skip(start) =~= segments_tokens(p.segments) + after);
    lemma_segments_read_back(tts, start, p.segments, after, false);
}

/// An attribute whose tokens can be read back: its style is the one being read,
/// its path has a segment, and its tokens do not begin with `::`.
pub open spec fn readable_attr(a: SpecAttribute, style: AttrStyle) -> bool {
    a.style == style && readable_path(a.path, a.tts)
}

/// Attributes that can each be read back.
pub open spec fn readable_attrs(s: Seq<SpecAttribute>, style: AttrStyle) -> bool {
    forall|i: int| 0 <= i < s.len() ==> readable_attr(#[trigger] s[i], style)
}

/// A written attribute is read back, whatever follows it.
proof fn lemma_attr_reads_back(a: SpecAttribute, style: AttrStyle, rest: Seq<SpecTree>)
    requires
        readable_attr(a, style),
    ensures
        spec_single_attr(attr_tokens(a) + rest, style) == Ok::<_, crate::parsing::Error>(
            (a, attr_tokens(a).len() as int),
        ),
{
    let tts = attr_tokens(a) + rest;
    let content = path_tokens(a.path) + a.tts;
    lemma_path_reads_back(a.path, a.tts);
    assert(content.skip(path_tokens(a.path).len() as int) =~= a.tts);
    assert(tts[0] == SpecTree::Punct('#', Spacing::Alone));
    if style == AttrStyle::Inner {
        assert(tts[1] == SpecTree::Punct('!', Spacing::Alone));
        assert(tts[2] == SpecTree::Group(Delimiter::Bracket, content));
    } else {
        assert(tts[1] == SpecTree::Group(Delimiter::Bracket, content));
    }
}

/// Attributes of one style that are written one after the other are read back by
/// `parse_outer` (outer style) or `parse_inner` (inner style), provided that the
/// tokens after them do not start another attribute of that style.
pub proof fn parse_attrs_reads_written_attrs(s: Seq<SpecAttribute>, style: AttrStyle, rest: Seq<SpecTree>)
    requires
        readable_attrs(s, style),
        !starts_attr(rest, style),
    ensures
        spec_parse_attrs(attrs_tokens(s) + rest, style) == Ok::<_, crate::parsing::Error>(
            (s, attrs_tokens(s).len() as int),
        ),
    decreases s.len(),
{
    let tts = attrs_tokens(s) + rest;
    if s.len() == 0 {
        assert(tts =~= rest);
        assert(s =~= Seq::<SpecAttribute>::empty());
    } else {
        let first = attr_tokens(s[0]);
        let more = attrs_tokens(s.skip(1)) + rest;
        assert(readable_attr(s[0], style));
        assert(tts =~= first + more);
        lemma_attr_reads_back(s[0], style, more);
        assert(tts[0] == SpecTree::Punct('#', Spacing::Alone));
        if style == AttrStyle::Inner {
            assert(tts[1] == SpecTree::Punct('!', Spacing::Alone));
        }
        assert(starts_attr(tts, style));
        assert(tts.skip(first.len() as int) =~= more);
        assert(readable_attrs(s.skip(1), style)) by {
            assert forall|i: int| 0 <= i < s.skip(1).len() implies readable_attr(#[trigger] s.skip(1)[i], style) by {
                assert(s.skip(1)[i] == s[i + 1]);
            }
        }
        parse_attrs_reads_written_attrs(s.skip(1), style, rest);
        assert(seq![s[0]] + s.skip(1) =~= s);
    }
}

/// The attributes of an item, its outer ones followed by its inner ones, are
/// split back into the two by selecting the outer and the inner ones.
pub proof fn filter_splits_joined_attrs(outer: Seq<Attribute>, inner: Seq<Attribute>)
    requires
        forall|i: int| 0 <= i < outer.len() ==> is_outer(#[trigger] outer[i]),
        forall|i: int| 0 <= i < inner.len() ==> is_inner(#[trigger] inner[i]),
    ensures
        outer_attrs(outer + inner) == outer,
        inner_attrs(outer + inner) == inner,
{
    let po = |a: Attribute| is_outer(a);
    let pi = |a: Attribute| is_inner(a);
    Seq::filter_distributes_over_add(outer, inner, po);
    Seq::filter_distributes_over_add(outer, inner, pi);
    lemma_filter_all(outer, po);
    lemma_filter_none(inner, po);
    lemma_filter_none(outer, pi);
    lemma_filter_all(inner, pi);
    assert(outer + Seq::<Attribute>::empty() =~= outer);
    assert(Seq::<Attribute>::empty() + inner =~= inner);
}

proof fn lemma_filter_all(s: Seq<Attribute>, p: spec_fn(Attribute) -> bool)
    requires
        forall|i: int| 0 <= i < s.len() ==> p(#[trigger] s[i]),
    ensures
        s.filter(p) == s,
    decreases s.len(),
{
    reveal_with_fuel(Seq::<_>::filter, 1);
    if s.len() > 0 {
        lemma_filter_all(s.drop_last(), p);
        assert(p(s[s.len() - 1]));
        assert(s.drop_last().push(s.last()) =~= s);
    }
}

proof fn lemma_filter_none(s: Seq<Attribute>, p: spec_fn(Attribute) -> bool)
    requires
        forall|i: int| 0 <= i < s.len() ==> !p(#[trigger] s[i]),
    ensures
        s.filter(p) == Seq::<Attribute>::empty(),
    decreases s.len(),
{
    reveal_with_fuel(Seq::<_>::filter, 1);
    if s.len() > 0 {
        lemma_filter_none(s.drop_last(), p);
        assert(!p(s[s.len() - 1]));
    }
}


/// The tokens of `#[meta]`, read by `parse_outer` and then interpreted by
/// `interpret_meta`, give back the meta item, whatever follows them that does not
/// start another outer attribute.
pub proof fn outer_attr_tokens_interpret_as_meta(m: SpecMeta, rest: Seq<SpecTree>)
    requires
        readable_meta(m),
        !starts_attr(rest, AttrStyle::Outer),
    ensures
        ({
            let tokens = seq![
                SpecTree::Punct('#', Spacing::Alone),
                SpecTree::Group(Delimiter::Bracket, meta_tokens(m)),
            ] + rest;
            let a = SpecAttribute {
                style: AttrStyle::Outer,
                path: SpecPath { leading_colon: false, segments: seq![spec_meta_name(m)] },
                tts: meta_tokens(m).skip(1),
            };
            &&& spec_parse_attrs(tokens, AttrStyle::Outer) == Ok::<_, crate::parsing::Error>((seq![a], 2int))
            &&& spec_interpret_meta(a) == Some(m)
        }),
{
    let a = SpecAttribute {
        style: AttrStyle::Outer,
        path: SpecPath { leading_colon: false, segments: seq![spec_meta_name(m)] },
        tts: meta_tokens(m).skip(1),
    };
    let tail = meta_tokens(m).skip(1);
    assert(segments_tokens(seq![spec_meta_name(m)]) == seq![SpecTree::Ident(spec_meta_name(m))]);
    assert(path_tokens(a.path) + tail =~= meta_tokens(m));
    assert(!sep_at(tail, 0)) by {
        if tail.len() > 0 {
            assert(tail[0] == meta_tokens(m)[1]);
        }
    }
    assert(readable_attrs(seq![a], AttrStyle::Outer)) by {
        assert(seq![a][0] == a);
    }
    parse_attrs_reads_written_attrs(seq![a], AttrStyle::Outer, rest);
    assert(seq![a].skip(1) =~= Seq::<SpecAttribute>::empty());
    assert(attrs_tokens(seq![a]) =~= attr_tokens(a) + attrs_tokens(seq![a].skip(1)));
    assert(attrs_tokens(seq![a]) =~= seq![
        SpecTree::Punct('#', Spacing::Alone),
        SpecTree::Group(Delimiter::Bracket, meta_tokens(m)),
    ]);
    interpret_meta_reads_written_meta(m, AttrStyle::Outer, false);
}


/// Selecting the outer and the inner attributes splits any sequence of attributes:
/// the two selections together are as long as the sequence, and no attribute is in both.
pub proof fn filter_partitions_attrs(s: Seq<Attribute>)
    ensures
        outer_attrs(s).len() + inner_attrs(s).len() == s.len(),
        forall|a: Attribute| !(outer_attrs(s).contains(a) && #[trigger] inner_attrs(s).contains(a)),
    decreases s.len(),
{
    let po = |a: Attribute| is_outer(a);
    let pi = |a: Attribute| is_inner(a);
    reveal_with_fuel(Seq::<_>::filter, 1);
    if s.len() > 0 {
        filter_partitions_attrs(s.drop_last());
    }
    assert forall|a: Attribute| !(outer_attrs(s).contains(a) && #[trigger] inner_attrs(s).contains(a)) by {
        if outer_attrs(s).contains(a) && inner_attrs(s).contains(a) {
            let i = choose|i: int| 0 <= i < s.filter(po).len() && s.filter(po)[i] == a;
            let j = choose|j: int| 0 <= j < s.filter(pi).len() && s.filter(pi)[j] == a;
            s.lemma_filter_pred(po, i);
            s.lemma_filter_pred(pi, j);
        }
    }
}


// Reading then writing gives back the tokens that were read.

/// Whether tokens end with a standalone comma.
pub open spec fn ends_with_comma(tts: Seq<SpecTree>) -> bool {
    tts.len() > 0 && is_comma(tts.last())
}

/// The tokens without a standalone comma at their end.
pub open spec fn without_trailing_comma(tts: Seq<SpecTree>) -> Seq<SpecTree> {
    if ends_with_comma(tts) {
        tts.drop_last()
    } else {
        tts
    }
}

/// Whether no parenthesized group in a tree, at any depth, ends with a standalone comma.
pub open spec fn tree_without_trailing_commas(t: SpecTree) -> bool
    decreases t, 0nat,
{
    match t {
        SpecTree::Group(d, stream) => !(d == Delimiter::Parenthesis && ends_with_comma(stream))
            && trees_without_trailing_commas(stream),
        _ => true,
    }
}

/// Whether no parenthesized group in the trees, at any depth, ends with a standalone comma.
pub open spec fn trees_without_trailing_commas(s: Seq<SpecTree>) -> bool
    decreases s, 1nat,
{
    if s.len() == 0 {
        true
    } else {
        tree_without_trailing_commas(s[0]) && trees_without_trailing_commas(s.skip(1))
    }
}

proof fn lemma_trees_without_trailing_commas(s: Seq<SpecTree>)
    ensures
        trees_without_trailing_commas(s) == forall|i: int|
            0 <= i < s.len() ==> #[trigger] tree_without_trailing_commas(s[i]),
    decreases s.len(),
{
    if s.len() > 0 {
        lemma_trees_without_trailing_commas(s.skip(1));
        if forall|i: int| 0 <= i < s.len() ==> #[trigger] tree_without_trailing_commas(s[i]) {
            assert forall|i: int| 0 <= i < s.skip(1).len() implies #[trigger] tree_without_trailing_commas(
                s.skip(1)[i],
            ) by {
                assert(s.skip(1)[i] == s[i + 1]);
            }
            assert(tree_without_trailing_commas(s[0]));
            assert(trees_without_trailing_commas(s));
        }
        if trees_without_trailing_commas(s) {
            assert forall|i: int| 0 <= i < s.len() implies #[trigger] tree_without_trailing_commas(s[i]) by {
                if i > 0 {
                    assert(s[i] == s.skip(1)[i - 1]);
                }
            }
        }
    }
}

/// Splitting after an item that does not end with a comma.
proof fn lemma_without_trailing_split(items: Seq<SpecTree>, n: int)
    requires
        1 <= n <= items.len(),
        !is_comma(items[n - 1]),
    ensures
        without_trailing_comma(items) == items.take(n) + without_trailing_comma(items.skip(n)),
{
    let rest = items.skip(n);
    assert(items =~= items.take(n) + rest);
    if rest.len() == 0 {
        assert(items.last() == items[n - 1]);
        assert(items.take(n) + rest =~= items.take(n));
    } else {
        assert(items.last() == rest.last());
        assert(items.drop_last() =~= items.take(n) + rest.drop_last());
    }
}

/// A leading comma stays in front.
proof fn lemma_without_trailing_after_comma(tts: Seq<SpecTree>)
    requires
        tts.len() > 1,
    ensures
        without_trailing_comma(tts) == seq![tts[0]] + without_trailing_comma(tts.skip(1)),
{
    let items = tts.skip(1);
    assert(tts =~= seq![tts[0]] + items);
    assert(tts.last() == items.last());
    assert(tts.drop_last() =~= seq![tts[0]] + items.drop_last());
}

/// The tokens of items, split after the first item.
proof fn lemma_nested_tokens_cons(x: SpecNested, r: Seq<SpecNested>)
    ensures
        nested_tokens(seq![x] + r) == nested_item_tokens(x) + list_tokens_from(r, false),
{
    let p = seq![x] + r;
    assert(p[0] == x);
    assert(p.skip(1) =~= r);
    if r.len() == 0 {
        assert(nested_item_tokens(x) + nested_tokens(r) =~= nested_item_tokens(x));
    } else {
        assert(nested_tokens(p) =~= nested_item_tokens(x) + list_tokens_from(r, false));
    }
}

/// The tokens of nested items as they follow a position: after the first item,
/// a comma stands before them.
pub open spec fn list_tokens_from(p: Seq<SpecNested>, first: bool) -> Seq<SpecTree> {
    if first || p.len() == 0 {
        nested_tokens(p)
    } else {
        seq![SpecTree::Punct(',', Spacing::Alone)] + nested_tokens(p)
    }
}

/// A name-value pair that is read is written back as the tokens it was read from.
pub proof fn name_value_writes_back(name: Seq<char>, a: SpecTree, b: SpecTree)
    requires
        spec_name_value(name, a, b) is Some,
    ensures
        meta_tokens(spec_name_value(name, a, b).unwrap()) == seq![SpecTree::Ident(name), a, b],
{
    assert(meta_tokens(spec_name_value(name, a, b).unwrap()) =~= seq![SpecTree::Ident(name), a, b]);
}

/// A meta list that is read is written back as the tokens it was read from, where
/// no parenthesized group in them ends with a comma.
pub proof fn meta_list_writes_back(name: Seq<char>, t: SpecTree)
    requires
        spec_meta_list(name, t) is Some,
        tree_without_trailing_commas(t),
    ensures
        meta_tokens(spec_meta_list(name, t).unwrap()) == seq![SpecTree::Ident(name), t],
    decreases t, 0nat,
{
    match t {
        SpecTree::Group(d, stream) => {
            lemma_trees_without_trailing_commas(stream);
            lemma_list_writes_back(stream, true);
            assert(meta_tokens(spec_meta_list(name, t).unwrap()) =~= seq![SpecTree::Ident(name), t]);
        },
        _ => {},
    }
}

/// A nested item that is read is written back as the tokens it was read from.
proof fn lemma_item_writes_back(items: Seq<SpecTree>)
    requires
        spec_nested_item(items) is Some,
        forall|i: int| 0 <= i < items.len() ==> #[trigger] tree_without_trailing_commas(items[i]),
    ensures
        ({
            let (x, n) = spec_nested_item(items).unwrap();
            &&& 1 <= n <= items.len()
            &&& nested_item_tokens(x) == items.take(n)
            &&& !is_comma(items[n - 1])
        }),
    decreases items, 1nat,
{
    let (x, n) = spec_nested_item(items).unwrap();
    match items[0] {
        SpecTree::Literal(text) => {
            assert(items.take(1) =~= seq![items[0]]);
        },
        SpecTree::Ident(name) => {
            if items.len() >= 3 && spec_name_value(name, items[1], items[2]) is Some {
                name_value_writes_back(name, items[1], items[2]);
                assert(items.take(3) =~= seq![items[0], items[1], items[2]]);
            } else if items.len() >= 2 && spec_meta_list(name, items[1]) is Some {
                meta_list_writes_back(name, items[1]);
                assert(items.take(2) =~= seq![items[0], items[1]]);
            } else {
                assert(items.take(1) =~= seq![items[0]]);
            }
        },
        _ => {},
    }
}

/// Nested items that are read, from a position after `first` items, are written
/// back as the tokens they were read from, less a trailing comma.
proof fn lemma_list_writes_back(tts: Seq<SpecTree>, first: bool)
    requires
        spec_nested_list(tts, first) is Some,
        forall|i: int| 0 <= i < tts.len() ==> #[trigger] tree_without_trailing_commas(tts[i]),
    ensures
        list_tokens_from(spec_nested_list(tts, first).unwrap(), first) == without_trailing_comma(tts),
    decreases tts, 2nat,
{
    let p = spec_nested_list(tts, first).unwrap();
    if tts.len() == 0 {
        assert(p =~= Seq::<SpecNested>::empty());
    } else if !first && tts.len() == 1 {
        assert(p =~= Seq::<SpecNested>::empty());
        assert(tts.drop_last() =~= Seq::<SpecTree>::empty());
    } else {
        let items = if first {
            tts
        } else {
            tts.skip(1)
        };
        assert forall|i: int| 0 <= i < items.len() implies #[trigger] tree_without_trailing_commas(items[i]) by {
            if !first {
                assert(items[i] == tts[i + 1]);
            }
        }
        lemma_item_writes_back(items);
        let (x, n) = spec_nested_item(items).unwrap();
        let rest = items.skip(n);
        assert forall|i: int| 0 <= i < rest.len() implies #[trigger] tree_without_trailing_commas(rest[i]) by {
            assert(rest[i] == items[i + n]);
        }
        lemma_list_writes_back(rest, false);
        let r = spec_nested_list(rest, false).unwrap();
        assert(p == seq![x] + r);
        lemma_nested_tokens_cons(x, r);
        lemma_without_trailing_split(items, n);
        assert(nested_tokens(p) == without_trailing_comma(items));
        if !first {
            lemma_without_trailing_after_comma(tts);
        }
    }
}

/// A comma-separated list of nested items that is read is written back as the
/// tokens it was read from, less a trailing comma, where no parenthesized group in
/// them ends with a comma.
pub proof fn nested_list_writes_back(tts: Seq<SpecTree>)
    requires
        spec_nested_list(tts, true) is Some,
        trees_without_trailing_commas(tts),
    ensures
        nested_tokens(spec_nested_list(tts, true).unwrap()) == without_trailing_comma(tts),
{
    lemma_trees_without_trailing_commas(tts);
    lemma_list_writes_back(tts, true);
}

/// What `interpret_meta` reads from an attribute whose path has no leading `::` is
/// written back as the path followed by the attribute's tokens, where no
/// parenthesized group in them ends with a comma.
pub proof fn interpreted_meta_writes_back(a: SpecAttribute)
    requires
        spec_interpret_meta(a) is Some,
        !a.path.leading_colon,
        trees_without_trailing_commas(a.tts),
    ensures
        meta_tokens(spec_interpret_meta(a).unwrap()) == path_tokens(a.path) + a.tts,
{
    lemma_trees_without_trailing_commas(a.tts);
    let name = a.path.segments[0];
    assert(a.path.segments =~= seq![name]);
    assert(path_tokens(a.path) =~= seq![SpecTree::Ident(name)]);
    let tts = a.tts;
    if tts.len() == 0 {
        assert(seq![SpecTree::Ident(name)] + tts =~= seq![SpecTree::Ident(name)]);
    } else if tts.len() == 1 && spec_meta_list(name, tts[0]) is Some {
        meta_list_writes_back(name, tts[0]);
        assert(seq![SpecTree::Ident(name)] + tts =~= seq![SpecTree::Ident(name), tts[0]]);
    } else {
        name_value_writes_back(name, tts[0], tts[1]);
        assert(seq![SpecTree::Ident(name)] + tts =~= seq![SpecTree::Ident(name), tts[0], tts[1]]);
    }
}

/// Whether every `::` whose first `:` lies in `[lo, hi)`, and whose second `:` lies there
/// too, has its second `:` standing alone, as writing a path makes it.
pub open spec fn seps_alone(tts: Seq<SpecTree>, lo: int, hi: int) -> bool {
    forall|j: int|
        lo <= j && j + 1 < hi && #[trigger] tts[j] == SpecTree::Punct(':', Spacing::Joint) && is_punct(
            tts[j + 1],
            ':',
        ) ==> tts[j + 1] == SpecTree::Punct(':', Spacing::Alone)
}

proof fn lemma_segments_write_back(tts: Seq<SpecTree>, i: int, after_sep: bool)
    requires
        0 <= i,
        spec_path_segments(tts, i, after_sep) is Ok,
        seps_alone(tts, i, spec_path_segments(tts, i, after_sep).unwrap().1),
    ensures
        ({
            let (segs, end) = spec_path_segments(tts, i, after_sep).unwrap();
            &&& i <= end <= tts.len() || (segs.len() == 0 && end == i)
            &&& after_sep ==> segs.len() > 0
            &&& segs.len() == 0 ==> end == i
            &&& segs.len() > 0 ==> segments_tokens(segs) == tts.subrange(i, end)
        }),
    decreases tts.len() - i,
{
    let (segs, end) = spec_path_segments(tts, i, after_sep).unwrap();
    if 0 <= i < tts.len() && tts[i] is Ident {
        let name = match tts[i] {
            SpecTree::Ident(name) => name,
            _ => Seq::empty(),
        };
        if sep_at(tts, i + 1) {
            let (more, e) = spec_path_segments(tts, i + 3, true).unwrap();
            lemma_segments_write_back(tts, i + 3, true);
            assert(e == end);
            assert(i + 2 < end);
            assert(tts[i + 1] == SpecTree::Punct(':', Spacing::Joint));
            assert(tts[i + 2] == SpecTree::Punct(':', Spacing::Alone));
            assert(segs == seq![name] + more);
            assert((seq![name] + more).skip(1) =~= more);
            assert((seq![name] + more)[0] == name);
            assert(tts.subrange(i, end) =~= seq![tts[i], tts[i + 1], tts[i + 2]] + tts.subrange(i + 3, end));
            assert(segments_tokens(segs) =~= tts.subrange(i, end));
        } else {
            assert(tts.subrange(i, i + 1) =~= seq![tts[i]]);
        }
    }
}

/// A path that is read is written back as the tokens it was read from, where the
/// second `:` of each of its `::` stands alone.
pub proof fn path_writes_back(tts: Seq<SpecTree>)
    requires
        spec_parse_path(tts) is Ok,
        seps_alone(tts, 0, spec_parse_path(tts).unwrap().1),
    ensures
        ({
            let (p, k) = spec_parse_path(tts).unwrap();
            &&& 0 <= k <= tts.len()
            &&& path_tokens(p) == tts.take(k)
        }),
{
    let (p, k) = spec_parse_path(tts).unwrap();
    let start: int = if sep_at(tts, 0) {
        2
    } else {
        0
    };
    lemma_segments_write_back(tts, start, false);
    if sep_at(tts, 0) {
        assert(tts[1] == SpecTree::Punct(':', Spacing::Alone));
        assert(tts.take(k) =~= seq![tts[0], tts[1]] + tts.subrange(2, k));
    } else {
        assert(tts.take(k) =~= Seq::<SpecTree>::empty() + tts.subrange(0, k));
    }
    assert(path_tokens(p) =~= tts.take(k));
}

/// Whether an attribute's tokens have the spacing that writing gives them: `#`, and
/// `!` for an inner attribute, stand alone, and so does the second `:` of each `::`
/// in the attribute's path.
pub open spec fn written_spacing(tts: Seq<SpecTree>, style: AttrStyle) -> bool {
    let p: int = if style == AttrStyle::Inner {
        2
    } else {
        1
    };
    &&& tts.len() > 0 && tts[0] == SpecTree::Punct('#', Spacing::Alone)
    &&& style == AttrStyle::Inner ==> tts.len() > 1 && tts[1] == SpecTree::Punct('!', Spacing::Alone)
    &&& p < tts.len() ==> match tts[p] {
        SpecTree::Group(_, content) => match spec_parse_path(content) {
            Ok((_, k)) => seps_alone(content, 0, k),
            Err(_) => true,
        },
        _ => true,
    }
}

/// An attribute that is read is written back as the tokens it was read from, where
/// those tokens have the spacing that writing gives them.
pub proof fn attr_writes_back(tts: Seq<SpecTree>, style: AttrStyle)
    requires
        spec_single_attr(tts, style) is Ok,
        written_spacing(tts, style),
    ensures
        ({
            let (a, n) = spec_single_attr(tts, style).unwrap();
            &&& 0 <= n <= tts.len()
            &&& attr_tokens(a) == tts.take(n)
        }),
{
    let (a, n) = spec_single_attr(tts, style).unwrap();
    let p: int = if style == AttrStyle::Inner {
        2
    } else {
        1
    };
    let content = match tts[p] {
        SpecTree::Group(_, content) => content,
        _ => Seq::empty(),
    };
    path_writes_back(content);
    let (path, k) = spec_parse_path(content).unwrap();
    assert(content =~= content.take(k) + content.skip(k));
    if style == AttrStyle::Inner {
        assert(tts.take(n) =~= seq![tts[0], tts[1], tts[2]]);
    } else {
        assert(tts.take(n) =~= seq![tts[0], tts[1]]);
    }
    assert(attr_tokens(a) =~= tts.take(n));
}


// What each reader and writer does, stated over the shapes of its tokens.

/// A nested item made of an identifier, a standalone `=` and the identifier `true`
/// or `false` is read as a name-value pair whose literal is that boolean, and takes
/// three tokens, whatever follows it.
pub proof fn nested_bool_value_is_read(name: Seq<char>, b: bool, rest: Seq<SpecTree>)
    ensures
        spec_nested_item(
            seq![
                SpecTree::Ident(name),
                SpecTree::Punct('=', Spacing::Alone),
                SpecTree::Ident(if b { true_text() } else { false_text() }),
            ] + rest,
        ) == Some((SpecNested::Meta(SpecMeta::NameValue(name, SpecLit::Bool(b))), 3int)),
{
    let t = seq![
        SpecTree::Ident(name),
        SpecTree::Punct('=', Spacing::Alone),
        SpecTree::Ident(if b { true_text() } else { false_text() }),
    ] + rest;
    assert(t[0] == SpecTree::Ident(name));
    assert(t[1] == SpecTree::Punct('=', Spacing::Alone));
    assert(t[2] == SpecTree::Ident(if b { true_text() } else { false_text() }));
    assert(true_text() != false_text()) by {
        assert(true_text().len() != false_text().len());
    }
}

/// A nested item made of an identifier, a standalone `=` and a literal that does not
/// begin with `/` is read as a name-value pair with that literal, and takes three
/// tokens, whatever follows it.
pub proof fn nested_literal_value_is_read(name: Seq<char>, text: Seq<char>, rest: Seq<SpecTree>)
    requires
        !starts_with_slash(text),
    ensures
        spec_nested_item(
            seq![
                SpecTree::Ident(name),
                SpecTree::Punct('=', Spacing::Alone),
                SpecTree::Literal(text),
            ] + rest,
        ) == Some((SpecNested::Meta(SpecMeta::NameValue(name, SpecLit::Literal(text))), 3int)),
{
    let t = seq![SpecTree::Ident(name), SpecTree::Punct('=', Spacing::Alone), SpecTree::Literal(text)]
        + rest;
    assert(t[0] == SpecTree::Ident(name));
    assert(t[1] == SpecTree::Punct('=', Spacing::Alone));
    assert(t[2] == SpecTree::Literal(text));
}

/// An item inside a list is read as the same meta item as an attribute whose path is
/// the item's name and whose tokens are the ones after that name, provided nothing
/// or a comma follows it: lists and attributes share one reading of a meta item.
pub proof fn nested_item_agrees_with_interpret_meta(
    name: Seq<char>,
    toks: Seq<SpecTree>,
    rest: Seq<SpecTree>,
    style: AttrStyle,
    leading_colon: bool,
)
    requires
        toks.len() > 0,
        rest.len() == 0 || is_comma(rest[0]),
        spec_interpret_meta(
            SpecAttribute {
                style: style,
                path: SpecPath { leading_colon: leading_colon, segments: seq![name] },
                tts: toks,
            },
        ) is Some,
    ensures
        spec_nested_item(seq![SpecTree::Ident(name)] + toks + rest) == Some(
            (
                SpecNested::Meta(
                    spec_interpret_meta(
                        SpecAttribute {
                            style: style,
                            path: SpecPath { leading_colon: leading_colon, segments: seq![name] },
                            tts: toks,
                        },
                    ).unwrap(),
                ),
                1 + toks.len() as int,
            ),
        ),
{
    let t = seq![SpecTree::Ident(name)] + toks + rest;
    assert(t[0] == SpecTree::Ident(name));
    assert(t[1] == toks[0]);
    if toks.len() == 1 {
        if t.len() >= 3 {
            assert(t[2] == rest[0]);
        }
    } else {
        assert(t[2] == toks[1]);
    }
}

/// A nested meta item is written as the meta item itself is written.
pub proof fn nested_meta_written_as_meta(m: SpecMeta)
    ensures
        nested_item_tokens(SpecNested::Meta(m)) == meta_tokens(m),
{
}

/// A name-value pair with a boolean is written as the name, a standalone `=`, and
/// the identifier `true` or `false`.
pub proof fn bool_name_value_is_written(name: Seq<char>, b: bool)
    ensures
        meta_tokens(SpecMeta::NameValue(name, SpecLit::Bool(b))) == seq![
            SpecTree::Ident(name),
            SpecTree::Punct('=', Spacing::Alone),
            SpecTree::Ident(if b { true_text() } else { false_text() }),
        ],
{
}

/// Reading one attribute does not depend on the spacing of its `#`.
pub proof fn pound_spacing_is_ignored_by_single_attr(
    tts: Seq<SpecTree>,
    style: AttrStyle,
    s1: Spacing,
    s2: Spacing,
)
    requires
        tts.len() > 0,
    ensures
        spec_single_attr(tts.update(0, SpecTree::Punct('#', s1)), style) == spec_single_attr(
            tts.update(0, SpecTree::Punct('#', s2)),
            style,
        ),
{
    let a = tts.update(0, SpecTree::Punct('#', s1));
    let b = tts.update(0, SpecTree::Punct('#', s2));
    assert(a.len() == b.len());
    assert(forall|i: int| 1 <= i < a.len() ==> a[i] == b[i]);
    assert(is_punct(a[0], '#') && is_punct(b[0], '#'));
    if a.len() > 1 {
        assert(a[1] == b[1]);
    }
    if a.len() > 2 {
        assert(a[2] == b[2]);
    }
}

/// Reading attributes does not depend on the spacing of the first `#`.
pub proof fn pound_spacing_is_ignored_by_parse_attrs(
    tts: Seq<SpecTree>,
    style: AttrStyle,
    s1: Spacing,
    s2: Spacing,
)
    requires
        tts.len() > 0,
    ensures
        spec_parse_attrs(tts.update(0, SpecTree::Punct('#', s1)), style) == spec_parse_attrs(
            tts.update(0, SpecTree::Punct('#', s2)),
            style,
        ),
{
    let a = tts.update(0, SpecTree::Punct('#', s1));
    let b = tts.update(0, SpecTree::Punct('#', s2));
    pound_spacing_is_ignored_by_single_attr(tts, style, s1, s2);
    assert(is_punct(a[0], '#') && is_punct(b[0], '#'));
    if a.len() > 1 {
        assert(a[1] == b[1]);
    }
    assert(starts_attr(a, style) == starts_attr(b, style));
    if starts_attr(a, style) {
        match spec_single_attr(a, style) {
            Ok((_, n)) => {
                if 1 <= n <= a.len() {
                    assert(a.skip(n) =~= b.skip(n));
                }
            },
            Err(_) => {},
        }
    }
}

/// Reading one inner attribute does not depend on the spacing of its `!`.
pub proof fn bang_spacing_is_ignored_by_single_attr(tts: Seq<SpecTree>, s1: Spacing, s2: Spacing)
    requires
        tts.len() > 1,
    ensures
        spec_single_attr(tts.update(1, SpecTree::Punct('!', s1)), AttrStyle::Inner)
            == spec_single_attr(tts.update(1, SpecTree::Punct('!', s2)), AttrStyle::Inner),
{
    let a = tts.update(1, SpecTree::Punct('!', s1));
    let b = tts.update(1, SpecTree::Punct('!', s2));
    assert(a[0] == b[0]);
    assert(is_punct(a[1], '!') && is_punct(b[1], '!'));
    if a.len() > 2 {
        assert(a[2] == b[2]);
    }
}

/// Tokens that begin with a `#` of either spacing (followed, for an inner attribute,
/// by a `!` of either spacing) start an attribute: reading them either fails or gives
/// at least one attribute, and never fails for want of the `#` or the `!`.
pub proof fn pound_starts_an_attribute(tts: Seq<SpecTree>, style: AttrStyle)
    requires
        tts.len() > 0,
        tts[0] matches SpecTree::Punct(c, _) && c == '#',
        style == AttrStyle::Inner ==> tts.len() > 1 && (tts[1] matches SpecTree::Punct(c, _) && c == '!'),
    ensures
        spec_parse_attrs(tts, style) matches Ok((attrs, n)) ==> attrs.len() >= 1 && n >= 1,
        spec_single_attr(tts, style) != Err::<(SpecAttribute, int), crate::parsing::Error>(
            crate::parsing::Error::ExpectedPound,
        ),
        spec_single_attr(tts, style) != Err::<(SpecAttribute, int), crate::parsing::Error>(
            crate::parsing::Error::ExpectedBang,
        ),
{
    assert(is_punct(tts[0], '#'));
    assert(starts_attr(tts, style));
    let p: int = if style == AttrStyle::Inner { 2 } else { 1 };
    if p < tts.len() {
        match tts[p] {
            SpecTree::Group(_, content) => {
                let start: int = if sep_at(content, 0) { 2 } else { 0 };
                lemma_path_segment_errors(content, start, false);
            },
            _ => {},
        }
    }
    match spec_single_attr(tts, style) {
        Ok((a, n)) => {
            if 1 <= n <= tts.len() {
                lemma_parse_attrs_count(tts.skip(n), style);
            }
        },
        Err(_) => {},
    }
}

proof fn lemma_path_segment_errors(tts: Seq<SpecTree>, i: int, after_sep: bool)
    ensures
        spec_path_segments(tts, i, after_sep) is Err ==> spec_path_segments(tts, i, after_sep)
            == Err::<(Seq<Seq<char>>, int), crate::parsing::Error>(
            crate::parsing::Error::ExpectedPathSegment,
        ),
    decreases tts.len() - i,
{
    if 0 <= i < tts.len() && tts[i] is Ident && sep_at(tts, i + 1) {
        lemma_path_segment_errors(tts, i + 3, true);
    }
}

proof fn lemma_parse_attrs_count(tts: Seq<SpecTree>, style: AttrStyle)
    ensures
        spec_parse_attrs(tts, style) matches Ok((attrs, n)) ==> 0 <= n <= tts.len(),
    decreases tts.len(),
{
    if starts_attr(tts, style) {
        match spec_single_attr(tts, style) {
            Ok((a, n)) => {
                if 1 <= n <= tts.len() {
                    lemma_parse_attrs_count(tts.skip(n), style);
                }
            },
            Err(_) => {},
        }
    }
}

/// An attribute that is read holds the path at the front of its bracketed group and,
/// unchanged, every token of the group after that path.
pub proof fn read_attr_keeps_tokens_after_path(tts: Seq<SpecTree>, style: AttrStyle)
    requires
        spec_single_attr(tts, style) is Ok,
    ensures
        ({
            let p: int = if style == AttrStyle::Inner { 2 } else { 1 };
            let (a, n) = spec_single_attr(tts, style).unwrap();
            &&& n == p + 1
            &&& a.style == style
            &&& match tts[p] {
                SpecTree::Group(d, content) => d == Delimiter::Bracket && match spec_parse_path(content) {
                    Ok((path, k)) => a.path == path && a.tts == content.subrange(k, content.len() as int),
                    Err(_) => false,
                },
                _ => false,
            }
        }),
{
}

/// Writing an attribute gives `#`, then `!` for an inner one, then one bracketed group
/// that holds the path's tokens followed, unchanged, by the attribute's tokens.
pub proof fn written_attr_keeps_tokens_after_path(a: SpecAttribute)
    ensures
        attr_tokens(a) == seq![SpecTree::Punct('#', Spacing::Alone)] + (if a.style == AttrStyle::Inner {
            seq![SpecTree::Punct('!', Spacing::Alone)]
        } else {
            Seq::<SpecTree>::empty()
        }) + seq![SpecTree::Group(Delimiter::Bracket, path_tokens(a.path) + a.tts)],
        attr_tokens(a).last() == SpecTree::Group(Delimiter::Bracket, path_tokens(a.path) + a.tts),
{
}

proof fn lemma_filter_in_source(s: Seq<Attribute>, p: spec_fn(Attribute) -> bool)
    ensures
        forall|i: int| 0 <= i < s.filter(p).len() ==> s.contains(#[trigger] s.filter(p)[i]),
    decreases s.len(),
{
    reveal_with_fuel(Seq::<_>::filter, 1);
    if s.len() > 0 {
        lemma_filter_in_source(s.drop_last(), p);
        let f = s.filter(p);
        assert forall|i: int| 0 <= i < f.len() implies s.contains(#[trigger] f[i]) by {
            let g = s.drop_last().filter(p);
            if i < g.len() {
                assert(f[i] == g[i]);
                let j = choose|j: int| 0 <= j < s.drop_last().len() && s.drop_last()[j] == g[i];
                assert(s[j] == g[i]);
            } else {
                assert(f[i] == s[s.len() - 1]);
            }
        }
    }
}

proof fn lemma_filter_members(s: Seq<Attribute>, p: spec_fn(Attribute) -> bool)
    ensures
        forall|a: Attribute| #[trigger] s.filter(p).contains(a) <==> (s.contains(a) && p(a)),
{
    lemma_filter_in_source(s, p);
    assert forall|a: Attribute| #[trigger] s.filter(p).contains(a) <==> (s.contains(a) && p(a)) by {
        if s.filter(p).contains(a) {
            let i = choose|i: int| 0 <= i < s.filter(p).len() && s.filter(p)[i] == a;
            s.lemma_filter_pred(p, i);
        }
        if s.contains(a) && p(a) {
            let i = choose|i: int| 0 <= i < s.len() && s[i] == a;
            s.lemma_filter_contains(p, i);
        }
    }
}

/// `outer()` selects exactly the attributes whose style is `Outer`, and `inner()`
/// exactly those whose style is `Inner`, whatever their paths and tokens.
pub proof fn filters_select_by_style(s: Seq<Attribute>)
    ensures
        forall|a: Attribute| #[trigger] outer_attrs(s).contains(a) <==> (s.contains(a) && a.style
            == AttrStyle::Outer),
        forall|a: Attribute| #[trigger] inner_attrs(s).contains(a) <==> (s.contains(a) && a.style
            == AttrStyle::Inner),
        outer_attrs(s).len() + inner_attrs(s).len() == s.len(),
{
    lemma_filter_members(s, |a: Attribute| is_outer(a));
    lemma_filter_members(s, |a: Attribute| is_inner(a));
    filter_partitions_attrs(s);
}


/// How an attribute with a one-segment path is interpreted, by the shape of its
/// tokens: no tokens make a word; `= true` and `= false` make boolean name-value
/// pairs; `= literal` makes a name-value pair with that literal unless the literal
/// begins with `/`, in which case nothing is read. A path of any other length is
/// never interpreted.
pub proof fn interpret_meta_by_shape(
    name: Seq<char>,
    style: AttrStyle,
    leading_colon: bool,
    b: bool,
    text: Seq<char>,
    segments: Seq<Seq<char>>,
    tts: Seq<SpecTree>,
)
    ensures
        spec_interpret_meta(
            SpecAttribute {
                style: style,
                path: SpecPath { leading_colon: leading_colon, segments: seq![name] },
                tts: Seq::empty(),
            },
        ) == Some(SpecMeta::Word(name)),
        spec_interpret_meta(
            SpecAttribute {
                style: style,
                path: SpecPath { leading_colon: leading_colon, segments: seq![name] },
                tts: seq![
                    SpecTree::Punct('=', Spacing::Alone),
                    SpecTree::Ident(if b { true_text() } else { false_text() }),
                ],
            },
        ) == Some(SpecMeta::NameValue(name, SpecLit::Bool(b))),
        spec_interpret_meta(
            SpecAttribute {
                style: style,
                path: SpecPath { leading_colon: leading_colon, segments: seq![name] },
                tts: seq![SpecTree::Punct('=', Spacing::Alone), SpecTree::Literal(text)],
            },
        ) == (if starts_with_slash(text) {
            None
        } else {
            Some(SpecMeta::NameValue(name, SpecLit::Literal(text)))
        }),
        segments.len() != 1 ==> spec_interpret_meta(
            SpecAttribute {
                style: style,
                path: SpecPath { leading_colon: leading_colon, segments: segments },
                tts: tts,
            },
        ) is None,
{
    assert(seq![name][0] == name);
    assert(true_text() != false_text()) by {
        assert(true_text().len() != false_text().len());
    }
}

/// A comma joined to the next token does not separate list items: a list whose
/// first item is followed by such a comma is not read.
pub proof fn joint_comma_ends_no_item(name: Seq<char>, rest: Seq<SpecTree>)
    ensures
        spec_nested_list(seq![SpecTree::Ident(name), SpecTree::Punct(',', Spacing::Joint)] + rest, true)
            is None,
{
    let t = seq![SpecTree::Ident(name), SpecTree::Punct(',', Spacing::Joint)] + rest;
    assert(t[0] == SpecTree::Ident(name));
    assert(t[1] == SpecTree::Punct(',', Spacing::Joint));
    if t.len() >= 3 {
        assert(spec_name_value(name, t[1], t[2]) is None);
    }
    assert(spec_nested_item(t) == Some((SpecNested::Meta(SpecMeta::Word(name)), 1int)));
    assert(t.skip(1)[0] == t[1]);
    assert(!is_comma(t.skip(1)[0]));
    assert(spec_nested_list(t.skip(1), false) is None);
}

} // verus!
