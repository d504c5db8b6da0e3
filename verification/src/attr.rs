//! Attributes, and how their tokens are interpreted as structured content.
use vstd::prelude::*;

use crate::meta::{
    Lit, Meta, MetaList, MetaNameValue, NestedMeta, SpecMeta, SpecNested, nested_seq_view,
    opt_meta_view, spec_meta_list, spec_name_value, spec_nested_item, spec_nested_list,
};
use crate::token::{
    Delimiter, Ident, SpecTree, Spacing, TokenTree, lemma_trees_view, lemma_trees_view_skip,
    text_is_false, text_is_true, text_starts_with_slash, trees_view,
};

verus! {

/// Distinguishes attributes that decorate an item (`#[...]`, outer) from attributes
/// that are contained within an item (`#![...]`, inner).
#[derive(Clone, Copy, Debug, PartialEq, Eq, Hash, Structural)]
pub enum AttrStyle {
    Outer,
    Inner,
}

/// A path like `std::mem::replace`, as it stands in an attribute: identifiers
/// separated by `::`, with an optional leading `::`.
#[derive(Clone, Debug, PartialEq, Eq, Hash)]
pub struct Path {
    pub leading_colon: bool,
    pub segments: Vec<Ident>,
}

/// An attribute like `#[repr(transparent)]`: its style, the path against which
/// it is resolved, and the tokens that follow the path.
#[derive(Debug, PartialEq, Eq, Hash)]
pub struct Attribute {
    pub style: AttrStyle,
    pub path: Path,
    pub tts: Vec<TokenTree>,
}

/// The value of a path: the texts of its segments.
pub struct SpecPath {
    pub leading_colon: bool,
    pub segments: Seq<Seq<char>>,
}

/// The value of an attribute.
pub struct SpecAttribute {
    pub style: AttrStyle,
    pub path: SpecPath,
    pub tts: Seq<SpecTree>,
}

impl Path {
    pub open spec fn view(self) -> SpecPath {
        SpecPath {
            leading_colon: self.leading_colon,
            segments: self.segments@.map_values(|i: Ident| i.sym@),
        }
    }
}

impl Attribute {
    pub open spec fn view(self) -> SpecAttribute {
        SpecAttribute { style: self.style, path: self.path.view(), tts: trees_view(self.tts@) }
    }
}

/// What the tokens after an attribute's path mean, where they mean anything:
/// the path must be a single identifier; then no tokens make a word, one
/// parenthesized group a list, and `= value` a name-value pair.
pub open spec fn spec_interpret_meta(attr: SpecAttribute) -> Option<SpecMeta> {
    if attr.path.segments.len() != 1 {
        None
    } else {
        let name = attr.path.segments[0];
        let tts = attr.tts;
        if tts.len() == 0 {
            Some(SpecMeta::Word(name))
        } else if tts.len() == 1 && spec_meta_list(name, tts[0]) is Some {
            spec_meta_list(name, tts[0])
        } else if tts.len() == 2 && spec_name_value(name, tts[0], tts[1]) is Some {
            spec_name_value(name, tts[0], tts[1])
        } else {
            None
        }
    }
}

/// The value of an optional list of nested items.
pub open spec fn opt_nested_view(v: Option<Vec<NestedMeta>>) -> Option<Seq<SpecNested>> {
    match v {
        Some(v) => Some(nested_seq_view(v@)),
        None => None,
    }
}

impl Attribute {
    /// Parses the tokens after the path as a `Meta` if possible.
    pub fn interpret_meta(&self) -> (res: Option<Meta>)
        ensures
            opt_meta_view(res) == spec_interpret_meta(self.view()),
    {
        proof {
            lemma_trees_view(self.tts@);
        }
        let name = if self.path.segments.len() == 1 {
            &self.path.segments[0]
        } else {
            return None;
        };

        if self.tts.len() == 0 {
            return Some(Meta::Word(name.copy()));
        }
        if self.tts.len() == 1 {
            if let Some(meta) = Attribute::extract_meta_list(name.copy(), &self.tts[0]) {
                return Some(meta);
            }
        }
        if self.tts.len() == 2 {
            if let Some(meta) = Attribute::extract_name_value(name.copy(), &self.tts[0], &self.tts[1]) {
                return Some(meta);
            }
        }
        None
    }

    fn extract_meta_list(ident: Ident, tt: &TokenTree) -> (res: Option<Meta>)
        ensures
            opt_meta_view(res) == spec_meta_list(ident.sym@, tt.view()),
        decreases *tt, 0nat,
    {
        let g = match tt {
            TokenTree::Group(g) => g,
            _ => return None,
        };
        if g.delimiter != Delimiter::Parenthesis {
            return None;
        }
        let tokens = g.stream.as_slice();
        let nested = match list_of_nested_meta_items_from_tokens(tokens) {
            Some(n) => n,
            None => return None,
        };
        Some(Meta::List(MetaList { ident: ident, nested: nested }))
    }

    fn extract_name_value(ident: Ident, a: &TokenTree, b: &TokenTree) -> (res: Option<Meta>)
        ensures
            opt_meta_view(res) == spec_name_value(ident.sym@, a.view(), b.view()),
    {
        let a = match a {
            TokenTree::Punct(o) => o,
            _ => return None,
        };
        if a.spacing != Spacing::Alone {
            return None;
        }
        if a.ch != '=' {
            return None;
        }
        match b {
            TokenTree::Literal(l) => if !text_starts_with_slash(&l.repr) {
                Some(Meta::NameValue(MetaNameValue { ident: ident, lit: Lit::Literal(l.copy()) }))
            } else {
                None
            },
            TokenTree::Ident(v) => if text_is_true(&v.sym) {
                Some(Meta::NameValue(MetaNameValue { ident: ident, lit: Lit::Bool(true) }))
            } else if text_is_false(&v.sym) {
                Some(Meta::NameValue(MetaNameValue { ident: ident, lit: Lit::Bool(false) }))
            } else {
                None
            },
            _ => None,
        }
    }
}

/// Reads one nested item from the front of `tts`; gives it with the tokens after it.
fn nested_meta_item_from_tokens(tts: &[TokenTree]) -> (res: Option<(NestedMeta, &[TokenTree])>)
    requires
        tts@.len() > 0,
    ensures
        match (res, spec_nested_item(trees_view(tts@))) {
            (Some((item, rest)), Some((spec_item, n))) => item.view() == spec_item && 1 <= n
                <= tts@.len() && rest@ == tts@.skip(n),
            (None, None) => true,
            _ => false,
        },
    decreases tts@, 1nat,
{
    proof {
        lemma_trees_view(tts@);
    }
    match &tts[0] {
        TokenTree::Literal(lit) => {
            if text_starts_with_slash(&lit.repr) {
                None
            } else {
                let lit = Lit::Literal(lit.copy());
                Some((NestedMeta::Literal(lit), &tts[1..tts.len()]))
            }
        },
        TokenTree::Ident(ident) => {
            if tts.len() >= 3 {
                if let Some(meta) = Attribute::extract_name_value(ident.copy(), &tts[1], &tts[2]) {
                    return Some((NestedMeta::Meta(meta), &tts[3..tts.len()]));
                }
            }
            if tts.len() >= 2 {
                if let Some(meta) = Attribute::extract_meta_list(ident.copy(), &tts[1]) {
                    return Some((NestedMeta::Meta(meta), &tts[2..tts.len()]));
                }
            }
            Some((NestedMeta::Meta(Meta::Word(ident.copy())), &tts[1..tts.len()]))
        },
        _ => None,
    }
}

/// Reads a comma-separated list of nested items (a trailing comma is allowed)
/// that makes up all of `tts`.
fn list_of_nested_meta_items_from_tokens(tts: &[TokenTree]) -> (res: Option<Vec<NestedMeta>>)
    ensures
        opt_nested_view(res) == spec_nested_list(trees_view(tts@), true),
    decreases tts@, 2nat,
{
    let ghost whole = tts@;
    let mut nested_meta_items: Vec<NestedMeta> = Vec::new();
    let mut first = true;
    let mut cur = tts;
    let ghost mut k: int = 0;
    assert(whole.skip(0) =~= whole);

    while !cur.is_empty()
        invariant
            whole == tts@,
            0 <= k <= whole.len(),
            cur@ == whole.skip(k),
            first ==> k == 0,
            first ==> nested_meta_items@.len() == 0,
            spec_nested_list(trees_view(whole), true) == match spec_nested_list(
                trees_view(cur@),
                first,
            ) {
                Some(r) => Some(nested_seq_view(nested_meta_items@) + r),
                None => None,
            },
        decreases cur@.len(),
    {
        let ghost before = spec_nested_list(trees_view(cur@), first);
        proof {
            lemma_trees_view(cur@);
        }
        if first {
            first = false;
        } else if let TokenTree::Punct(op) = &cur[0] {
            assert(trees_view(cur@)[0] == SpecTree::Punct(op.ch, op.spacing));
            if op.spacing != Spacing::Alone {
                return None;
            }
            if op.ch != ',' {
                return None;
            }
            proof {
                lemma_trees_view_skip(cur@, 1);
                assert(whole.skip(k).skip(1) =~= whole.skip(k + 1));
                k = k + 1;
            }
            cur = &cur[1..cur.len()];
            if cur.is_empty() {
                assert(before == Some(Seq::<SpecNested>::empty()));
                assert(nested_seq_view(nested_meta_items@) + Seq::<SpecNested>::empty()
                    =~= nested_seq_view(nested_meta_items@));
                return Some(nested_meta_items);
            }
        } else {
            assert(trees_view(cur@)[0] == cur@[0].view());
            return None;
        }
        proof {
            if k == 0 {
                assert(cur@ =~= whole);
            } else {
                assert(cur@ == whole.subrange(k, whole.len() as int));
                assert(decreases_to!(whole => cur@));
            }
        }
        let (nested, rest) = match nested_meta_item_from_tokens(cur) {
            Some(pair) => pair,
            None => return None,
        };
        let ghost n = spec_nested_item(trees_view(cur@)).unwrap().1;
        proof {
            lemma_trees_view_skip(cur@, n);
            assert(whole.skip(k).skip(n) =~= whole.skip(k + n));
            assert(nested_meta_items@.push(nested).drop_last() =~= nested_meta_items@);
            match spec_nested_list(trees_view(rest@), false) {
                Some(r) => {
                    assert(nested_seq_view(nested_meta_items@).push(nested.view()) + r
                        =~= nested_seq_view(nested_meta_items@) + (seq![nested.view()] + r));
                },
                None => {},
            }
            k = k + n;
        }
        nested_meta_items.push(nested);
        cur = rest;
    }
    assert(nested_seq_view(nested_meta_items@) + Seq::<SpecNested>::empty()
        =~= nested_seq_view(nested_meta_items@));
    Some(nested_meta_items)
}


/// Whether an attribute is an outer one, `#[...]`.
pub open spec fn is_outer(a: Attribute) -> bool {
    a.style == AttrStyle::Outer
}

/// Whether an attribute is an inner one, `#![...]`.
pub open spec fn is_inner(a: Attribute) -> bool {
    a.style == AttrStyle::Inner
}

/// The outer attributes of a sequence, in order.
pub open spec fn outer_attrs(s: Seq<Attribute>) -> Seq<Attribute> {
    s.filter(|a: Attribute| is_outer(a))
}

/// The inner attributes of a sequence, in order.
pub open spec fn inner_attrs(s: Seq<Attribute>) -> Seq<Attribute> {
    s.filter(|a: Attribute| is_inner(a))
}

/// The attributes that references point to.
pub open spec fn deref_attrs<'a>(s: Seq<&'a Attribute>) -> Seq<Attribute> {
    s.map_values(|r: &'a Attribute| *r)
}

/// Selects the outer or the inner attributes of a sequence, keeping their order.
pub trait FilterAttrs<'a> {
    /// The attributes that are filtered.
    spec fn attrs_seq(self) -> Seq<Attribute>;

    /// The outer attributes, in order.
    fn outer(self) -> (res: Vec<&'a Attribute>)
        ensures
            deref_attrs(res@) == outer_attrs(self.attrs_seq()),
    ;

    /// The inner attributes, in order.
    fn inner(self) -> (res: Vec<&'a Attribute>)
        ensures
            deref_attrs(res@) == inner_attrs(self.attrs_seq()),
    ;
}

/// The attributes of `attrs` whose style is `style`, in order.
fn filter_style<'a>(attrs: &'a [Attribute], style: AttrStyle) -> (res: Vec<&'a Attribute>)
    ensures
        deref_attrs(res@) == attrs@.filter(|a: Attribute| a.style == style),
{
    let ghost pred = |a: Attribute| a.style == style;
    let mut res: Vec<&'a Attribute> = Vec::new();
    let n = attrs.len();
    for i in 0..n
        invariant
            n == attrs@.len(),
            pred == (|a: Attribute| a.style == style),
            deref_attrs(res@) =~= attrs@.take(i as int).filter(pred),
    {
        reveal_with_fuel(Seq::<_>::filter, 1);
        assert(attrs@.take(i + 1).drop_last() =~= attrs@.take(i as int));
        let ghost old_res = res@;
        if attrs[i].style == style {
            res.push(&attrs[i]);
            assert(deref_attrs(res@) =~= deref_attrs(old_res).push(attrs@[i as int]));
        }
    }
    assert(attrs@.take(n as int) =~= attrs@);
    res
}

impl<'a> FilterAttrs<'a> for &'a [Attribute] {
    open spec fn attrs_seq(self) -> Seq<Attribute> {
        self@
    }

    fn outer(self) -> (res: Vec<&'a Attribute>) {
        let res = filter_style(self, AttrStyle::Outer);
        assert((|a: Attribute| a.style == AttrStyle::Outer) =~= (|a: Attribute| is_outer(a)));
        res
    }

    fn inner(self) -> (res: Vec<&'a Attribute>) {
        let res = filter_style(self, AttrStyle::Inner);
        assert((|a: Attribute| a.style == AttrStyle::Inner) =~= (|a: Attribute| is_inner(a)));
        res
    }
}

impl<'a> FilterAttrs<'a> for &'a Vec<Attribute> {
    open spec fn attrs_seq(self) -> Seq<Attribute> {
        self@
    }

    fn outer(self) -> (res: Vec<&'a Attribute>) {
        self.as_slice().outer()
    }

    fn inner(self) -> (res: Vec<&'a Attribute>) {
        self.as_slice().inner()
    }
}

/// Helpers that other parts of the parser share.
#[allow(non_camel_case_types)]
pub struct private;

impl private {
    /// All the attributes of an item: its outer attributes, then its inner ones.
    pub fn attrs(outer: Vec<Attribute>, inner: Vec<Attribute>) -> (res: Vec<Attribute>)
        ensures
            res@ == outer@ + inner@,
    {
        let mut attrs = outer;
        let mut inner = inner;
        attrs.append(&mut inner);
        attrs
    }
}

} // verus!
