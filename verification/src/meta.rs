//! Structured attribute content (`Meta`) and how it is read from token trees.
use vstd::prelude::*;

use crate::token::{Delimiter, Ident, Literal, SpecTree, Spacing, starts_with_slash, true_text, false_text};

verus! {

/// A literal inside an attribute: `true` or `false`, or any other literal token.
#[derive(Clone, Debug, PartialEq, Eq, Hash)]
pub enum Lit {
    Bool(bool),
    Literal(Literal),
}

/// Content of a compile-time structured attribute.
///
/// A `Word` is like the `test` in `#[test]`, a `List` like `derive(Copy, Clone)`
/// in `#[derive(Copy, Clone)]`, a `NameValue` like `path = "sys/windows.rs"`.
#[derive(Debug, PartialEq, Eq, Hash)]
pub enum Meta {
    Word(Ident),
    List(MetaList),
    NameValue(MetaNameValue),
}

/// A structured list within an attribute, like `derive(Copy, Clone)`.
/// The items are separated by commas.
#[derive(Debug, PartialEq, Eq, Hash)]
pub struct MetaList {
    pub ident: Ident,
    pub nested: Vec<NestedMeta>,
}

/// A name-value pair within an attribute, like `feature = "nightly"`.
#[derive(Debug, PartialEq, Eq, Hash)]
pub struct MetaNameValue {
    pub ident: Ident,
    pub lit: Lit,
}

/// Element of a compile-time attribute list.
#[derive(Debug, PartialEq, Eq, Hash)]
pub enum NestedMeta {
    /// A structured meta item, like the `Copy` in `#[derive(Copy)]`.
    Meta(Meta),
    /// A literal, like the `"new_name"` in `#[rename("new_name")]`.
    Literal(Lit),
}

/// The value of a literal.
pub enum SpecLit {
    Bool(bool),
    Literal(Seq<char>),
}

/// The value of a `Meta`: identifiers are held by their text.
pub enum SpecMeta {
    Word(Seq<char>),
    List(Seq<char>, Seq<SpecNested>),
    NameValue(Seq<char>, SpecLit),
}

/// The value of a `NestedMeta`.
pub enum SpecNested {
    Meta(SpecMeta),
    Literal(SpecLit),
}

impl Lit {
    pub open spec fn view(self) -> SpecLit {
        match self {
            Lit::Bool(b) => SpecLit::Bool(b),
            Lit::Literal(l) => SpecLit::Literal(l.repr@),
        }
    }

    /// A copy of this literal.
    pub fn copy(&self) -> (res: Lit)
        ensures
            res == *self,
    {
        match self {
            Lit::Bool(b) => Lit::Bool(*b),
            Lit::Literal(l) => Lit::Literal(l.copy()),
        }
    }
}

impl Meta {
    pub open spec fn view(self) -> SpecMeta
        decreases self,
    {
        match self {
            Meta::Word(i) => SpecMeta::Word(i.sym@),
            Meta::List(l) => SpecMeta::List(l.ident.sym@, nested_seq_view(l.nested@)),
            Meta::NameValue(nv) => SpecMeta::NameValue(nv.ident.sym@, nv.lit.view()),
        }
    }
}

impl NestedMeta {
    pub open spec fn view(self) -> SpecNested
        decreases self,
    {
        match self {
            NestedMeta::Meta(m) => SpecNested::Meta(m.view()),
            NestedMeta::Literal(l) => SpecNested::Literal(l.view()),
        }
    }
}

/// The values of a sequence of nested items.
pub open spec fn nested_seq_view(s: Seq<NestedMeta>) -> Seq<SpecNested>
    decreases s,
{
    if s.len() == 0 {
        Seq::empty()
    } else {
        nested_seq_view(s.drop_last()).push(s.last().view())
    }
}

/// The values of a sequence of nested items are taken one by one.
pub proof fn lemma_nested_seq_view(s: Seq<NestedMeta>)
    ensures
        nested_seq_view(s).len() == s.len(),
        forall|i: int| 0 <= i < s.len() ==> #[trigger] nested_seq_view(s)[i] == s[i].view(),
    decreases s.len(),
{
    if s.len() > 0 {
        lemma_nested_seq_view(s.drop_last());
    }
}

/// The value of an optional meta.
pub open spec fn opt_meta_view(m: Option<Meta>) -> Option<SpecMeta> {
    match m {
        Some(m) => Some(m.view()),
        None => None,
    }
}

/// The name of a meta item.
pub open spec fn spec_meta_name(m: SpecMeta) -> Seq<char> {
    match m {
        SpecMeta::Word(i) => i,
        SpecMeta::List(i, _) => i,
        SpecMeta::NameValue(i, _) => i,
    }
}

impl Meta {
    /// Returns the identifier that begins this structured meta item.
    ///
    /// For example this would return the `test` in `#[test]`, the `derive` in
    /// `#[derive(Copy)]`, and the `path` in `#[path = "sys/windows.rs"]`.
    pub fn name(&self) -> (res: Ident)
        ensures
            res.sym@ == spec_meta_name(self.view()),
    {
        match self {
            Meta::Word(meta) => meta.copy(),
            Meta::List(meta) => meta.ident.copy(),
            Meta::NameValue(meta) => meta.ident.copy(),
        }
    }
}

// The grammar by which attribute tokens are read, stated over token values.
/// Whether a token is a comma that stands alone.
pub open spec fn is_comma(t: SpecTree) -> bool {
    t == SpecTree::Punct(',', Spacing::Alone)
}

/// `= literal` after `ident`: a name-value meta.
/// The `=` must stand alone; the value is a literal that does not begin with `/`,
/// or one of the identifiers `true` and `false`.
pub open spec fn spec_name_value(ident: Seq<char>, a: SpecTree, b: SpecTree) -> Option<SpecMeta> {
    if a == SpecTree::Punct('=', Spacing::Alone) {
        match b {
            SpecTree::Literal(text) => if !starts_with_slash(text) {
                Some(SpecMeta::NameValue(ident, SpecLit::Literal(text)))
            } else {
                None
            },
            SpecTree::Ident(word) => if word == true_text() {
                Some(SpecMeta::NameValue(ident, SpecLit::Bool(true)))
            } else if word == false_text() {
                Some(SpecMeta::NameValue(ident, SpecLit::Bool(false)))
            } else {
                None
            },
            _ => None,
        }
    } else {
        None
    }
}

/// `(nested, ...)` after `ident`: a meta list. The group must be parenthesized
/// and its content a comma-separated list of nested items.
pub open spec fn spec_meta_list(ident: Seq<char>, tt: SpecTree) -> Option<SpecMeta>
    decreases tt, 0nat,
{
    match tt {
        SpecTree::Group(delimiter, stream) => if delimiter == Delimiter::Parenthesis {
            match spec_nested_list(stream, true) {
                Some(nested) => Some(SpecMeta::List(ident, nested)),
                None => None,
            }
        } else {
            None
        },
        _ => None,
    }
}

/// One nested item at the front of `tts`, with the number of tokens it takes:
/// a literal that does not begin with `/`; or an identifier followed by `= value`,
/// by a parenthesized list, or by neither (a word).
pub open spec fn spec_nested_item(tts: Seq<SpecTree>) -> Option<(SpecNested, int)>
    decreases tts, 1nat,
{
    if tts.len() == 0 {
        None
    } else {
        match tts[0] {
            SpecTree::Literal(text) => if starts_with_slash(text) {
                None
            } else {
                Some((SpecNested::Literal(SpecLit::Literal(text)), 1))
            },
            SpecTree::Ident(name) => if tts.len() >= 3 && spec_name_value(name, tts[1], tts[2]) is Some {
                Some((SpecNested::Meta(spec_name_value(name, tts[1], tts[2]).unwrap()), 3))
            } else if tts.len() >= 2 && spec_meta_list(name, tts[1]) is Some {
                Some((SpecNested::Meta(spec_meta_list(name, tts[1]).unwrap()), 2))
            } else {
                Some((SpecNested::Meta(SpecMeta::Word(name)), 1))
            },
            _ => None,
        }
    }
}

/// A list of nested items separated by standalone commas, with an optional trailing comma.
/// `first` tells that no item has been read yet, so no comma is expected.
pub open spec fn spec_nested_list(tts: Seq<SpecTree>, first: bool) -> Option<Seq<SpecNested>>
    decreases tts, 2nat,
{
    if tts.len() == 0 {
        Some(Seq::empty())
    } else if !first && !is_comma(tts[0]) {
        None
    } else if !first && tts.len() == 1 {
        Some(Seq::empty())
    } else {
        let items = if first {
            tts
        } else {
            tts.skip(1)
        };
        match spec_nested_item(items) {
            Some((item, n)) => if 1 <= n <= items.len() {
                match spec_nested_list(items.skip(n), false) {
                    Some(rest) => Some(seq![item] + rest),
                    None => None,
                }
            } else {
                None
            },
            None => None,
        }
    }
}

} // verus!
