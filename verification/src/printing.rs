//! Writing attributes and their structured content back out as token trees.
use vstd::prelude::*;

use crate::attr::{AttrStyle, Attribute, Path, SpecAttribute, SpecPath};
use crate::meta::{
    Lit, Meta, MetaList, MetaNameValue, NestedMeta, SpecLit, SpecMeta, SpecNested,
    lemma_nested_seq_view, nested_seq_view,
};
use crate::token::{
    Delimiter, Group, Ident, Punct, SpecTree, Spacing, TokenTree, copy_trees,
    false_text, lemma_trees_view_add, lemma_trees_view_push, true_text, trees_view,
};

verus! {

/// The tokens of a path separator `::`.
pub open spec fn sep_tokens() -> Seq<SpecTree> {
    seq![SpecTree::Punct(':', Spacing::Joint), SpecTree::Punct(':', Spacing::Alone)]
}

/// The tokens of path segments: the identifiers with `::` between them.
pub open spec fn segments_tokens(segs: Seq<Seq<char>>) -> Seq<SpecTree>
    decreases segs.len(),
{
    if segs.len() == 0 {
        Seq::empty()
    } else if segs.len() == 1 {
        seq![SpecTree::Ident(segs[0])]
    } else {
        seq![SpecTree::Ident(segs[0])] + sep_tokens() + segments_tokens(segs.skip(1))
    }
}

/// The tokens of a path: a leading `::` where it has one, then its segments.
pub open spec fn path_tokens(p: SpecPath) -> Seq<SpecTree> {
    (if p.leading_colon {
        sep_tokens()
    } else {
        Seq::empty()
    }) + segments_tokens(p.segments)
}

/// The tokens of an attribute: `#`, `!` for an inner one, then in square brackets
/// the path and the tokens after it.
pub open spec fn attr_tokens(a: SpecAttribute) -> Seq<SpecTree> {
    seq![SpecTree::Punct('#', Spacing::Alone)] + (if a.style == AttrStyle::Inner {
        seq![SpecTree::Punct('!', Spacing::Alone)]
    } else {
        Seq::empty()
    }) + seq![SpecTree::Group(Delimiter::Bracket, path_tokens(a.path) + a.tts)]
}

/// The tokens of a sequence of attributes, one after the other.
pub open spec fn attrs_tokens(s: Seq<SpecAttribute>) -> Seq<SpecTree>
    decreases s.len(),
{
    if s.len() == 0 {
        Seq::empty()
    } else {
        attr_tokens(s[0]) + attrs_tokens(s.skip(1))
    }
}

/// The token of a literal: `true` and `false` are identifiers.
pub open spec fn lit_token(l: SpecLit) -> SpecTree {
    match l {
        SpecLit::Bool(b) => SpecTree::Ident(
            if b {
                true_text()
            } else {
                false_text()
            },
        ),
        SpecLit::Literal(text) => SpecTree::Literal(text),
    }
}

/// The tokens of a meta item: its name, then a parenthesized list or `= literal`.
pub open spec fn meta_tokens(m: SpecMeta) -> Seq<SpecTree>
    decreases m, 0nat,
{
    match m {
        SpecMeta::Word(i) => seq![SpecTree::Ident(i)],
        SpecMeta::List(i, nested) => seq![
            SpecTree::Ident(i),
            SpecTree::Group(Delimiter::Parenthesis, nested_tokens(nested)),
        ],
        SpecMeta::NameValue(i, l) => seq![
            SpecTree::Ident(i),
            SpecTree::Punct('=', Spacing::Alone),
            lit_token(l),
        ],
    }
}

/// The tokens of one nested item.
pub open spec fn nested_item_tokens(n: SpecNested) -> Seq<SpecTree>
    decreases n, 1nat,
{
    match n {
        SpecNested::Meta(m) => meta_tokens(m),
        SpecNested::Literal(l) => seq![lit_token(l)],
    }
}

/// The tokens of nested items, with a standalone comma between two items.
pub open spec fn nested_tokens(s: Seq<SpecNested>) -> Seq<SpecTree>
    decreases s, 2nat,
{
    if s.len() == 0 {
        Seq::empty()
    } else if s.len() == 1 {
        nested_item_tokens(s[0])
    } else {
        nested_item_tokens(s[0]) + seq![SpecTree::Punct(',', Spacing::Alone)] + nested_tokens(
            s.skip(1),
        )
    }
}

/// Writing one more segment adds a separator and its identifier.
proof fn lemma_segments_tokens_push(segs: Seq<Seq<char>>, s: Seq<char>)
    requires
        segs.len() > 0,
    ensures
        segments_tokens(segs.push(s)) == segments_tokens(segs) + sep_tokens() + seq![SpecTree::Ident(s)],
    decreases segs.len(),
{
    if segs.len() == 1 {
        assert(segs.push(s).skip(1) =~= seq![s]);
        assert(segments_tokens(seq![s]) == seq![SpecTree::Ident(s)]);
    } else {
        assert(segs.push(s).skip(1) =~= segs.skip(1).push(s));
        lemma_segments_tokens_push(segs.skip(1), s);
        assert(segs.push(s)[0] == segs[0]);
    }
    assert(segments_tokens(segs.push(s)) =~= segments_tokens(segs) + sep_tokens() + seq![
        SpecTree::Ident(s),
    ]);
}

/// Writing one more nested item adds a comma and its tokens.
proof fn lemma_nested_tokens_push(s: Seq<SpecNested>, n: SpecNested)
    requires
        s.len() > 0,
    ensures
        nested_tokens(s.push(n)) == nested_tokens(s) + seq![SpecTree::Punct(',', Spacing::Alone)]
            + nested_item_tokens(n),
    decreases s.len(),
{
    assert(s.push(n)[0] == s[0]);
    if s.len() == 1 {
        assert(s.push(n).skip(1) =~= seq![n]);
        assert(seq![n][0] == n);
        assert(nested_tokens(seq![n]) == nested_item_tokens(n));
        assert(nested_tokens(s) == nested_item_tokens(s[0]));
    } else {
        assert(s.push(n).skip(1) =~= s.skip(1).push(n));
        lemma_nested_tokens_push(s.skip(1), n);
        assert(s.push(n)[0] == s[0]);
    }
    assert(nested_tokens(s.push(n)) =~= nested_tokens(s) + seq![
        SpecTree::Punct(',', Spacing::Alone),
    ] + nested_item_tokens(n));
}

/// Appends one tree.
fn push_tree(tokens: &mut Vec<TokenTree>, t: TokenTree)
    ensures
        trees_view(final(tokens)@) == trees_view(old(tokens)@).push(t.view()),
{
    proof {
        lemma_trees_view_push(tokens@, t);
    }
    tokens.push(t);
}

/// Appends a punctuation character that stands alone.
fn push_punct(tokens: &mut Vec<TokenTree>, ch: char, spacing: Spacing)
    ensures
        trees_view(final(tokens)@) == trees_view(old(tokens)@).push(SpecTree::Punct(ch, spacing)),
{
    push_tree(tokens, TokenTree::Punct(Punct { ch: ch, spacing: spacing }));
}

impl Path {
    /// Writes this path: a leading `::` where it has one, then the segments
    /// separated by `::`.
    pub fn to_tokens(&self, tokens: &mut Vec<TokenTree>)
        ensures
            trees_view(final(tokens)@) == trees_view(old(tokens)@) + path_tokens(self.view()),
    {
        let ghost start = trees_view(tokens@);
        if self.leading_colon {
            push_punct(tokens, ':', Spacing::Joint);
            push_punct(tokens, ':', Spacing::Alone);
        }
        let ghost prefix = if self.leading_colon {
            sep_tokens()
        } else {
            Seq::<SpecTree>::empty()
        };
        assert(trees_view(tokens@) =~= start + prefix);
        let ghost segs = self.view().segments;
        let n = self.segments.len();
        for i in 0..n
            invariant
                n == self.segments@.len(),
                segs == self.view().segments,
                segs.len() == n,
                trees_view(tokens@) == start + prefix + segments_tokens(segs.take(i as int)),
        {
            let ghost before = trees_view(tokens@);
            if i > 0 {
                push_punct(tokens, ':', Spacing::Joint);
                push_punct(tokens, ':', Spacing::Alone);
            }
            let id = self.segments[i].copy();
            push_tree(tokens, TokenTree::Ident(id));
            proof {
                assert(segs.take(i + 1) =~= segs.take(i as int).push(segs[i as int]));
                assert(segs[i as int] == self.segments@[i as int].sym@);
                if i > 0 {
                    lemma_segments_tokens_push(segs.take(i as int), segs[i as int]);
                } else {
                    assert(segs.take(1) =~= seq![segs[0]]);
                }
                assert(trees_view(tokens@) =~= start + prefix + segments_tokens(segs.take(i + 1)));
            }
        }
        assert(segs.take(n as int) =~= segs);
        assert(start + prefix + segments_tokens(segs) =~= start + path_tokens(self.view()));
    }
}

impl Attribute {
    /// Writes this attribute: `#`, `!` for an inner one, and in square brackets
    /// the path followed by the attribute's tokens.
    pub fn to_tokens(&self, tokens: &mut Vec<TokenTree>)
        ensures
            trees_view(final(tokens)@) == trees_view(old(tokens)@) + attr_tokens(self.view()),
    {
        let ghost start = trees_view(tokens@);
        push_punct(tokens, '#', Spacing::Alone);
        if self.style == AttrStyle::Inner {
            push_punct(tokens, '!', Spacing::Alone);
        }
        let mut inner: Vec<TokenTree> = Vec::new();
        self.path.to_tokens(&mut inner);
        let mut rest = copy_trees(self.tts.as_slice());
        proof {
            lemma_trees_view_add(inner@, rest@);
        }
        inner.append(&mut rest);
        push_tree(tokens, TokenTree::Group(Group { delimiter: Delimiter::Bracket, stream: inner }));
        assert(trees_view(tokens@) =~= start + attr_tokens(self.view()));
    }
}

impl Lit {
    /// The token of this literal: `true` and `false` are written as identifiers.
    pub fn to_token(&self) -> (res: TokenTree)
        ensures
            res.view() == lit_token(self.view()),
    {
        match self {
            Lit::Bool(b) => {
                if *b {
                    let sym = "true".to_owned();
                    proof {
                        reveal_strlit("true");
                        assert(sym@ =~= true_text());
                    }
                    TokenTree::Ident(Ident { sym: sym })
                } else {
                    let sym = "false".to_owned();
                    proof {
                        reveal_strlit("false");
                        assert(sym@ =~= false_text());
                    }
                    TokenTree::Ident(Ident { sym: sym })
                }
            },
            Lit::Literal(l) => TokenTree::Literal(l.copy()),
        }
    }
}

impl MetaNameValue {
    /// Writes `name = literal`.
    pub fn to_tokens(&self, tokens: &mut Vec<TokenTree>)
        ensures
            trees_view(final(tokens)@) == trees_view(old(tokens)@) + meta_tokens(
                SpecMeta::NameValue(self.ident.sym@, self.lit.view()),
            ),
    {
        let ghost start = trees_view(tokens@);
        push_tree(tokens, TokenTree::Ident(self.ident.copy()));
        push_punct(tokens, '=', Spacing::Alone);
        push_tree(tokens, self.lit.to_token());
        assert(trees_view(tokens@) =~= start + meta_tokens(
            SpecMeta::NameValue(self.ident.sym@, self.lit.view()),
        ));
    }
}

impl MetaList {
    /// Writes `name(nested, ...)`.
    pub fn to_tokens(&self, tokens: &mut Vec<TokenTree>)
        ensures
            trees_view(final(tokens)@) == trees_view(old(tokens)@) + meta_tokens(
                SpecMeta::List(self.ident.sym@, nested_seq_view(self.nested@)),
            ),
        decreases *self, 1nat,
    {
        let ghost start = trees_view(tokens@);
        push_tree(tokens, TokenTree::Ident(self.ident.copy()));
        let mut inner: Vec<TokenTree> = Vec::new();
        nested_list_to_tokens(self.nested.as_slice(), &mut inner);
        assert(trees_view(inner@) =~= nested_tokens(nested_seq_view(self.nested@)));
        push_tree(tokens, TokenTree::Group(Group { delimiter: Delimiter::Parenthesis, stream: inner }));
        assert(trees_view(tokens@) =~= start + meta_tokens(
            SpecMeta::List(self.ident.sym@, nested_seq_view(self.nested@)),
        ));
    }
}

impl Meta {
    /// Writes this meta item.
    pub fn to_tokens(&self, tokens: &mut Vec<TokenTree>)
        ensures
            trees_view(final(tokens)@) == trees_view(old(tokens)@) + meta_tokens(self.view()),
        decreases *self, 2nat,
    {
        match self {
            Meta::Word(i) => {
                push_tree(tokens, TokenTree::Ident(i.copy()));
            },
            Meta::List(l) => l.to_tokens(tokens),
            Meta::NameValue(nv) => nv.to_tokens(tokens),
        }
    }
}

impl NestedMeta {
    /// Writes this nested item.
    pub fn to_tokens(&self, tokens: &mut Vec<TokenTree>)
        ensures
            trees_view(final(tokens)@) == trees_view(old(tokens)@) + nested_item_tokens(self.view()),
        decreases *self, 3nat,
    {
        match self {
            NestedMeta::Meta(m) => m.to_tokens(tokens),
            NestedMeta::Literal(l) => {
                push_tree(tokens, l.to_token());
            },
        }
    }
}

/// Writes nested items with a standalone comma between two items.
fn nested_list_to_tokens(items: &[NestedMeta], tokens: &mut Vec<TokenTree>)
    ensures
        trees_view(final(tokens)@) == trees_view(old(tokens)@) + nested_tokens(
            nested_seq_view(items@),
        ),
    decreases items@, 0nat,
{
    let ghost start = trees_view(tokens@);
    let ghost s = nested_seq_view(items@);
    proof {
        lemma_nested_seq_view(items@);
    }
    let n = items.len();
    assert(trees_view(tokens@) =~= start + nested_tokens(s.take(0)));
    for i in 0..n
        invariant
            n == items@.len(),
            s == nested_seq_view(items@),
            s.len() == n,
            forall|j: int| 0 <= j < n ==> #[trigger] s[j] == items@[j].view(),
            trees_view(tokens@) == start + nested_tokens(s.take(i as int)),
    {
        let ghost before = trees_view(tokens@);
        if i > 0 {
            push_punct(tokens, ',', Spacing::Alone);
        }
        let ghost middle = trees_view(tokens@);
        items[i].to_tokens(tokens);
        proof {
            assert(s.take(i + 1) =~= s.take(i as int).push(s[i as int]));
            if i > 0 {
                lemma_nested_tokens_push(s.take(i as int), s[i as int]);
            } else {
                assert(s.take(1) =~= seq![s[0]]);
            }
            assert(trees_view(tokens@) =~= start + nested_tokens(s.take(i + 1)));
        }
    }
    assert(s.take(n as int) =~= s);
}

} // verus!
