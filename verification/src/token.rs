//! A plain model of token trees: the tokens that attributes are read from and written to.
use vstd::prelude::*;

verus! {

/// How a group of tokens is delimited.
#[derive(Clone, Copy, Debug, PartialEq, Eq, Hash, Structural)]
pub enum Delimiter {
    Parenthesis,
    Brace,
    Bracket,
    Invisible,
}

/// Whether a punctuation character is immediately followed by another one.
#[derive(Clone, Copy, Debug, PartialEq, Eq, Hash, Structural)]
pub enum Spacing {
    Alone,
    Joint,
}

/// A single punctuation character.
#[derive(Clone, Copy, Debug, PartialEq, Eq, Hash, Structural)]
pub struct Punct {
    pub ch: char,
    pub spacing: Spacing,
}

/// An identifier, held by its text.
#[derive(Clone, Debug, PartialEq, Eq, Hash)]
pub struct Ident {
    pub sym: String,
}

/// A literal token, held by its source text (such as `"x"`, `1u8` or `'c'`).
#[derive(Clone, Debug, PartialEq, Eq, Hash)]
pub struct Literal {
    pub repr: String,
}

/// A delimited group of token trees.
#[derive(Debug, PartialEq, Eq, Hash)]
pub struct Group {
    pub delimiter: Delimiter,
    pub stream: Vec<TokenTree>,
}

/// A token tree.
#[derive(Debug, PartialEq, Eq, Hash)]
pub enum TokenTree {
    Group(Group),
    Ident(Ident),
    Punct(Punct),
    Literal(Literal),
}

/// The mathematical value of a token tree.
pub enum SpecTree {
    Group(Delimiter, Seq<SpecTree>),
    Ident(Seq<char>),
    Punct(char, Spacing),
    Literal(Seq<char>),
}

impl TokenTree {
    pub open spec fn view(self) -> SpecTree
        decreases self,
    {
        match self {
            TokenTree::Group(g) => SpecTree::Group(g.delimiter, trees_view(g.stream@)),
            TokenTree::Ident(i) => SpecTree::Ident(i.sym@),
            TokenTree::Punct(p) => SpecTree::Punct(p.ch, p.spacing),
            TokenTree::Literal(l) => SpecTree::Literal(l.repr@),
        }
    }
}

/// The values of a sequence of token trees.
pub open spec fn trees_view(s: Seq<TokenTree>) -> Seq<SpecTree>
    decreases s,
{
    if s.len() == 0 {
        Seq::empty()
    } else {
        trees_view(s.drop_last()).push(s.last().view())
    }
}

/// The values of a sequence of token trees are taken one by one.
pub proof fn lemma_trees_view(s: Seq<TokenTree>)
    ensures
        trees_view(s).len() == s.len(),
        forall|i: int| 0 <= i < s.len() ==> #[trigger] trees_view(s)[i] == s[i].view(),
    decreases s.len(),
{
    if s.len() > 0 {
        lemma_trees_view(s.drop_last());
    }
}

/// Taking the values commutes with dropping a prefix.
pub proof fn lemma_trees_view_skip(s: Seq<TokenTree>, k: int)
    requires
        0 <= k <= s.len(),
    ensures
        trees_view(s.skip(k)) == trees_view(s).skip(k),
{
    lemma_trees_view(s);
    lemma_trees_view(s.skip(k));
    assert(trees_view(s.skip(k)) =~= trees_view(s).skip(k));
}

/// Whether a text begins with a slash, as the text of a doc comment does.
pub open spec fn starts_with_slash(text: Seq<char>) -> bool {
    text.len() > 0 && text[0] == '/'
}

/// The text `true`.
pub open spec fn true_text() -> Seq<char> {
    seq!['t', 'r', 'u', 'e']
}

/// The text `false`.
pub open spec fn false_text() -> Seq<char> {
    seq!['f', 'a', 'l', 's', 'e']
}

/// Tells whether `s` begins with a slash.
pub fn text_starts_with_slash(s: &String) -> (b: bool)
    ensures
        b == starts_with_slash(s@),
{
    let t = s.as_str();
    t.unicode_len() > 0 && t.get_char(0) == '/'
}

/// Tells whether `s` is the text `true`.
pub fn text_is_true(s: &String) -> (b: bool)
    ensures
        b == (s@ == true_text()),
{
    let t = s.as_str();
    if t.unicode_len() != 4 {
        return false;
    }
    let b = t.get_char(0) == 't' && t.get_char(1) == 'r' && t.get_char(2) == 'u' && t.get_char(3) == 'e';
    proof {
        if b {
            assert(t@ =~= true_text());
        }
    }
    b
}

/// Tells whether `s` is the text `false`.
pub fn text_is_false(s: &String) -> (b: bool)
    ensures
        b == (s@ == false_text()),
{
    let t = s.as_str();
    if t.unicode_len() != 5 {
        return false;
    }
    let b = t.get_char(0) == 'f' && t.get_char(1) == 'a' && t.get_char(2) == 'l' && t.get_char(3) == 's'
        && t.get_char(4) == 'e';
    proof {
        if b {
            assert(t@ =~= false_text());
        }
    }
    b
}

impl Ident {
    /// A copy of this identifier.
    pub fn copy(&self) -> (res: Ident)
        ensures
            res == *self,
    {
        Ident { sym: self.sym.clone() }
    }
}

impl Literal {
    /// A copy of this literal.
    pub fn copy(&self) -> (res: Literal)
        ensures
            res == *self,
    {
        Literal { repr: self.repr.clone() }
    }
}


/// Taking the values commutes with appending one tree.
pub proof fn lemma_trees_view_push(s: Seq<TokenTree>, t: TokenTree)
    ensures
        trees_view(s.push(t)) == trees_view(s).push(t.view()),
{
    assert(s.push(t).drop_last() =~= s);
}

/// Taking the values commutes with concatenation.
pub proof fn lemma_trees_view_add(a: Seq<TokenTree>, b: Seq<TokenTree>)
    ensures
        trees_view(a + b) == trees_view(a) + trees_view(b),
{
    lemma_trees_view(a);
    lemma_trees_view(b);
    lemma_trees_view(a + b);
    assert(trees_view(a + b) =~= trees_view(a) + trees_view(b));
}

impl TokenTree {
    /// A copy of this tree, with the same value.
    pub fn copy(&self) -> (res: TokenTree)
        ensures
            res.view() == self.view(),
        decreases *self, 0nat,
    {
        match self {
            TokenTree::Group(g) => {
                let stream = copy_trees(g.stream.as_slice());
                TokenTree::Group(Group { delimiter: g.delimiter, stream: stream })
            },
            TokenTree::Ident(i) => TokenTree::Ident(i.copy()),
            TokenTree::Punct(p) => TokenTree::Punct(*p),
            TokenTree::Literal(l) => TokenTree::Literal(l.copy()),
        }
    }
}

/// A copy of a sequence of trees, with the same values.
pub fn copy_trees(ts: &[TokenTree]) -> (res: Vec<TokenTree>)
    ensures
        trees_view(res@) == trees_view(ts@),
    decreases ts@, 1nat,
{
    let mut res: Vec<TokenTree> = Vec::new();
    let n = ts.len();
    for i in 0..n
        invariant
            n == ts@.len(),
            trees_view(res@) == trees_view(ts@.take(i as int)),
    {
        let t = ts[i].copy();
        proof {
            lemma_trees_view_push(res@, t);
            assert(ts@.take(i + 1).drop_last() =~= ts@.take(i as int));
        }
        res.push(t);
    }
    assert(ts@.take(n as int) =~= ts@);
    res
}

} // verus!
