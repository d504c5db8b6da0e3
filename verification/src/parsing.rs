//! Reading attributes, `#[...]` and `#![...]`, from the front of a token sequence.
//!
//! A parse stream is a slice of token trees; each reader gives what it read and
//! the number of trees it took from the front.
use vstd::prelude::*;

use crate::attr::{AttrStyle, Attribute, Path, SpecAttribute, SpecPath};
use crate::token::{
    Delimiter, Ident, SpecTree, Spacing, TokenTree, copy_trees, lemma_trees_view,
    lemma_trees_view_skip, trees_view,
};

verus! {

/// Why attribute tokens could not be read.
#[derive(Clone, Copy, Debug, PartialEq, Eq, Hash, Structural)]
pub enum Error {
    /// expected `#`
    ExpectedPound,
    /// expected `!`
    ExpectedBang,
    /// expected square brackets
    ExpectedBrackets,
    /// expected path
    ExpectedPath,
    /// expected path segment
    ExpectedPathSegment,
}

/// Whether a tree is the punctuation character `c`, whatever its spacing.
pub open spec fn is_punct(t: SpecTree, c: char) -> bool {
    t matches SpecTree::Punct(ch, _) && ch == c
}

/// Whether a path separator `::` starts at position `i`: a `:` joined to the next `:`.
pub open spec fn sep_at(tts: Seq<SpecTree>, i: int) -> bool {
    &&& 0 <= i
    &&& i + 1 < tts.len()
    &&& tts[i] == SpecTree::Punct(':', Spacing::Joint)
    &&& is_punct(tts[i + 1], ':')
}

/// Path segments from position `i`: identifiers separated by `::`.
/// `after_sep` tells that a `::` was just read, so a segment must follow.
/// Gives the segments and the position after them.
pub open spec fn spec_path_segments(tts: Seq<SpecTree>, i: int, after_sep: bool) -> Result<
    (Seq<Seq<char>>, int),
    Error,
>
    decreases tts.len() - i,
{
    if 0 <= i < tts.len() && tts[i] is Ident {
        let name = match tts[i] {
            SpecTree::Ident(name) => name,
            _ => Seq::empty(),
        };
        if sep_at(tts, i + 1) {
            prepend_segments(seq![name], spec_path_segments(tts, i + 3, true))
        } else {
            Ok((seq![name], i + 1))
        }
    } else if after_sep {
        Err(Error::ExpectedPathSegment)
    } else {
        Ok((Seq::empty(), i))
    }
}

/// Puts segments before those of a result.
pub open spec fn prepend_segments(
    segs: Seq<Seq<char>>,
    r: Result<(Seq<Seq<char>>, int), Error>,
) -> Result<(Seq<Seq<char>>, int), Error> {
    match r {
        Ok((rest, end)) => Ok((segs + rest, end)),
        Err(e) => Err(e),
    }
}

/// A path in module style at the front of `tts`: an optional leading `::`, then at
/// least one identifier, with `::` between identifiers and none after the last.
pub open spec fn spec_parse_path(tts: Seq<SpecTree>) -> Result<(SpecPath, int), Error> {
    let leading_colon = sep_at(tts, 0);
    let start = if leading_colon {
        2int
    } else {
        0int
    };
    match spec_path_segments(tts, start, false) {
        Ok((segments, end)) => if segments.len() == 0 {
            Err(Error::ExpectedPath)
        } else {
            Ok((SpecPath { leading_colon: leading_colon, segments: segments }, end))
        },
        Err(e) => Err(e),
    }
}

/// One attribute at the front of `tts`: `#`, then `!` for an inner attribute, then
/// a bracketed group that holds a path and the tokens after it.
pub open spec fn spec_single_attr(tts: Seq<SpecTree>, style: AttrStyle) -> Result<
    (SpecAttribute, int),
    Error,
> {
    if !(tts.len() > 0 && is_punct(tts[0], '#')) {
        Err(Error::ExpectedPound)
    } else if style == AttrStyle::Inner && !(tts.len() > 1 && is_punct(tts[1], '!')) {
        Err(Error::ExpectedBang)
    } else {
        let p: int = if style == AttrStyle::Inner {
            2
        } else {
            1
        };
        if p < tts.len() && (tts[p] matches SpecTree::Group(d, _) && d == Delimiter::Bracket) {
            let content = match tts[p] {
                SpecTree::Group(_, content) => content,
                _ => Seq::empty(),
            };
            match spec_parse_path(content) {
                Ok((path, n)) => Ok(
                    (SpecAttribute { style: style, path: path, tts: content.skip(n) }, p + 1),
                ),
                Err(e) => Err(e),
            }
        } else {
            Err(Error::ExpectedBrackets)
        }
    }
}

/// Whether an attribute of the given style starts `tts`: `#` for an outer one,
/// `#` then `!` for an inner one.
pub open spec fn starts_attr(tts: Seq<SpecTree>, style: AttrStyle) -> bool {
    &&& tts.len() > 0
    &&& is_punct(tts[0], '#')
    &&& style == AttrStyle::Inner ==> tts.len() > 1 && is_punct(tts[1], '!')
}

/// Zero or more attributes of the given style at the front of `tts`: they are read
/// while the tokens start such an attribute. Gives them and the number of trees taken.
pub open spec fn spec_parse_attrs(tts: Seq<SpecTree>, style: AttrStyle) -> Result<
    (Seq<SpecAttribute>, int),
    Error,
>
    decreases tts.len(),
{
    if starts_attr(tts, style) {
        match spec_single_attr(tts, style) {
            Ok((a, n)) => if 1 <= n <= tts.len() {
                prepend_attrs(seq![a], n, spec_parse_attrs(tts.skip(n), style))
            } else {
                Err(Error::ExpectedPound)
            },
            Err(e) => Err(e),
        }
    } else {
        Ok((Seq::empty(), 0))
    }
}

/// Puts attributes, read from `n` trees, before those of a result.
pub open spec fn prepend_attrs(
    attrs: Seq<SpecAttribute>,
    n: int,
    r: Result<(Seq<SpecAttribute>, int), Error>,
) -> Result<(Seq<SpecAttribute>, int), Error> {
    match r {
        Ok((rest, m)) => Ok((attrs + rest, n + m)),
        Err(e) => Err(e),
    }
}

/// The values of a sequence of attributes.
pub open spec fn attrs_view(s: Seq<Attribute>) -> Seq<SpecAttribute> {
    s.map_values(|a: Attribute| a.view())
}

/// The value of the result of reading one attribute.
pub open spec fn single_result_view(r: Result<(Attribute, usize), Error>) -> Result<
    (SpecAttribute, int),
    Error,
> {
    match r {
        Ok((a, n)) => Ok((a.view(), n as int)),
        Err(e) => Err(e),
    }
}

/// The value of the result of reading attributes.
pub open spec fn attrs_result_view(r: Result<(Vec<Attribute>, usize), Error>) -> Result<
    (Seq<SpecAttribute>, int),
    Error,
> {
    match r {
        Ok((v, n)) => Ok((attrs_view(v@), n as int)),
        Err(e) => Err(e),
    }
}

/// The value of the result of reading a path.
pub open spec fn path_result_view(r: Result<(Path, usize), Error>) -> Result<(SpecPath, int), Error> {
    match r {
        Ok((p, n)) => Ok((p.view(), n as int)),
        Err(e) => Err(e),
    }
}

/// Tells whether a path separator `::` starts at position `i`.
fn path_sep_at(input: &[TokenTree], i: usize) -> (b: bool)
    ensures
        b == sep_at(trees_view(input@), i as int),
{
    proof {
        lemma_trees_view(input@);
    }
    if i >= input.len() || i + 1 >= input.len() {
        return false;
    }
    let first = match &input[i] {
        TokenTree::Punct(p) => p.ch == ':' && p.spacing == Spacing::Joint,
        _ => false,
    };
    let second = match &input[i + 1] {
        TokenTree::Punct(p) => p.ch == ':',
        _ => false,
    };
    first && second
}

/// Tells whether the tree at position `i` is the punctuation character `c`.
fn punct_at(input: &[TokenTree], i: usize, c: char) -> (b: bool)
    ensures
        b == (i < input@.len() && is_punct(trees_view(input@)[i as int], c)),
{
    proof {
        lemma_trees_view(input@);
    }
    if i >= input.len() {
        return false;
    }
    match &input[i] {
        TokenTree::Punct(p) => p.ch == c,
        _ => false,
    }
}

/// The value of a path's segments.
pub open spec fn segments_view(s: Seq<Ident>) -> Seq<Seq<char>> {
    s.map_values(|i: Ident| i.sym@)
}

impl Path {
    /// Parses a path in module style, such as `std::mem` or `::serde`, from the
    /// front of `input`: identifiers only, with no generic arguments.
    pub fn parse_mod_style(input: &[TokenTree]) -> (res: Result<(Path, usize), Error>)
        ensures
            path_result_view(res) == spec_parse_path(trees_view(input@)),
            res matches Ok((_, n)) ==> n <= input@.len(),
    {
        let ghost tv = trees_view(input@);
        proof {
            lemma_trees_view(input@);
        }
        let leading_colon = path_sep_at(input, 0);
        let mut i: usize = if leading_colon {
            2
        } else {
            0
        };
        let ghost start = i as int;
        let mut segments: Vec<Ident> = Vec::new();
        let mut after_sep = false;
        proof {
            assert(segments_view(segments@) + Seq::<Seq<char>>::empty() =~= Seq::<Seq<char>>::empty());
            match spec_path_segments(tv, start, false) {
                Ok((rest, end)) => {
                    assert(segments_view(segments@) + rest =~= rest);
                },
                Err(_) => {},
            }
        }
        loop
            invariant_except_break
                tv == trees_view(input@),
                tv.len() == input@.len(),
                start == (if leading_colon { 2int } else { 0int }),
                leading_colon == sep_at(tv, 0),
                i <= input@.len(),
                spec_path_segments(tv, start, false) == prepend_segments(
                    segments_view(segments@),
                    spec_path_segments(tv, i as int, after_sep),
                ),
            ensures
                tv == trees_view(input@),
                start == (if leading_colon { 2int } else { 0int }),
                leading_colon == sep_at(tv, 0),
                i <= input@.len(),
                spec_path_segments(tv, start, false) == Ok::<_, Error>((segments_view(segments@), i as int)),
            decreases input@.len() - i,
        {
            let ghost old_segments = segments@;
            proof {
                lemma_trees_view(input@);
            }
            if i < input.len() {
                if let TokenTree::Ident(id) = &input[i] {
                    assert(tv[i as int] == SpecTree::Ident(id.sym@));
                    segments.push(id.copy());
                    assert(segments_view(segments@) =~= segments_view(old_segments) + seq![id.sym@]);
                    if path_sep_at(input, i + 1) {
                        proof {
                            match spec_path_segments(tv, i + 3, true) {
                                Ok((rest, end)) => {
                                    assert(segments_view(old_segments) + (seq![id.sym@] + rest)
                                        =~= segments_view(segments@) + rest);
                                },
                                Err(_) => {},
                            }
                        }
                        i = i + 3;
                        after_sep = true;
                        continue;
                    } else {
                        i = i + 1;
                        break;
                    }
                }
            }
            if after_sep {
                return Err(Error::ExpectedPathSegment);
            }
            assert(segments_view(segments@) + Seq::<Seq<char>>::empty() =~= segments_view(segments@));
            break;
        }
        if segments.len() == 0 {
            return Err(Error::ExpectedPath);
        }
        Ok((Path { leading_colon: leading_colon, segments: segments }, i))
    }
}

/// Reads one attribute of the given style from the front of `input`.
fn single_parse(input: &[TokenTree], style: AttrStyle) -> (res: Result<(Attribute, usize), Error>)
    ensures
        single_result_view(res) == spec_single_attr(trees_view(input@), style),
        res matches Ok((_, n)) ==> 1 <= n <= input@.len(),
{
    proof {
        lemma_trees_view(input@);
    }
    if !punct_at(input, 0, '#') {
        return Err(Error::ExpectedPound);
    }
    let mut p: usize = 1;
    if style == AttrStyle::Inner {
        if !punct_at(input, 1, '!') {
            return Err(Error::ExpectedBang);
        }
        p = 2;
    }
    if p >= input.len() {
        return Err(Error::ExpectedBrackets);
    }
    let content = match &input[p] {
        TokenTree::Group(g) => {
            if g.delimiter != Delimiter::Bracket {
                return Err(Error::ExpectedBrackets);
            }
            g.stream.as_slice()
        },
        _ => return Err(Error::ExpectedBrackets),
    };
    let (path, n) = match Path::parse_mod_style(content) {
        Ok(pair) => pair,
        Err(e) => return Err(e),
    };
    let tts = copy_trees(&content[n..content.len()]);
    proof {
        lemma_trees_view_skip(content@, n as int);
    }
    Ok((Attribute { style: style, path: path, tts: tts }, p + 1))
}

/// Reads one inner attribute, `#![...]`, from the front of `input`.
pub fn single_parse_inner(input: &[TokenTree]) -> (res: Result<(Attribute, usize), Error>)
    ensures
        single_result_view(res) == spec_single_attr(trees_view(input@), AttrStyle::Inner),
{
    single_parse(input, AttrStyle::Inner)
}

/// Reads one outer attribute, `#[...]`, from the front of `input`.
pub fn single_parse_outer(input: &[TokenTree]) -> (res: Result<(Attribute, usize), Error>)
    ensures
        single_result_view(res) == spec_single_attr(trees_view(input@), AttrStyle::Outer),
{
    single_parse(input, AttrStyle::Outer)
}

/// Tells whether an attribute of the given style starts at position `pos`.
fn starts_attr_at(input: &[TokenTree], pos: usize, style: AttrStyle) -> (b: bool)
    requires
        pos <= input@.len(),
    ensures
        b == starts_attr(trees_view(input@).skip(pos as int), style),
{
    proof {
        lemma_trees_view(input@);
    }
    if !punct_at(input, pos, '#') {
        return false;
    }
    if style == AttrStyle::Inner {
        if pos >= input.len() - 1 {
            return false;
        }
        return punct_at(input, pos + 1, '!');
    }
    true
}

/// Reads attributes of the given style from the front of `input` while they start it.
fn parse_attrs(input: &[TokenTree], style: AttrStyle) -> (res: Result<(Vec<Attribute>, usize), Error>)
    ensures
        attrs_result_view(res) == spec_parse_attrs(trees_view(input@), style),
{
    let ghost tv = trees_view(input@);
    let mut attrs: Vec<Attribute> = Vec::new();
    let mut pos: usize = 0;
    proof {
        lemma_trees_view(input@);
        assert(tv.skip(0) =~= tv);
        match spec_parse_attrs(tv, style) {
            Ok((rest, m)) => {
                assert(attrs_view(attrs@) + rest =~= rest);
            },
            Err(_) => {},
        }
    }
    while starts_attr_at(input, pos, style)
        invariant
            tv == trees_view(input@),
            tv.len() == input@.len(),
            pos <= input@.len(),
            spec_parse_attrs(tv, style) == prepend_attrs(
                attrs_view(attrs@),
                pos as int,
                spec_parse_attrs(tv.skip(pos as int), style),
            ),
        decreases input@.len() - pos,
    {
        let rest = &input[pos..input.len()];
        proof {
            lemma_trees_view_skip(input@, pos as int);
        }
        let (a, n) = match single_parse(rest, style) {
            Ok(pair) => pair,
            Err(e) => return Err(e),
        };
        proof {
            assert(rest@.len() == input@.len() - pos);
            assert(n <= input@.len() - pos);
            assert(tv.skip(pos as int).skip(n as int) =~= tv.skip(pos + n));
            assert(attrs_view(attrs@.push(a)) =~= attrs_view(attrs@).push(a.view()));
            match spec_parse_attrs(tv.skip(pos + n), style) {
                Ok((more, m)) => {
                    assert(attrs_view(attrs@) + (seq![a.view()] + more) =~= attrs_view(attrs@).push(
                        a.view(),
                    ) + more);
                },
                Err(_) => {},
            }
        }
        attrs.push(a);
        pos = pos + n;
    }
    proof {
        assert(attrs_view(attrs@) + Seq::<SpecAttribute>::empty() =~= attrs_view(attrs@));
    }
    Ok((attrs, pos))
}

impl Attribute {
    /// Parses zero or more outer attributes from the front of `input`; gives them
    /// and the number of trees they took.
    pub fn parse_outer(input: &[TokenTree]) -> (res: Result<(Vec<Attribute>, usize), Error>)
        ensures
            attrs_result_view(res) == spec_parse_attrs(trees_view(input@), AttrStyle::Outer),
    {
        parse_attrs(input, AttrStyle::Outer)
    }

    /// Parses zero or more inner attributes from the front of `input`; gives them
    /// and the number of trees they took.
    pub fn parse_inner(input: &[TokenTree]) -> (res: Result<(Vec<Attribute>, usize), Error>)
        ensures
            attrs_result_view(res) == spec_parse_attrs(trees_view(input@), AttrStyle::Inner),
    {
        parse_attrs(input, AttrStyle::Inner)
    }
}

} // verus!
