use syn_attr::attr::{AttrStyle, Attribute, FilterAttrs, Path, private};
use syn_attr::meta::{Lit, Meta, MetaList, MetaNameValue, NestedMeta};
use syn_attr::parsing::{single_parse_inner, single_parse_outer, Error};
use syn_attr::token::{Delimiter, Group, Ident, Literal, Punct, Spacing, TokenTree};

fn ident(s: &str) -> Ident {
    Ident { sym: s.to_string() }
}

fn id(s: &str) -> TokenTree {
    TokenTree::Ident(ident(s))
}

fn lit(s: &str) -> TokenTree {
    TokenTree::Literal(Literal { repr: s.to_string() })
}

fn punct(ch: char) -> TokenTree {
    TokenTree::Punct(Punct { ch, spacing: Spacing::Alone })
}

fn joint(ch: char) -> TokenTree {
    TokenTree::Punct(Punct { ch, spacing: Spacing::Joint })
}

fn group(delimiter: Delimiter, stream: Vec<TokenTree>) -> TokenTree {
    TokenTree::Group(Group { delimiter, stream })
}

fn path(segments: &[&str]) -> Path {
    Path { leading_colon: false, segments: segments.iter().map(|s| ident(s)).collect() }
}

fn attr(style: AttrStyle, name: &str, tts: Vec<TokenTree>) -> Attribute {
    Attribute { style, path: path(&[name]), tts }
}

fn word(s: &str) -> Meta {
    Meta::Word(ident(s))
}

fn lit_str(s: &str) -> Lit {
    Lit::Literal(Literal { repr: s.to_string() })
}

// ---- interpret_meta ----

#[test]
fn interpret_word() {
    let a = attr(AttrStyle::Outer, "test", vec![]);
    assert_eq!(a.interpret_meta(), Some(word("test")));
}

#[test]
fn interpret_list_of_words() {
    // derive(Copy, Clone)
    let a = attr(
        AttrStyle::Outer,
        "derive",
        vec![group(Delimiter::Parenthesis, vec![id("Copy"), punct(','), id("Clone")])],
    );
    let expected = Meta::List(MetaList {
        ident: ident("derive"),
        nested: vec![NestedMeta::Meta(word("Copy")), NestedMeta::Meta(word("Clone"))],
    });
    assert_eq!(a.interpret_meta(), Some(expected));
}

#[test]
fn interpret_name_value_string() {
    // path = "sys/windows.rs"
    let a = attr(AttrStyle::Outer, "path", vec![punct('='), lit("\"sys/windows.rs\"")]);
    let expected = Meta::NameValue(MetaNameValue { ident: ident("path"), lit: lit_str("\"sys/windows.rs\"") });
    assert_eq!(a.interpret_meta(), Some(expected));
}

#[test]
fn interpret_name_value_bools() {
    let t = attr(AttrStyle::Outer, "flag", vec![punct('='), id("true")]);
    let f = attr(AttrStyle::Outer, "flag", vec![punct('='), id("false")]);
    let other = attr(AttrStyle::Outer, "flag", vec![punct('='), id("maybe")]);
    assert_eq!(
        t.interpret_meta(),
        Some(Meta::NameValue(MetaNameValue { ident: ident("flag"), lit: Lit::Bool(true) }))
    );
    assert_eq!(
        f.interpret_meta(),
        Some(Meta::NameValue(MetaNameValue { ident: ident("flag"), lit: Lit::Bool(false) }))
    );
    assert_eq!(other.interpret_meta(), None);
}

#[test]
fn interpret_nested_mixture() {
    // serde(rename = "x", default, skip(a), "lit", 7)
    let a = attr(
        AttrStyle::Outer,
        "serde",
        vec![group(
            Delimiter::Parenthesis,
            vec![
                id("rename"),
                punct('='),
                lit("\"x\""),
                punct(','),
                id("default"),
                punct(','),
                id("skip"),
                group(Delimiter::Parenthesis, vec![id("a")]),
                punct(','),
                lit("\"lit\""),
                punct(','),
                lit("7"),
            ],
        )],
    );
    let expected = Meta::List(MetaList {
        ident: ident("serde"),
        nested: vec![
            NestedMeta::Meta(Meta::NameValue(MetaNameValue { ident: ident("rename"), lit: lit_str("\"x\"") })),
            NestedMeta::Meta(word("default")),
            NestedMeta::Meta(Meta::List(MetaList {
                ident: ident("skip"),
                nested: vec![NestedMeta::Meta(word("a"))],
            })),
            NestedMeta::Literal(lit_str("\"lit\"")),
            NestedMeta::Literal(lit_str("7")),
        ],
    });
    assert_eq!(a.interpret_meta(), Some(expected));
}

#[test]
fn interpret_nested_true_is_a_word() {
    let a = attr(AttrStyle::Outer, "x", vec![group(Delimiter::Parenthesis, vec![id("true")])]);
    let expected = Meta::List(MetaList { ident: ident("x"), nested: vec![NestedMeta::Meta(word("true"))] });
    assert_eq!(a.interpret_meta(), Some(expected));
}

#[test]
fn interpret_empty_list_and_trailing_comma() {
    let empty = attr(AttrStyle::Outer, "x", vec![group(Delimiter::Parenthesis, vec![])]);
    assert_eq!(
        empty.interpret_meta(),
        Some(Meta::List(MetaList { ident: ident("x"), nested: vec![] }))
    );
    let trailing = attr(AttrStyle::Outer, "x", vec![group(Delimiter::Parenthesis, vec![id("a"), punct(',')])]);
    assert_eq!(
        trailing.interpret_meta(),
        Some(Meta::List(MetaList { ident: ident("x"), nested: vec![NestedMeta::Meta(word("a"))] }))
    );
}

#[test]
fn interpret_rejects() {
    // a path of two segments
    let two = Attribute { style: AttrStyle::Outer, path: path(&["a", "b"]), tts: vec![] };
    assert_eq!(two.interpret_meta(), None);
    // a doc comment literal
    let doc = attr(AttrStyle::Outer, "doc", vec![punct('='), lit("/// text")]);
    assert_eq!(doc.interpret_meta(), None);
    // brackets instead of parentheses
    let brackets = attr(AttrStyle::Outer, "x", vec![group(Delimiter::Bracket, vec![id("a")])]);
    assert_eq!(brackets.interpret_meta(), None);
    // a leading comma
    let leading = attr(AttrStyle::Outer, "x", vec![group(Delimiter::Parenthesis, vec![punct(','), id("a")])]);
    assert_eq!(leading.interpret_meta(), None);
    // a joint comma
    let joined = attr(AttrStyle::Outer, "x", vec![group(Delimiter::Parenthesis, vec![id("a"), joint(','), id("b")])]);
    assert_eq!(joined.interpret_meta(), None);
    // items without a comma between them
    let adjacent = attr(AttrStyle::Outer, "x", vec![group(Delimiter::Parenthesis, vec![id("a"), id("b")])]);
    assert_eq!(adjacent.interpret_meta(), None);
    // a joint `=`
    let joint_eq = attr(AttrStyle::Outer, "x", vec![joint('='), lit("1")]);
    assert_eq!(joint_eq.interpret_meta(), None);
    // three tokens
    let three = attr(AttrStyle::Outer, "x", vec![punct('='), lit("1"), lit("2")]);
    assert_eq!(three.interpret_meta(), None);
    // a nested doc literal
    let nested_doc = attr(AttrStyle::Outer, "x", vec![group(Delimiter::Parenthesis, vec![lit("//c")])]);
    assert_eq!(nested_doc.interpret_meta(), None);
    // a nested punctuation item
    let nested_punct = attr(AttrStyle::Outer, "x", vec![group(Delimiter::Parenthesis, vec![punct(','), punct(',')])]);
    assert_eq!(nested_punct.interpret_meta(), None);
}

#[test]
fn interpret_ignores_leading_colon() {
    let a = Attribute { style: AttrStyle::Inner, path: Path { leading_colon: true, segments: vec![ident("w")] }, tts: vec![] };
    assert_eq!(a.interpret_meta(), Some(word("w")));
}

// ---- Meta::name ----

#[test]
fn meta_name() {
    assert_eq!(word("test").name(), ident("test"));
    let list = Meta::List(MetaList { ident: ident("derive"), nested: vec![] });
    assert_eq!(list.name(), ident("derive"));
    let nv = Meta::NameValue(MetaNameValue { ident: ident("path"), lit: Lit::Bool(true) });
    assert_eq!(nv.name(), ident("path"));
}

// ---- parsing ----

#[test]
fn parse_outer_attributes() {
    // #[repr(C)] #[doc = "x"] struct
    let input = vec![
        punct('#'),
        group(Delimiter::Bracket, vec![id("repr"), group(Delimiter::Parenthesis, vec![id("C")])]),
        punct('#'),
        group(Delimiter::Bracket, vec![id("doc"), punct('='), lit("\"x\"")]),
        id("struct"),
    ];
    let (attrs, n) = Attribute::parse_outer(&input).unwrap();
    assert_eq!(n, 4);
    assert_eq!(
        attrs,
        vec![
            attr(AttrStyle::Outer, "repr", vec![group(Delimiter::Parenthesis, vec![id("C")])]),
            attr(AttrStyle::Outer, "doc", vec![punct('='), lit("\"x\"")]),
        ]
    );
}

#[test]
fn parse_outer_none() {
    let input = vec![id("fn"), id("f")];
    assert_eq!(Attribute::parse_outer(&input), Ok((vec![], 0)));
    assert_eq!(Attribute::parse_outer(&[]), Ok((vec![], 0)));
}

#[test]
fn parse_inner_attributes() {
    // #![allow(x)] #![no_std] #[outer]
    let input = vec![
        punct('#'),
        punct('!'),
        group(Delimiter::Bracket, vec![id("allow"), group(Delimiter::Parenthesis, vec![id("x")])]),
        punct('#'),
        punct('!'),
        group(Delimiter::Bracket, vec![id("no_std")]),
        punct('#'),
        group(Delimiter::Bracket, vec![id("outer")]),
    ];
    let (attrs, n) = Attribute::parse_inner(&input).unwrap();
    assert_eq!(n, 6);
    assert_eq!(
        attrs,
        vec![
            attr(AttrStyle::Inner, "allow", vec![group(Delimiter::Parenthesis, vec![id("x")])]),
            attr(AttrStyle::Inner, "no_std", vec![]),
        ]
    );
}

#[test]
fn parse_path_with_segments() {
    // #[::a::b::c = 1]
    let input = vec![
        punct('#'),
        group(
            Delimiter::Bracket,
            vec![joint(':'), punct(':'), id("a"), joint(':'), punct(':'), id("b"), joint(':'), punct(':'), id("c"), punct('='), lit("1")],
        ),
    ];
    let (a, n) = single_parse_outer(&input).unwrap();
    assert_eq!(n, 2);
    assert_eq!(
        a,
        Attribute {
            style: AttrStyle::Outer,
            path: Path { leading_colon: true, segments: vec![ident("a"), ident("b"), ident("c")] },
            tts: vec![punct('='), lit("1")],
        }
    );
    assert_eq!(a.interpret_meta(), None);
}

#[test]
fn parse_mod_style_path_alone() {
    let input = vec![id("a"), joint(':'), punct(':'), id("b"), punct(':')];
    let (p, n) = Path::parse_mod_style(&input).unwrap();
    assert_eq!(n, 4);
    assert_eq!(p, path(&["a", "b"]));
}

#[test]
fn parse_errors() {
    assert_eq!(single_parse_outer(&[id("x")]), Err(Error::ExpectedPound));
    assert_eq!(single_parse_outer(&[]), Err(Error::ExpectedPound));
    assert_eq!(single_parse_inner(&[punct('#'), group(Delimiter::Bracket, vec![id("x")])]), Err(Error::ExpectedBang));
    assert_eq!(single_parse_outer(&[punct('#')]), Err(Error::ExpectedBrackets));
    assert_eq!(
        single_parse_outer(&[punct('#'), group(Delimiter::Parenthesis, vec![id("x")])]),
        Err(Error::ExpectedBrackets)
    );
    assert_eq!(single_parse_outer(&[punct('#'), group(Delimiter::Bracket, vec![])]), Err(Error::ExpectedPath));
    assert_eq!(
        single_parse_outer(&[punct('#'), group(Delimiter::Bracket, vec![lit("1")])]),
        Err(Error::ExpectedPath)
    );
    assert_eq!(
        single_parse_outer(&[punct('#'), group(Delimiter::Bracket, vec![id("a"), joint(':'), punct(':')])]),
        Err(Error::ExpectedPathSegment)
    );
    // an error in a later attribute fails the whole sequence
    let input = vec![punct('#'), group(Delimiter::Bracket, vec![id("ok")]), punct('#'), id("bad")];
    assert_eq!(Attribute::parse_outer(&input), Err(Error::ExpectedBrackets));
}

// ---- printing ----

#[test]
fn print_attributes() {
    let a = Attribute {
        style: AttrStyle::Inner,
        path: Path { leading_colon: true, segments: vec![ident("a"), ident("b")] },
        tts: vec![punct('='), lit("1")],
    };
    let mut tokens = vec![id("before")];
    a.to_tokens(&mut tokens);
    assert_eq!(
        tokens,
        vec![
            id("before"),
            punct('#'),
            punct('!'),
            group(
                Delimiter::Bracket,
                vec![joint(':'), punct(':'), id("a"), joint(':'), punct(':'), id("b"), punct('='), lit("1")]
            ),
        ]
    );
}

#[test]
fn print_meta_items() {
    let nv = MetaNameValue { ident: ident("flag"), lit: Lit::Bool(false) };
    let mut tokens = vec![];
    nv.to_tokens(&mut tokens);
    assert_eq!(tokens, vec![id("flag"), punct('='), id("false")]);

    let list = MetaList {
        ident: ident("derive"),
        nested: vec![NestedMeta::Meta(word("Copy")), NestedMeta::Literal(lit_str("1"))],
    };
    let mut tokens = vec![];
    list.to_tokens(&mut tokens);
    assert_eq!(
        tokens,
        vec![id("derive"), group(Delimiter::Parenthesis, vec![id("Copy"), punct(','), lit("1")])]
    );
    assert_eq!(Lit::Bool(true).to_token(), id("true"));
}

#[test]
fn written_meta_reads_back() {
    let m = Meta::List(MetaList {
        ident: ident("serde"),
        nested: vec![
            NestedMeta::Meta(Meta::NameValue(MetaNameValue { ident: ident("default"), lit: Lit::Bool(true) })),
            NestedMeta::Meta(Meta::List(MetaList { ident: ident("inner"), nested: vec![NestedMeta::Literal(lit_str("2"))] })),
            NestedMeta::Meta(word("flat")),
        ],
    });
    let mut tokens = vec![];
    m.to_tokens(&mut tokens);
    let tts = tokens.split_off(1);
    let a = attr(AttrStyle::Outer, "serde", tts);
    assert_eq!(a.interpret_meta(), Some(m));
}

#[test]
fn written_attributes_read_back() {
    let attrs = vec![
        attr(AttrStyle::Outer, "derive", vec![group(Delimiter::Parenthesis, vec![id("Debug")])]),
        Attribute { style: AttrStyle::Outer, path: path(&["a", "b"]), tts: vec![punct('='), lit("3")] },
        attr(AttrStyle::Outer, "test", vec![]),
    ];
    let mut tokens = vec![];
    for a in &attrs {
        a.to_tokens(&mut tokens);
    }
    let n = tokens.len();
    tokens.push(id("fn"));
    assert_eq!(Attribute::parse_outer(&tokens), Ok((attrs, n)));
}

// ---- filtering ----

#[test]
fn filter_outer_and_inner() {
    let o1 = attr(AttrStyle::Outer, "a", vec![]);
    let i1 = attr(AttrStyle::Inner, "b", vec![]);
    let o2 = attr(AttrStyle::Outer, "c", vec![]);
    let all = vec![o1, i1, o2];
    let outer: Vec<&Attribute> = (&all).outer();
    let inner: Vec<&Attribute> = all.as_slice().inner();
    assert_eq!(outer.iter().map(|a| a.path.segments[0].sym.clone()).collect::<Vec<_>>(), vec!["a", "c"]);
    assert_eq!(inner.iter().map(|a| a.path.segments[0].sym.clone()).collect::<Vec<_>>(), vec!["b"]);
}

#[test]
fn joined_attrs_split_back() {
    let outer = vec![attr(AttrStyle::Outer, "a", vec![]), attr(AttrStyle::Outer, "b", vec![])];
    let inner = vec![attr(AttrStyle::Inner, "c", vec![])];
    let joined = private::attrs(outer, inner);
    assert_eq!(joined.len(), 3);
    assert_eq!(joined[0].path.segments[0].sym, "a");
    assert_eq!(joined[2].path.segments[0].sym, "c");
    assert_eq!((&joined).outer().len(), 2);
    assert_eq!((&joined).inner().len(), 1);
    assert_eq!((&joined).inner()[0].path.segments[0].sym, "c");
}

// ---- copies ----

#[test]
fn copies_keep_values() {
    let t = group(Delimiter::Brace, vec![id("a"), group(Delimiter::Invisible, vec![lit("1")])]);
    assert_eq!(t.copy(), t);
    assert_eq!(lit_str("x").copy(), lit_str("x"));
}

#[test]
fn written_inner_attributes_read_back() {
    let attrs = vec![
        attr(AttrStyle::Inner, "allow", vec![group(Delimiter::Parenthesis, vec![id("dead_code")])]),
        attr(AttrStyle::Inner, "no_std", vec![]),
    ];
    let mut tokens = vec![];
    for a in &attrs {
        a.to_tokens(&mut tokens);
    }
    let n = tokens.len();
    tokens.push(punct('#'));
    tokens.push(group(Delimiter::Bracket, vec![id("outer")]));
    assert_eq!(Attribute::parse_inner(&tokens), Ok((attrs, n)));
}

#[test]
fn outer_tokens_interpret_as_meta() {
    // #[cfg(feature = "x")] fn
    let m = Meta::List(MetaList {
        ident: ident("cfg"),
        nested: vec![NestedMeta::Meta(Meta::NameValue(MetaNameValue { ident: ident("feature"), lit: lit_str("\"x\"") }))],
    });
    let mut inside = vec![];
    m.to_tokens(&mut inside);
    let tokens = vec![punct('#'), group(Delimiter::Bracket, inside), id("fn")];
    let (attrs, n) = Attribute::parse_outer(&tokens).unwrap();
    assert_eq!(n, 2);
    assert_eq!(attrs.len(), 1);
    assert_eq!(attrs[0].interpret_meta(), Some(m));
}

#[test]
fn interpreted_meta_named_by_path() {
    let a = attr(AttrStyle::Outer, "inline", vec![group(Delimiter::Parenthesis, vec![id("always")])]);
    let m = a.interpret_meta().unwrap();
    assert_eq!(m.name(), a.path.segments[0]);
}

#[test]
fn nested_bool_literal_reads_back_as_word() {
    // Written `x(true)` from a literal item is read back as a word item.
    let m = Meta::List(MetaList { ident: ident("x"), nested: vec![NestedMeta::Literal(Lit::Bool(true))] });
    let mut tokens = vec![];
    m.to_tokens(&mut tokens);
    let tts = tokens.split_off(1);
    let a = attr(AttrStyle::Outer, "x", tts);
    let expected = Meta::List(MetaList { ident: ident("x"), nested: vec![NestedMeta::Meta(word("true"))] });
    assert_eq!(a.interpret_meta(), Some(expected));
}

#[test]
fn read_meta_list_writes_back() {
    // derive(Copy, Clone) with a trailing comma: written back without it
    let inner = vec![id("Copy"), punct(','), id("Clone"), punct(',')];
    let a = attr(AttrStyle::Outer, "derive", vec![group(Delimiter::Parenthesis, inner)]);
    let m = a.interpret_meta().unwrap();
    let mut tokens = vec![];
    m.to_tokens(&mut tokens);
    assert_eq!(
        tokens,
        vec![id("derive"), group(Delimiter::Parenthesis, vec![id("Copy"), punct(','), id("Clone")])]
    );
    // without a trailing comma, exactly the tokens that were read
    let b = attr(
        AttrStyle::Outer,
        "x",
        vec![group(Delimiter::Parenthesis, vec![id("a"), group(Delimiter::Parenthesis, vec![lit("1")]), punct(','), lit("\"s\"")])],
    );
    if let Some(Meta::List(l)) = b.interpret_meta() {
        let mut tokens = vec![];
        l.to_tokens(&mut tokens);
        let mut expected = vec![id("x")];
        expected.extend(b.tts.iter().map(|t| t.copy()));
        assert_eq!(tokens, expected);
    } else {
        panic!("expected a list");
    }
}

#[test]
fn read_name_value_writes_back() {
    let a = attr(AttrStyle::Outer, "path", vec![punct('='), lit("\"sys/windows.rs\"")]);
    if let Some(Meta::NameValue(nv)) = a.interpret_meta() {
        let mut tokens = vec![];
        nv.to_tokens(&mut tokens);
        assert_eq!(tokens, vec![id("path"), punct('='), lit("\"sys/windows.rs\"")]);
    } else {
        panic!("expected a name-value pair");
    }
    let b = attr(AttrStyle::Outer, "a", vec![punct('='), id("true")]);
    if let Some(Meta::NameValue(nv)) = b.interpret_meta() {
        let mut tokens = vec![];
        nv.to_tokens(&mut tokens);
        assert_eq!(tokens, vec![id("a"), punct('='), id("true")]);
    } else {
        panic!("expected a name-value pair");
    }
}

#[test]
fn read_attribute_writes_back() {
    // #[crate::precondition x < 5]
    let source = vec![
        punct('#'),
        group(
            Delimiter::Bracket,
            vec![id("crate"), joint(':'), punct(':'), id("precondition"), id("x"), punct('<'), lit("5")],
        ),
    ];
    let (a, n) = single_parse_outer(&source).unwrap();
    assert_eq!(n, 2);
    let mut tokens = vec![];
    a.to_tokens(&mut tokens);
    assert_eq!(tokens, source);
}

#[test]
fn outer_and_inner_partition() {
    let all = vec![
        attr(AttrStyle::Inner, "a", vec![]),
        attr(AttrStyle::Outer, "b", vec![]),
        attr(AttrStyle::Inner, "c", vec![]),
        attr(AttrStyle::Outer, "d", vec![]),
        attr(AttrStyle::Outer, "e", vec![]),
    ];
    let outer = (&all).outer();
    let inner = (&all).inner();
    assert_eq!(outer.len() + inner.len(), all.len());
    for o in &outer {
        assert!(!inner.iter().any(|i| std::ptr::eq(*i, *o)));
    }
}
