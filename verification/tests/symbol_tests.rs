use vtable::interface::parse_interface_decl;
use vtable::symbol::{
    vtable, expand_symbol, get_symbol_phantomdata, get_symbol_phantomdata_init, parse_new_symbol, symbol,
};
use vtable::syntax::GenericParamKind;
use vtable::tokens::{text_of_range, tok_text, Delim, Tok};

fn id(s: &str) -> Tok {
    Tok::Ident(s.to_string())
}

fn p(c: char) -> Tok {
    Tok::Punct(c, false)
}

fn width_decl() -> Vec<Tok> {
    vec![id("pub"), id("width"), p('='), id("f32"), id("as"), id("Width"), p(';')]
}

fn height_decl() -> Vec<Tok> {
    vec![
        id("pub"), id("height"), p('='), id("f32"), id("as"), id("Height"), p('<'), id("T"), p(':'),
        id("Copy"), p('>'), p(';'),
    ]
}

fn norm(s: &str) -> String {
    s.parse::<proc_macro2::TokenStream>().unwrap().to_string()
}

#[test]
fn token_text() {
    let toks = vec![p(':'), Tok::Punct(':', true), p(':'), id("x"), Tok::Group(Delim::Paren, vec![id("a")])];
    assert_eq!(text_of_range(&toks, 0, 5), ": :: x ( a ) ");
    assert_eq!(text_of_range(&toks, 1, 1), "");
    assert_eq!(tok_text(&Tok::Group(Delim::Bracket, vec![])), "[ ]");
    assert_eq!(tok_text(&Tok::Literal("\"s\"".to_string())), "\"s\"");
}

#[test]
fn parse_plain_symbol() {
    let d = parse_new_symbol(width_decl()).unwrap();
    assert_eq!(d.name, "width");
    assert_eq!(d.symbol_type.name, "Width");
    assert_eq!(d.visibility.len(), 1);
    assert_eq!(d.data_type.len(), 1);
    assert!(d.symbol_type.generics.tokens.is_empty());
    assert!(d.symbol_type.generics.params.is_empty());
    assert!(d.symbol_type.generics.impl_generics.is_empty());
    assert!(d.symbol_type.generics.ty_generics.is_empty());
}

#[test]
fn parse_generic_symbol() {
    let d = parse_new_symbol(height_decl()).unwrap();
    assert_eq!(d.name, "height");
    assert_eq!(d.symbol_type.name, "Height");
    assert_eq!(d.symbol_type.generics.tokens.len(), 5);
    assert_eq!(d.symbol_type.generics.params.len(), 1);
    assert!(matches!(&d.symbol_type.generics.params[0], GenericParamKind::Type(t) if t == "T"));
    let ig = &d.symbol_type.generics.impl_generics;
    let tg = &d.symbol_type.generics.ty_generics;
    assert_eq!(text_of_range(ig, 0, ig.len()), "< T : Copy > ");
    assert_eq!(text_of_range(tg, 0, tg.len()), "< T > ");
    assert!(matches!(&tg[1], Tok::Ident(t) if t == "T"));
}

#[test]
fn parse_without_visibility_and_with_restricted_visibility() {
    let d = parse_new_symbol(vec![id("w"), p('='), id("u8"), id("as"), id("W"), p(';')]).unwrap();
    assert!(d.visibility.is_empty());
    let toks = vec![
        id("pub"), Tok::Group(Delim::Paren, vec![id("crate")]), id("w"), p('='), id("u8"), id("as"), id("W"),
        p(';'),
    ];
    let d = parse_new_symbol(toks).unwrap();
    assert_eq!(d.visibility.len(), 2);
    assert_eq!(d.name, "w");
}

#[test]
fn parse_type_with_qualified_path() {
    // `<A as B>::C` holds an `as` that does not end the data type.
    let toks = vec![
        id("x"), p('='), p('<'), id("A"), id("as"), id("B"), p('>'), Tok::Punct(':', true), p(':'), id("C"),
        id("as"), id("X"), p(';'),
    ];
    let d = parse_new_symbol(toks).unwrap();
    assert_eq!(d.data_type.len(), 8);
    assert_eq!(d.symbol_type.name, "X");
}

#[test]
fn parse_rejects_malformed_declarations() {
    // no `;`
    assert!(parse_new_symbol(vec![id("w"), p('='), id("u8"), id("as"), id("W")]).is_none());
    // no `=`
    assert!(parse_new_symbol(vec![id("w"), id("u8"), id("as"), id("W"), p(';')]).is_none());
    // no `as`
    assert!(parse_new_symbol(vec![id("w"), p('='), id("u8"), id("W"), p(';')]).is_none());
    // a keyword as the name
    assert!(parse_new_symbol(vec![id("fn"), p('='), id("u8"), id("as"), id("W"), p(';')]).is_none());
    // tokens after the `;`
    assert!(parse_new_symbol(vec![id("w"), p('='), id("u8"), id("as"), id("W"), p(';'), id("x")]).is_none());
    assert!(parse_new_symbol(Vec::new()).is_none());
}

#[test]
fn phantom_markers() {
    let params = vec![GenericParamKind::Type("T".to_string())];
    assert_eq!(get_symbol_phantomdata(&params), vec!["T: ::std::marker::PhantomData<T>".to_string()]);
    assert_eq!(get_symbol_phantomdata_init(&params), vec!["T: ::std::marker::PhantomData {}".to_string()]);
    let params = vec![GenericParamKind::Lifetime];
    assert_eq!(get_symbol_phantomdata(&params), vec![String::new()]);
    assert_eq!(get_symbol_phantomdata_init(&params), vec![" {}".to_string()]);
    assert!(get_symbol_phantomdata(&Vec::new()).is_empty());
    assert!(get_symbol_phantomdata_init(&Vec::new()).is_empty());
}

#[test]
fn expand_plain_symbol() {
    let out = symbol(width_decl()).unwrap();
    assert_eq!(
        out,
        "#[derive(Copy, Clone, Debug)] struct Width  ; impl Width  { fn new() -> Width  { Width {  } } } \
         impl ::vtable::Symbol for Width  { type Type = f32 ; }"
    );
    assert_eq!(
        norm(&out),
        norm("#[derive(Copy, Clone, Debug)] struct Width; impl Width { fn new() -> Width { Width {} } } \
              impl ::vtable::Symbol for Width { type Type = f32; }")
    );
}

#[test]
fn expand_generic_symbol() {
    let d = parse_new_symbol(height_decl()).unwrap();
    let out = expand_symbol(&d);
    assert_eq!(
        norm(&out),
        norm("#[derive(Copy, Clone, Debug)] struct Height<T: Copy> { T: ::std::marker::PhantomData<T> } \
              impl<T: Copy> Height<T> { fn new() -> Height<T> { Height { T: ::std::marker::PhantomData {} } } } \
              impl<T: Copy> ::vtable::Symbol for Height<T> { type Type = f32; }")
    );
}

#[test]
fn symbol_refuses_two_generic_parameters() {
    let toks = vec![
        id("h"), p('='), id("f32"), id("as"), id("H"), p('<'), id("A"), p(','), id("B"), p('>'), p(';'),
    ];
    assert!(parse_new_symbol(toks.clone_tokens()).is_some());
    assert!(symbol(toks).is_none());
}

trait CloneTokens {
    fn clone_tokens(&self) -> Vec<Tok>;
}

impl CloneTokens for Vec<Tok> {
    fn clone_tokens(&self) -> Vec<Tok> {
        self.iter().map(clone_tok).collect()
    }
}

fn clone_tok(t: &Tok) -> Tok {
    match t {
        Tok::Ident(s) => Tok::Ident(s.clone()),
        Tok::Punct(c, j) => Tok::Punct(*c, *j),
        Tok::Literal(s) => Tok::Literal(s.clone()),
        Tok::Group(d, v) => Tok::Group(*d, v.clone_tokens()),
    }
}

#[test]
fn interface_declaration() {
    let d = parse_interface_decl(vec![id("IRect"), Tok::Group(Delim::Brace, vec![])]).unwrap();
    assert_eq!(d.name, "IRect");
    assert!(matches!(d.block, Tok::Group(Delim::Brace, _)));
    assert!(parse_interface_decl(vec![id("IRect"), Tok::Group(Delim::Paren, vec![])]).is_none());
    assert!(parse_interface_decl(vec![id("IRect")]).is_none());
    assert!(parse_interface_decl(vec![id("as"), Tok::Group(Delim::Brace, vec![])]).is_none());
}

#[test]
fn symbol_type_text() {
    let d = parse_new_symbol(height_decl()).unwrap();
    assert_eq!(d.symbol_type.to_text(), "Height < T : Copy > ");
}

#[test]
fn vtable_parses_files() {
    // `struct S;`
    assert!(vtable(vec![id("struct"), id("S"), p(';')]));
    assert!(vtable(Vec::new()));
    // `struct ;`
    assert!(!vtable(vec![id("struct"), p(';')]));
    // a group without visible delimiters is refused
    assert!(!vtable(vec![Tok::Group(Delim::Invisible, vec![id("struct"), id("S"), p(';')])]));
}

#[test]
fn invisible_groups_are_refused() {
    let toks = vec![
        id("w"), p('='), Tok::Group(Delim::Invisible, vec![id("u8")]), id("as"), id("W"), p(';'),
    ];
    assert!(parse_new_symbol(toks).is_none());
    assert!(parse_interface_decl(vec![
        id("I"),
        Tok::Group(Delim::Brace, vec![Tok::Group(Delim::Invisible, vec![])]),
    ])
    .is_none());
}

#[test]
fn symbol_ignores_visibility_and_name() {
    let a = symbol(vec![id("pub"), id("width"), p('='), id("f32"), id("as"), id("Width"), p(';')]);
    let b = symbol(vec![
        id("pub"), Tok::Group(Delim::Paren, vec![id("crate")]), id("other"), p('='), id("f32"), id("as"),
        id("Width"), p(';'),
    ]);
    let c = symbol(vec![id("w"), p('='), id("f32"), id("as"), id("Width"), p(';')]);
    assert!(a.is_some());
    assert_eq!(a, b);
    assert_eq!(a, c);
}

#[test]
fn empty_generics_print_nothing() {
    let out = symbol(vec![id("w"), p('='), id("f32"), id("as"), id("Width"), p('<'), p('>'), p(';')]).unwrap();
    assert_eq!(out, symbol(width_decl()).unwrap());
    assert_eq!(norm(&out), norm("#[derive(Copy, Clone, Debug)] struct Width; impl Width { fn new() -> Width { Width {} } } \
              impl ::vtable::Symbol for Width { type Type = f32; }"));
}

#[test]
fn printed_generics_and_type() {
    // `x = Vec<u8> as S<T>;`
    let toks = vec![
        id("x"), p('='), id("Vec"), p('<'), id("u8"), p('>'), id("as"), id("S"), p('<'), id("T"), p('>'), p(';'),
    ];
    let d = parse_new_symbol(toks).unwrap();
    let pt = &d.printed_type;
    assert_eq!(text_of_range(pt, 0, pt.len()), "Vec < u8 > ");
    let pg = &d.symbol_type.generics.printed;
    assert_eq!(text_of_range(pg, 0, pg.len()), "< T > ");
    // lifetimes are printed first
    let toks = vec![
        id("x"), p('='), id("u8"), id("as"), id("S"), p('<'), id("T"), p(','), Tok::Punct('\'', true), id("a"),
        p('>'), p(';'),
    ];
    let d = parse_new_symbol(toks).unwrap();
    let pg = &d.symbol_type.generics.printed;
    assert_eq!(text_of_range(pg, 0, pg.len()), "< 'a , T , > ");
}
