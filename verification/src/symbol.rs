use vstd::prelude::*;

use crate::syntax::{
    generic_params, impl_generics, parses_ident, parses_type, parses_visibility, params_view,
    syn_generic_params, syn_impl_generics, syn_parses_ident, syn_parses_type,
    syn_parses_visibility, syn_ty_generics, ty_generics, GenericParamKind, ParamKindView,
    parses_file, printed_generics, printed_type, syn_parses_file, syn_printed_generics,
    syn_printed_type,
};
use crate::tokens::{
    has_invisible, holds_invisible, lemma_text_view, spec_text, text_of_range, toks_view, view_text,
    Tok, TokView,
};

verus! {

/// The generics of a symbol type: their tokens, the kinds of their parameters, and the
/// `impl` and type generics printed from them.
pub struct GenericsModel {
    pub tokens: Vec<Tok>,
    pub params: Vec<GenericParamKind>,
    pub impl_generics: Vec<Tok>,
    pub ty_generics: Vec<Tok>,
    pub printed: Vec<Tok>,
}

/// The symbol type of a declaration: its name and generics (`Width`, `Height<T: Copy>`).
pub struct SymbolType {
    pub name: String,
    pub generics: GenericsModel,
}

impl SymbolType {
    /// The text of the symbol type (`SymbolType::to_tokens`): its name, then its generics as
    /// `syn` prints them (nothing where there are no parameters).
    pub fn to_text(&self) -> (res: String)
        ensures
            res@ == self.name@ + " "@ + view_text(toks_view(self.generics.printed@)),
    {
        let mut out = self.name.clone();
        out.append(" ");
        let printed = &self.generics.printed;
        let g = text_of_range(printed, 0, printed.len());
        proof {
            assert(printed@.subrange(0, printed@.len() as int) =~= printed@);
            lemma_text_view(printed@);
        }
        out.append(g.as_str());
        out
    }
}

/// A symbol declaration `vis name = DataType as SymbolType;`.
pub struct NewSymbol {
    pub visibility: Vec<Tok>,
    pub name: String,
    pub data_type: Vec<Tok>,
    pub printed_type: Vec<Tok>,
    pub symbol_type: SymbolType,
}

/// The view of a symbol declaration.
pub struct NewSymbolView {
    pub visibility: Seq<Tok>,
    pub name: Seq<char>,
    pub data_type: Seq<Tok>,
    pub symbol_name: Seq<char>,
    pub generics: Seq<Tok>,
    pub params: Seq<ParamKindView>,
    pub impl_generics: Seq<TokView>,
    pub ty_generics: Seq<TokView>,
    pub printed_generics: Seq<TokView>,
    pub printed_type: Seq<TokView>,
}

impl View for NewSymbol {
    type V = NewSymbolView;

    open spec fn view(&self) -> NewSymbolView {
        NewSymbolView {
            visibility: self.visibility@,
            name: self.name@,
            data_type: self.data_type@,
            symbol_name: self.symbol_type.name@,
            generics: self.symbol_type.generics.tokens@,
            params: params_view(self.symbol_type.generics.params@),
            impl_generics: toks_view(self.symbol_type.generics.impl_generics@),
            ty_generics: toks_view(self.symbol_type.generics.ty_generics@),
            printed_generics: toks_view(self.symbol_type.generics.printed@),
            printed_type: toks_view(self.printed_type@),
        }
    }
}

/// The number of leading tokens that form the visibility: the longest of two, one or none
/// that `syn` parses as a visibility.
pub open spec fn spec_vis_len(toks: Seq<Tok>) -> Option<int> {
    if toks.len() >= 2 && syn_parses_visibility(spec_text(toks.subrange(0, 2))) {
        Some(2)
    } else if toks.len() >= 1 && syn_parses_visibility(spec_text(toks.subrange(0, 1))) {
        Some(1)
    } else if syn_parses_visibility(spec_text(toks.subrange(0, 0))) {
        Some(0)
    } else {
        None
    }
}

/// The name of the identifier at position `k`, where that token is one that `syn` parses as
/// an identifier.
pub open spec fn spec_ident_at(toks: Seq<Tok>, k: int) -> Option<Seq<char>> {
    if 0 <= k < toks.len() && syn_parses_ident(spec_text(toks.subrange(k, k + 1))) {
        match toks[k] {
            Tok::Ident(s) => Some(s@),
            _ => None,
        }
    } else {
        None
    }
}

/// Whether a token is the keyword `as`.
pub open spec fn is_as_keyword(t: Tok) -> bool {
    match t {
        Tok::Ident(s) => s@ == "as"@,
        _ => false,
    }
}

/// The position of the `as` that ends the data type starting at `start`: the first position
/// from `j` on that holds `as` and before which the tokens from `start` parse as a type.
pub open spec fn spec_type_end(toks: Seq<Tok>, start: int, j: int) -> Option<int>
    decreases toks.len() - j,
{
    if j >= toks.len() {
        None
    } else if is_as_keyword(toks[j]) && syn_parses_type(spec_text(toks.subrange(start, j))) {
        Some(j)
    } else {
        spec_type_end(toks, start, j + 1)
    }
}

/// Whether a token is the punctuation character `c`.
pub open spec fn is_punct(t: Tok, c: char) -> bool {
    match t {
        Tok::Punct(x, _) => x == c,
        _ => false,
    }
}

/// The declaration that `NewSymbol`'s grammar reads from the tokens: a visibility, a name,
/// `=`, a data type, `as`, the symbol type's name, its generics, and a final `;`. Tokens that
/// hold a group without visible delimiters are refused, as their text does not keep such a
/// group together.
pub open spec fn spec_parse_new_symbol(toks: Seq<Tok>) -> Option<NewSymbolView> {
    if has_invisible(toks) {
        None
    } else {
        spec_parse_visible_symbol(toks)
    }
}

/// The declaration that `NewSymbol`'s grammar reads from tokens without invisible groups.
pub open spec fn spec_parse_visible_symbol(toks: Seq<Tok>) -> Option<NewSymbolView> {
    match spec_vis_len(toks) {
        None => None,
        Some(v) => match spec_ident_at(toks, v) {
            None => None,
            Some(name) => if !(v + 1 < toks.len() && is_punct(toks[v + 1], '=')) {
                None
            } else {
                match spec_type_end(toks, v + 2, v + 3) {
                    None => None,
                    Some(j) => match spec_ident_at(toks, j + 1) {
                        None => None,
                        Some(sym) => if !(j + 2 < toks.len() && is_punct(toks[toks.len() - 1], ';')) {
                            None
                        } else {
                            let g = toks.subrange(j + 2, toks.len() - 1);
                            let gt = spec_text(g);
                            match (
                                syn_generic_params(gt),
                                syn_impl_generics(gt),
                                syn_ty_generics(gt),
                                syn_printed_generics(gt),
                                syn_printed_type(spec_text(toks.subrange(v + 2, j))),
                            ) {
                                (Some(p), Some(ig), Some(tg), Some(pg), Some(pt)) => Some(
                                    NewSymbolView {
                                        visibility: toks.subrange(0, v),
                                        name,
                                        data_type: toks.subrange(v + 2, j),
                                        symbol_name: sym,
                                        generics: g,
                                        params: p,
                                        impl_generics: ig,
                                        ty_generics: tg,
                                        printed_generics: pg,
                                        printed_type: pt,
                                    },
                                ),
                                _ => None,
                            }
                        },
                    },
                }
            },
        },
    }
}

proof fn lemma_type_end_range(toks: Seq<Tok>, start: int, j: int)
    ensures
        spec_type_end(toks, start, j) matches Some(r) ==> j <= r < toks.len(),
    decreases toks.len() - j,
{
    if j < toks.len() {
        lemma_type_end_range(toks, start, j + 1);
    }
}

fn ident_at(toks: &Vec<Tok>, k: usize) -> (res: Option<String>)
    ensures
        match res {
            Some(s) => spec_ident_at(toks@, k as int) == Some(s@),
            None => spec_ident_at(toks@, k as int) is None,
        },
{
    if k < toks.len() {
        let text = text_of_range(toks, k, k + 1);
        if parses_ident(&text) {
            match &toks[k] {
                Tok::Ident(s) => Some(s.clone()),
                _ => None,
            }
        } else {
            None
        }
    } else {
        None
    }
}

fn is_as(t: &Tok) -> (res: bool)
    ensures
        res == is_as_keyword(*t),
{
    match t {
        Tok::Ident(s) => {
            let kw = String::from_str("as");
            *s == kw
        },
        _ => false,
    }
}

fn is_punct_tok(t: &Tok, c: char) -> (res: bool)
    ensures
        res == is_punct(*t, c),
{
    match t {
        Tok::Punct(x, _) => *x == c,
        _ => false,
    }
}

fn type_end(toks: &Vec<Tok>, start: usize) -> (res: Option<usize>)
    requires
        start + 1 <= usize::MAX,
    ensures
        match res {
            Some(j) => spec_type_end(toks@, start as int, start + 1) == Some(j as int),
            None => spec_type_end(toks@, start as int, start + 1) is None,
        },
        res matches Some(j) ==> start + 1 <= j < toks@.len(),
{
    proof {
        lemma_type_end_range(toks@, start as int, start + 1);
    }
    let n = toks.len();
    let mut j = start + 1;
    while j < n
        invariant
            n == toks@.len(),
            start + 1 <= j,
            spec_type_end(toks@, start as int, start + 1) == spec_type_end(toks@, start as int, j as int),
        decreases n - j,
    {
        if is_as(&toks[j]) {
            let text = text_of_range(toks, start, j);
            if parses_type(&text) {
                return Some(j);
            }
        }
        j = j + 1;
    }
    None
}

/// Reads a symbol declaration `vis name = DataType as SymbolType<generics>;` from the tokens
/// (`NewSymbol`'s grammar), or `None` where they do not follow it or hold a group without
/// visible delimiters.
pub fn parse_new_symbol(tokens: Vec<Tok>) -> (res: Option<NewSymbol>)
    ensures
        match res {
            Some(d) => spec_parse_new_symbol(tokens@) == Some(d@),
            None => spec_parse_new_symbol(tokens@) is None,
        },
{
    if holds_invisible(&tokens) {
        return None;
    }
    let n = tokens.len();
    let v: usize;
    if n >= 2 && parses_visibility(&text_of_range(&tokens, 0, 2)) {
        v = 2;
    } else if n >= 1 && parses_visibility(&text_of_range(&tokens, 0, 1)) {
        v = 1;
    } else if parses_visibility(&text_of_range(&tokens, 0, 0)) {
        v = 0;
    } else {
        return None;
    }
    assert(spec_vis_len(tokens@) == Some(v as int));
    let name = match ident_at(&tokens, v) {
        Some(s) => s,
        None => {
            return None;
        },
    };
    if !(v + 1 < n && is_punct_tok(&tokens[v + 1], '=')) {
        return None;
    }
    let j = match type_end(&tokens, v + 2) {
        Some(j) => j,
        None => {
            return None;
        },
    };
    let symbol_name = match ident_at(&tokens, j + 1) {
        Some(s) => s,
        None => {
            return None;
        },
    };
    if !(j + 2 < n && is_punct_tok(&tokens[n - 1], ';')) {
        return None;
    }
    let gtext = text_of_range(&tokens, j + 2, n - 1);
    let params = match generic_params(&gtext) {
        Some(p) => p,
        None => {
            return None;
        },
    };
    let ig = match impl_generics(&gtext) {
        Some(s) => s,
        None => {
            return None;
        },
    };
    let tg = match ty_generics(&gtext) {
        Some(s) => s,
        None => {
            return None;
        },
    };
    let pg = match printed_generics(&gtext) {
        Some(s) => s,
        None => {
            return None;
        },
    };
    let ttext = text_of_range(&tokens, v + 2, j);
    let pt = match printed_type(&ttext) {
        Some(s) => s,
        None => {
            return None;
        },
    };
    let ghost all = tokens@;
    let mut visibility = tokens;
    let mut rest = visibility.split_off(v);
    let mut data_type = rest.split_off(2);
    let mut after_type = data_type.split_off(j - v - 2);
    let mut generics = after_type.split_off(2);
    let _semi = generics.pop();
    assert(visibility@ =~= all.subrange(0, v as int));
    assert(data_type@ =~= all.subrange(v + 2, j as int));
    assert(generics@ =~= all.subrange(j + 2, n - 1));
    let res = NewSymbol {
        visibility,
        name,
        data_type,
        printed_type: pt,
        symbol_type: SymbolType {
            name: symbol_name,
            generics: GenericsModel {
                tokens: generics,
                params,
                impl_generics: ig,
                ty_generics: tg,
                printed: pg,
            },
        },
    };
    Some(res)
}

/// The field that a type parameter `T` adds to a symbol struct
/// (`T: ::std::marker::PhantomData<T>`); other parameters add an empty marker.
pub open spec fn spec_marker(k: ParamKindView) -> Seq<char> {
    match k {
        ParamKindView::Type(id) => id + ": ::std::marker::PhantomData<"@ + id + ">"@,
        _ => Seq::empty(),
    }
}

/// The initializer that a parameter adds to the symbol's constructor: the marker
/// `T: ::std::marker::PhantomData` of a type parameter (empty for others), followed by `{}`.
pub open spec fn spec_marker_init(k: ParamKindView) -> Seq<char> {
    match k {
        ParamKindView::Type(id) => id + ": ::std::marker::PhantomData"@ + " {}"@,
        _ => " {}"@,
    }
}

/// The texts run together, in order.
pub open spec fn spec_join(s: Seq<Seq<char>>) -> Seq<char>
    decreases s.len(),
{
    if s.len() == 0 {
        Seq::empty()
    } else {
        s[0] + spec_join(s.drop_first())
    }
}

/// The body of the symbol struct: `{ markers }` when there are generic parameters, `;`
/// otherwise.
pub open spec fn spec_symbol_decl(params: Seq<ParamKindView>) -> Seq<char> {
    if params.len() > 0 {
        "{ "@ + spec_join(params.map_values(|k: ParamKindView| spec_marker(k))) + " }"@
    } else {
        ";"@
    }
}

/// The text of a symbol type (`SymbolType::to_tokens`): its name, then its generics as `syn`
/// prints them.
pub open spec fn spec_symbol_type_text(d: NewSymbolView) -> Seq<char> {
    d.symbol_name + " "@ + view_text(d.printed_generics)
}

/// The struct declaration and constructor that `symbol!` emits for a declaration.
pub open spec fn spec_struct_decl(d: NewSymbolView) -> Seq<char> {
    "#[derive(Copy, Clone, Debug)] struct "@ + spec_symbol_type_text(d) + " "@
        + spec_symbol_decl(d.params) + " impl"@ + view_text(d.impl_generics) + " "@ + d.symbol_name + " "@
        + view_text(d.ty_generics) + " { fn new() -> "@ + d.symbol_name + " "@ + view_text(
        d.ty_generics,
    ) + " { "@
        + d.symbol_name + " { "@ + spec_join(d.params.map_values(|k: ParamKindView| spec_marker_init(k)))
        + " } } }"@
}

/// The `Symbol` impl that `symbol!` emits for a declaration: the data type as `Type`.
pub open spec fn spec_symbol_impl(d: NewSymbolView) -> Seq<char> {
    "impl"@ + view_text(d.impl_generics) + " ::vtable::Symbol for "@ + d.symbol_name + " "@
        + view_text(d.ty_generics) + " { type Type = "@ + view_text(d.printed_type) + "; }"@
}

/// The whole text that `symbol!` emits for a declaration.
pub open spec fn spec_expand(d: NewSymbolView) -> Seq<char> {
    spec_struct_decl(d) + " "@ + spec_symbol_impl(d)
}

/// The text that `symbol!` emits ends with the `Symbol` impl for the symbol type, whose `Type`
/// is the whole printed data type, every one of its token trees.
pub proof fn lemma_expand_carries_type(d: NewSymbolView)
    ensures
        spec_impl_tail(d).is_suffix_of(spec_expand(d)),
{
    let a = " ::vtable::Symbol for "@;
    let x0 = "impl"@ + view_text(d.impl_generics);
    let t1 = a + d.symbol_name;
    let t2 = t1 + " "@;
    let t3 = t2 + view_text(d.ty_generics);
    let t4 = t3 + " { type Type = "@;
    let t5 = t4 + view_text(d.printed_type);
    let t6 = t5 + "; }"@;
    lemma_suffix_of_concat(x0, a);
    lemma_suffix_append(a, x0 + a, d.symbol_name);
    lemma_suffix_append(t1, x0 + t1, " "@);
    assert(x0 + t1 + " "@ =~= x0 + t2);
    lemma_suffix_append(t2, x0 + t2, view_text(d.ty_generics));
    assert(x0 + t2 + view_text(d.ty_generics) =~= x0 + t3);
    lemma_suffix_append(t3, x0 + t3, " { type Type = "@);
    assert(x0 + t3 + " { type Type = "@ =~= x0 + t4);
    lemma_suffix_append(t4, x0 + t4, view_text(d.printed_type));
    assert(x0 + t4 + view_text(d.printed_type) =~= x0 + t5);
    lemma_suffix_append(t5, x0 + t5, "; }"@);
    assert(x0 + t5 + "; }"@ =~= x0 + t6);
    assert(x0 + t1 =~= x0 + a + d.symbol_name);
    assert(spec_symbol_impl(d) =~= x0 + t6);
    assert(t6 == spec_impl_tail(d));
    lemma_suffix_of_concat(spec_struct_decl(d) + " "@, spec_symbol_impl(d));
    lemma_suffix_trans(t6, spec_symbol_impl(d), spec_expand(d));
}

/// The body that a symbol struct gets: none (`;`) without generic parameters; with a type
/// parameter `T`, the field `T: ::std::marker::PhantomData<T>` in braces; with a lifetime or
/// const parameter, empty braces.
pub open spec fn spec_struct_body(params: Seq<ParamKindView>) -> Seq<char> {
    if params.len() == 0 {
        ";"@
    } else {
        match params[0] {
            ParamKindView::Type(id) => "{ "@ + id + ": ::std::marker::PhantomData<"@ + id + ">"@
                + " }"@,
            _ => "{ "@ + " }"@,
        }
    }
}

/// Right after the struct's name and generics, the emitted text gives the struct's body: a
/// unit struct without generic parameters, and a marker field for a type parameter.
#[verifier::spinoff_prover]
pub proof fn lemma_expand_struct_body(d: NewSymbolView)
    requires
        d.params.len() <= 1,
    ensures
        (spec_struct_head(d) + spec_struct_body(d.params)).is_prefix_of(spec_expand(d)),
{
    let ms = d.params.map_values(|k: ParamKindView| spec_marker(k));
    if d.params.len() == 1 {
        assert(ms.drop_first() =~= Seq::<Seq<char>>::empty());
        assert(spec_join(ms.drop_first()) == Seq::<char>::empty());
        assert(ms[0] == spec_marker(d.params[0]));
        assert(spec_join(ms) =~= spec_marker(d.params[0]));
    }
    assert(spec_symbol_decl(d.params) == spec_struct_body(d.params)) by {
        if d.params.len() == 1 {
            match d.params[0] {
                ParamKindView::Type(id) => {
                    assert(spec_symbol_decl(d.params) =~= spec_struct_body(d.params));
                },
                _ => {
                    assert(spec_symbol_decl(d.params) =~= spec_struct_body(d.params));
                },
            }
        }
    }
    let p = spec_struct_head(d) + spec_struct_body(d.params);
    let q = "#[derive(Copy, Clone, Debug)] struct "@ + spec_symbol_type_text(d) + " "@ + spec_symbol_decl(
        d.params,
    );
    assert(p =~= q);
    assert(q.is_prefix_of(spec_struct_decl(d)));
    assert(spec_struct_decl(d).is_prefix_of(spec_expand(d)));
}

proof fn lemma_suffix_of_concat(a: Seq<char>, b: Seq<char>)
    ensures
        b.is_suffix_of(a + b),
{
    assert(b =~= (a + b).subrange(a.len() as int, (a + b).len() as int));
}

proof fn lemma_suffix_append(t: Seq<char>, s: Seq<char>, b: Seq<char>)
    requires
        t.is_suffix_of(s),
    ensures
        (t + b).is_suffix_of(s + b),
{
    assert(t + b =~= (s + b).subrange((s + b).len() - (t + b).len(), (s + b).len() as int));
}

proof fn lemma_suffix_trans(a: Seq<char>, b: Seq<char>, c: Seq<char>)
    requires
        a.is_suffix_of(b),
        b.is_suffix_of(c),
    ensures
        a.is_suffix_of(c),
{
    assert(a =~= c.subrange(c.len() - a.len(), c.len() as int));
}

/// The end of the emitted text: the `Symbol` impl's trait, symbol type and `Type`, the
/// printed data type in full.
pub open spec fn spec_impl_tail(d: NewSymbolView) -> Seq<char> {
    " ::vtable::Symbol for "@ + d.symbol_name + " "@ + view_text(d.ty_generics) + " { type Type = "@
        + view_text(d.printed_type) + "; }"@
}

/// The start of the emitted text: the symbol struct's derives, name and printed generics.
pub open spec fn spec_struct_head(d: NewSymbolView) -> Seq<char> {
    "#[derive(Copy, Clone, Debug)] struct "@ + d.symbol_name + " "@ + view_text(d.printed_generics)
        + " "@
}

/// The markers of the generic parameters (`get_symbol_phantomdata`): one per parameter.
/// More than one parameter is not accepted: the markers go into a punctuated list without
/// separators, which `syn` refuses (by a panic) at the second one.
pub fn get_symbol_phantomdata(params: &Vec<GenericParamKind>) -> (res: Vec<String>)
    requires
        params@.len() <= 1,
    ensures
        res@.len() == params@.len(),
        forall|i: int| 0 <= i < params@.len() ==> #[trigger] res@[i]@ == spec_marker(params@[i]@),
{
    let mut markers: Vec<String> = Vec::new();
    let n = params.len();
    for i in 0..n
        invariant
            n == params@.len(),
            markers@.len() == i,
            forall|k: int| 0 <= k < i ==> #[trigger] markers@[k]@ == spec_marker(params@[k]@),
    {
        let marker = match &params[i] {
            GenericParamKind::Type(id) => {
                let mut m = id.clone();
                m.append(": ::std::marker::PhantomData<");
                m.append(id.as_str());
                m.append(">");
                m
            },
            _ => String::new(),
        };
        markers.push(marker);
    }
    markers
}

/// The constructor initializers of the generic parameters (`get_symbol_phantomdata_init`):
/// one per parameter. More than one parameter is not accepted, as for the markers.
pub fn get_symbol_phantomdata_init(params: &Vec<GenericParamKind>) -> (res: Vec<String>)
    requires
        params@.len() <= 1,
    ensures
        res@.len() == params@.len(),
        forall|i: int| 0 <= i < params@.len() ==> #[trigger] res@[i]@ == spec_marker_init(params@[i]@),
{
    let mut markers: Vec<String> = Vec::new();
    let n = params.len();
    for i in 0..n
        invariant
            n == params@.len(),
            markers@.len() == i,
            forall|k: int| 0 <= k < i ==> #[trigger] markers@[k]@ == spec_marker_init(params@[k]@),
    {
        let marker = match &params[i] {
            GenericParamKind::Type(id) => {
                let mut m = id.clone();
                m.append(": ::std::marker::PhantomData");
                m.append(" {}");
                m
            },
            _ => String::from_str(" {}"),
        };
        markers.push(marker);
    }
    markers
}

fn join_all(parts: &Vec<String>) -> (res: String)
    ensures
        res@ == spec_join(parts@.map_values(|s: String| s@)),
{
    let mut out = String::new();
    let n = parts.len();
    let ghost full = parts@.map_values(|s: String| s@);
    assert(full.skip(0) =~= full);
    for i in 0..n
        invariant
            n == parts@.len(),
            full == parts@.map_values(|s: String| s@),
            spec_join(full) == out@ + spec_join(full.skip(i as int)),
    {
        assert(full.skip(i as int).drop_first() =~= full.skip(i + 1));
        out.append(parts[i].as_str());
    }
    assert(full.skip(n as int) =~= Seq::<Seq<char>>::empty());
    out
}

/// Emits the text of a symbol declaration's struct, constructor and `Symbol` impl.
pub fn expand_symbol(d: &NewSymbol) -> (res: String)
    requires
        d@.params.len() <= 1,
    ensures
        res@ == spec_expand(d@),
        (spec_struct_head(d@) + spec_struct_body(d@.params)).is_prefix_of(res@),
        spec_impl_tail(d@).is_suffix_of(res@),
{
    proof {
        lemma_expand_struct_body(d@);
        lemma_expand_carries_type(d@);
    }
    let params = &d.symbol_type.generics.params;
    let name = d.symbol_type.name.as_str();
    let ig_toks = &d.symbol_type.generics.impl_generics;
    let tg_toks = &d.symbol_type.generics.ty_generics;
    let ig_text = text_of_range(ig_toks, 0, ig_toks.len());
    let tg_text = text_of_range(tg_toks, 0, tg_toks.len());
    proof {
        assert(ig_toks@.subrange(0, ig_toks@.len() as int) =~= ig_toks@);
        assert(tg_toks@.subrange(0, tg_toks@.len() as int) =~= tg_toks@);
        lemma_text_view(ig_toks@);
        lemma_text_view(tg_toks@);
    }
    let ig = ig_text.as_str();
    let tg = tg_text.as_str();
    let markers = get_symbol_phantomdata(params);
    let inits = get_symbol_phantomdata_init(params);
    let ghost pv = d@.params;
    assert(markers@.map_values(|s: String| s@) =~= pv.map_values(|k: ParamKindView| spec_marker(k)));
    assert(inits@.map_values(|s: String| s@) =~= pv.map_values(|k: ParamKindView| spec_marker_init(k)));
    let decl = if params.len() > 0 {
        let mut b = String::from_str("{ ");
        let m = join_all(&markers);
        b.append(m.as_str());
        b.append(" }");
        b
    } else {
        String::from_str(";")
    };
    let stext = d.symbol_type.to_text();
    let init_text = join_all(&inits);
    let mut out = String::from_str("#[derive(Copy, Clone, Debug)] struct ");
    out.append(stext.as_str());
    out.append(" ");
    out.append(decl.as_str());
    out.append(" impl");
    out.append(ig);
    out.append(" ");
    out.append(name);
    out.append(" ");
    out.append(tg);
    out.append(" { fn new() -> ");
    out.append(name);
    out.append(" ");
    out.append(tg);
    out.append(" { ");
    out.append(name);
    out.append(" { ");
    out.append(init_text.as_str());
    out.append(" } } }");
    assert(out@ == spec_struct_decl(d@));
    let dtext = text_of_range(&d.printed_type, 0, d.printed_type.len());
    proof {
        assert(d.printed_type@.subrange(0, d.printed_type@.len() as int) =~= d.printed_type@);
        lemma_text_view(d.printed_type@);
    }
    let mut imp = String::from_str("impl");
    imp.append(ig);
    imp.append(" ::vtable::Symbol for ");
    imp.append(name);
    imp.append(" ");
    imp.append(tg);
    imp.append(" { type Type = ");
    imp.append(dtext.as_str());
    imp.append("; }");
    assert(imp@ == spec_symbol_impl(d@));
    out.append(" ");
    out.append(imp.as_str());
    out
}

/// `symbol!`: reads a symbol declaration from the tokens and emits the text of its struct,
/// constructor and `Symbol` impl. `None` stands for the macro's panic: the tokens do not follow
/// the grammar (`syn`'s parse fails and is unwrapped), or the symbol type has more than one
/// generic parameter (the marker list refuses the second). It also stands for tokens that hold
/// a group without visible delimiters, which this grammar refuses.
pub fn symbol(tokens: Vec<Tok>) -> (res: Option<String>)
    ensures
        match spec_parse_new_symbol(tokens@) {
            Some(d) => if d.params.len() <= 1 {
                res matches Some(s) && s@ == spec_expand(d)
            } else {
                res is None
            },
            None => res is None,
        },
{
    match parse_new_symbol(tokens) {
        Some(d) => {
            if d.symbol_type.generics.params.len() <= 1 {
                Some(expand_symbol(&d))
            } else {
                None
            }
        },
        None => None,
    }
}

/// `vtable!`: whether the input parses as a Rust file (`syn::File`). `false` stands for the
/// macro's panic (the parse is unwrapped), and also for input that holds a group without
/// visible delimiters, whose text does not keep that group together. What the macro emits
/// after the parse names items that do not exist, so only the parse is kept.
pub fn vtable(tokens: Vec<Tok>) -> (res: bool)
    ensures
        res == (!has_invisible(tokens@) && syn_parses_file(spec_text(tokens@))),
{
    if holds_invisible(&tokens) {
        return false;
    }
    let text = text_of_range(&tokens, 0, tokens.len());
    assert(tokens@.subrange(0, tokens@.len() as int) =~= tokens@);
    parses_file(&text)
}

proof fn lemma_type_end_first(t: Seq<Tok>, start: int, k: int, j: int)
    requires
        start < k <= j < t.len(),
        is_as_keyword(t[j]),
        syn_parses_type(spec_text(t.subrange(start, j))),
        forall|m: int|
            start < m < j && #[trigger] is_as_keyword(t[m]) ==> !syn_parses_type(
                spec_text(t.subrange(start, m)),
            ),
    ensures
        spec_type_end(t, start, k) == Some(j),
    decreases j - k,
{
    if k < j {
        lemma_type_end_first(t, start, k + 1, j);
    }
}

/// `NewSymbol`'s grammar, stated token by token: where the tokens (holding no invisible group)
/// are a visibility (the longest run of at most two leading tokens that `syn` accepts as one),
/// a name, `=`, a data type `T`, `as`, a symbol type's name,
/// its generics and a final `;`, with `T` the tokens from just after `=` up to the first `as`
/// before which they parse as a type (whatever token `T` begins with: a path, a tuple, an
/// array, a reference), and `syn` accepts the generics and prints both, the declaration is
/// read, with `T` as its data type.
pub proof fn lemma_parse_new_symbol_grammar(t: Seq<Tok>, v: int, j: int)
    requires
        !has_invisible(t),
        0 <= v <= 2,
        syn_parses_visibility(spec_text(t.subrange(0, v))),
        forall|w: int|
            v < w <= 2 && w <= t.len() ==> !#[trigger] syn_parses_visibility(
                spec_text(t.subrange(0, w)),
            ),
        t[v] is Ident,
        syn_parses_ident(spec_text(t.subrange(v, v + 1))),
        is_punct(t[v + 1], '='),
        v + 2 < j,
        j + 2 < t.len(),
        is_as_keyword(t[j]),
        syn_parses_type(spec_text(t.subrange(v + 2, j))),
        forall|m: int|
            v + 2 < m < j && #[trigger] is_as_keyword(t[m]) ==> !syn_parses_type(
                spec_text(t.subrange(v + 2, m)),
            ),
        t[j + 1] is Ident,
        syn_parses_ident(spec_text(t.subrange(j + 1, j + 2))),
        is_punct(t[t.len() - 1], ';'),
        syn_generic_params(spec_text(t.subrange(j + 2, t.len() - 1))) is Some,
        syn_impl_generics(spec_text(t.subrange(j + 2, t.len() - 1))) is Some,
        syn_ty_generics(spec_text(t.subrange(j + 2, t.len() - 1))) is Some,
        syn_printed_generics(spec_text(t.subrange(j + 2, t.len() - 1))) is Some,
        syn_printed_type(spec_text(t.subrange(v + 2, j))) is Some,
    ensures
        spec_parse_new_symbol(t) matches Some(d) && d.visibility == t.subrange(0, v) && d.name
            == t[v]->Ident_0@ && d.data_type == t.subrange(v + 2, j) && d.symbol_name == t[j
            + 1]->Ident_0@ && d.generics == t.subrange(j + 2, t.len() - 1) && Some(d.printed_type)
            == syn_printed_type(spec_text(t.subrange(v + 2, j))),
{
    lemma_type_end_first(t, v + 2, v + 3, j);
    if v < 2 && t.len() >= 2 {
        assert(!syn_parses_visibility(spec_text(t.subrange(0, 2))));
    }
    if v < 1 && t.len() >= 1 {
        assert(!syn_parses_visibility(spec_text(t.subrange(0, 1))));
    }
    assert(spec_vis_len(t) == Some(v));
}

proof fn lemma_type_end_shift(t1: Seq<Tok>, a: int, t2: Seq<Tok>, b: int, k: int)
    requires
        0 <= a <= t1.len(),
        0 <= b <= t2.len(),
        t1.subrange(a, t1.len() as int) == t2.subrange(b, t2.len() as int),
        k >= 1,
    ensures
        match spec_type_end(t1, a, a + k) {
            Some(x) => spec_type_end(t2, b, b + k) == Some(x - a + b),
            None => spec_type_end(t2, b, b + k) is None,
        },
    decreases t1.len() - (a + k),
{
    let r1 = t1.subrange(a, t1.len() as int);
    let r2 = t2.subrange(b, t2.len() as int);
    assert(r1.len() == r2.len());
    if a + k < t1.len() {
        assert(t1[a + k] == r1[k]);
        assert(t2[b + k] == r2[k]);
        assert(t1.subrange(a, a + k) =~= r1.subrange(0, k));
        assert(t2.subrange(b, b + k) =~= r2.subrange(0, k));
        lemma_type_end_shift(t1, a, t2, b, k + 1);
    }
}

/// The text that `symbol!` emits does not depend on the declaration's visibility or name: two
/// declarations whose tokens agree from the `=` after the name on give the same text, and
/// `symbol` accepts both or neither.
#[verifier::spinoff_prover]
pub proof fn lemma_symbol_ignores_visibility_and_name(t1: Seq<Tok>, t2: Seq<Tok>)
    requires
        spec_parse_new_symbol(t1) is Some,
        spec_parse_new_symbol(t2) is Some,
        t1.skip(spec_parse_new_symbol(t1)->0.visibility.len() + 1int) == t2.skip(
            spec_parse_new_symbol(t2)->0.visibility.len() + 1int,
        ),
    ensures
        spec_expand(spec_parse_new_symbol(t1)->0) == spec_expand(spec_parse_new_symbol(t2)->0),
        spec_parse_new_symbol(t1)->0.params == spec_parse_new_symbol(t2)->0.params,
{
    let d1 = spec_parse_new_symbol(t1)->0;
    let d2 = spec_parse_new_symbol(t2)->0;
    let v1 = spec_vis_len(t1)->0;
    let v2 = spec_vis_len(t2)->0;
    assert(d1.visibility.len() == v1);
    assert(d2.visibility.len() == v2);
    let a = v1 + 2;
    let b = v2 + 2;
    let r1 = t1.skip(v1 + 1);
    let r2 = t2.skip(v2 + 1);
    assert(t1.subrange(a, t1.len() as int) =~= r1.skip(1));
    assert(t2.subrange(b, t2.len() as int) =~= r2.skip(1));
    lemma_type_end_shift(t1, a, t2, b, 1);
    let j1 = spec_type_end(t1, a, a + 1)->0;
    let j2 = spec_type_end(t2, b, b + 1)->0;
    assert(j2 == j1 - a + b);
    lemma_type_end_range(t1, a, a + 1);
    assert(t1[j1 + 1] == r1[j1 + 1 - (v1 + 1)]);
    assert(t2[j2 + 1] == r2[j2 + 1 - (v2 + 1)]);
    assert(t1.subrange(j1 + 1, j1 + 2) =~= t2.subrange(j2 + 1, j2 + 2)) by {
        assert(t1.subrange(j1 + 1, j1 + 2) =~= r1.subrange(j1 - v1, j1 - v1 + 1));
        assert(t2.subrange(j2 + 1, j2 + 2) =~= r2.subrange(j2 - v2, j2 - v2 + 1));
    }
    assert(t1.subrange(a, j1) =~= t2.subrange(b, j2)) by {
        assert(t1.subrange(a, j1) =~= r1.subrange(1, j1 - v1 - 1));
        assert(t2.subrange(b, j2) =~= r2.subrange(1, j2 - v2 - 1));
    }
    assert(t1.subrange(j1 + 2, t1.len() - 1) =~= t2.subrange(j2 + 2, t2.len() - 1)) by {
        assert(t1.subrange(j1 + 2, t1.len() - 1) =~= r1.subrange(j1 + 1 - v1, r1.len() - 1));
        assert(t2.subrange(j2 + 2, t2.len() - 1) =~= r2.subrange(j2 + 1 - v2, r2.len() - 1));
    }
    assert(d1.data_type == d2.data_type);
    assert(d1.symbol_name == d2.symbol_name);
    assert(d1.generics == d2.generics);
}

} // verus!
