use vstd::prelude::*;

use crate::tokens::{toks_view, Delim, Tok, TokView};

verus! {

/// The kind of a generic parameter, with the name of a type parameter.
pub enum GenericParamKind {
    Type(String),
    Lifetime,
    Const,
}

/// The view of a generic parameter kind.
pub enum ParamKindView {
    Type(Seq<char>),
    Lifetime,
    Const,
}

impl View for GenericParamKind {
    type V = ParamKindView;

    open spec fn view(&self) -> ParamKindView {
        match self {
            GenericParamKind::Type(s) => ParamKindView::Type(s@),
            GenericParamKind::Lifetime => ParamKindView::Lifetime,
            GenericParamKind::Const => ParamKindView::Const,
        }
    }
}

/// The views of a list of generic parameter kinds.
pub open spec fn params_view(v: Seq<GenericParamKind>) -> Seq<ParamKindView> {
    v.map_values(|k: GenericParamKind| k@)
}

/// Whether `syn` parses the whole text as a `syn::Visibility`.
pub uninterp spec fn syn_parses_visibility(text: Seq<char>) -> bool;

/// Whether `syn` parses the whole text as a `syn::Ident` (an identifier that is not a keyword).
pub uninterp spec fn syn_parses_ident(text: Seq<char>) -> bool;

/// Whether `syn` parses the whole text as a `syn::Type`.
pub uninterp spec fn syn_parses_type(text: Seq<char>) -> bool;

/// Whether `syn` parses the whole text as a `syn::Block`.
pub uninterp spec fn syn_parses_block(text: Seq<char>) -> bool;

/// The kinds of the parameters of the `syn::Generics` that `syn` parses from the whole text,
/// or `None` where it does not parse.
pub uninterp spec fn syn_generic_params(text: Seq<char>) -> Option<Seq<ParamKindView>>;

/// The token trees of the `impl` generics (`split_for_impl().0`) of the `syn::Generics` parsed
/// from the whole text, or `None` where it does not parse.
pub uninterp spec fn syn_impl_generics(text: Seq<char>) -> Option<Seq<TokView>>;

/// The token trees of the type generics (`split_for_impl().1`) of the `syn::Generics` parsed
/// from the whole text, or `None` where it does not parse.
pub uninterp spec fn syn_ty_generics(text: Seq<char>) -> Option<Seq<TokView>>;

/// The token trees that `syn` prints (`to_tokens`) for the `syn::Generics` parsed from the
/// whole text, or `None` where it does not parse.
pub uninterp spec fn syn_printed_generics(text: Seq<char>) -> Option<Seq<TokView>>;

/// The token trees that `syn` prints (`to_tokens`) for the `syn::Type` parsed from the whole
/// text, or `None` where it does not parse.
pub uninterp spec fn syn_printed_type(text: Seq<char>) -> Option<Seq<TokView>>;

/// Whether `syn` parses the whole text as a `syn::File`.
pub uninterp spec fn syn_parses_file(text: Seq<char>) -> bool;

/// `proc_macro2::TokenStream`, carried opaquely.
#[verifier::external_type_specification]
#[verifier::external_body]
pub struct ExTokenStream(proc_macro2::TokenStream);

/// Turns each token tree of a `proc_macro2::TokenStream` into a `Tok`, one for one: an
/// identifier or literal by its spelling, a punctuation character with whether it is joint,
/// a group by its delimiter and its converted contents. Nothing is stated of the result, as the
/// stream is opaque; the generics calls below name what they give.
#[verifier::external_body]
fn tokens_of(stream: proc_macro2::TokenStream) -> Vec<Tok> {
    stream.into_iter().map(|tree| match tree {
        proc_macro2::TokenTree::Ident(i) => Tok::Ident(i.to_string()),
        proc_macro2::TokenTree::Punct(p) => Tok::Punct(p.as_char(), matches!(p.spacing(), proc_macro2::Spacing::Joint)),
        proc_macro2::TokenTree::Literal(l) => Tok::Literal(l.to_string()),
        proc_macro2::TokenTree::Group(g) => Tok::Group(match g.delimiter() {
            proc_macro2::Delimiter::Parenthesis => Delim::Paren,
            proc_macro2::Delimiter::Brace => Delim::Brace,
            proc_macro2::Delimiter::Bracket => Delim::Bracket,
            proc_macro2::Delimiter::None => Delim::Invisible,
        }, tokens_of(g.stream())),
    }).collect()
}

/// Calls `syn::parse_str::<syn::Visibility>` and says whether it succeeded; the result is
/// named, not described.
#[verifier::external_body]
pub(crate) fn parses_visibility(text: &String) -> (res: bool)
    ensures
        res == syn_parses_visibility(text@),
{
    syn::parse_str::<syn::Visibility>(text.as_str()).is_ok()
}

/// Calls `syn::parse_str::<syn::Ident>` and says whether it succeeded; the result is named,
/// not described.
#[verifier::external_body]
pub(crate) fn parses_ident(text: &String) -> (res: bool)
    ensures
        res == syn_parses_ident(text@),
{
    syn::parse_str::<syn::Ident>(text.as_str()).is_ok()
}

/// Calls `syn::parse_str::<syn::Type>` and says whether it succeeded; the result is named,
/// not described.
#[verifier::external_body]
pub(crate) fn parses_type(text: &String) -> (res: bool)
    ensures
        res == syn_parses_type(text@),
{
    syn::parse_str::<syn::Type>(text.as_str()).is_ok()
}

/// Calls `syn::parse_str::<syn::Block>` and says whether it succeeded; the result is named,
/// not described.
#[verifier::external_body]
pub(crate) fn parses_block(text: &String) -> (res: bool)
    ensures
        res == syn_parses_block(text@),
{
    syn::parse_str::<syn::Block>(text.as_str()).is_ok()
}

/// Calls `syn::parse_str::<syn::Generics>` and gives the kind of each parameter (with the
/// name of each type parameter), in order; the result is named, not described.
#[verifier::external_body]
pub(crate) fn generic_params(text: &String) -> (res: Option<Vec<GenericParamKind>>)
    ensures
        res matches Some(v) ==> syn_generic_params(text@) == Some(params_view(v@)),
        res is None ==> syn_generic_params(text@) is None,
{
    syn::parse_str::<syn::Generics>(text.as_str()).ok().map(|g| g.params.iter().map(|p| match p {
        syn::GenericParam::Type(t) => GenericParamKind::Type(t.ident.to_string()),
        syn::GenericParam::Lifetime(_) => GenericParamKind::Lifetime,
        syn::GenericParam::Const(_) => GenericParamKind::Const,
    }).collect())
}

/// Calls `syn::parse_str::<syn::Generics>` and gives the token trees of the `impl` generics of
/// `split_for_impl`; the result is named, not described.
#[verifier::external_body]
pub(crate) fn impl_generics(text: &String) -> (res: Option<Vec<Tok>>)
    ensures
        res matches Some(v) ==> syn_impl_generics(text@) == Some(toks_view(v@)),
        res is None ==> syn_impl_generics(text@) is None,
{
    syn::parse_str::<syn::Generics>(text.as_str()).ok().map(|g| tokens_of(quote::ToTokens::to_token_stream(&g.split_for_impl().0)))
}

/// Calls `syn::parse_str::<syn::Generics>` and gives the token trees of the type generics of
/// `split_for_impl`; the result is named, not described.
#[verifier::external_body]
pub(crate) fn ty_generics(text: &String) -> (res: Option<Vec<Tok>>)
    ensures
        res matches Some(v) ==> syn_ty_generics(text@) == Some(toks_view(v@)),
        res is None ==> syn_ty_generics(text@) is None,
{
    syn::parse_str::<syn::Generics>(text.as_str()).ok().map(|g| tokens_of(quote::ToTokens::to_token_stream(&g.split_for_impl().1)))
}

/// Calls `syn::parse_str::<syn::File>` and says whether it succeeded; the result is named, not
/// described.
#[verifier::external_body]
pub(crate) fn parses_file(text: &String) -> (res: bool)
    ensures
        res == syn_parses_file(text@),
{
    syn::parse_str::<syn::File>(text.as_str()).is_ok()
}

/// Calls `syn::parse_str::<syn::Generics>` and gives the token trees that the parsed generics
/// print as (`ToTokens::to_token_stream`); the result is named, not described.
#[verifier::external_body]
pub(crate) fn printed_generics(text: &String) -> (res: Option<Vec<Tok>>)
    ensures
        res matches Some(v) ==> syn_printed_generics(text@) == Some(toks_view(v@)),
        res is None ==> syn_printed_generics(text@) is None,
{
    syn::parse_str::<syn::Generics>(text.as_str()).ok().map(|g| tokens_of(quote::ToTokens::to_token_stream(&g)))
}

/// Calls `syn::parse_str::<syn::Type>` and gives the token trees that the parsed type prints as
/// (`ToTokens::to_token_stream`); the result is named, not described.
#[verifier::external_body]
pub(crate) fn printed_type(text: &String) -> (res: Option<Vec<Tok>>)
    ensures
        res matches Some(v) ==> syn_printed_type(text@) == Some(toks_view(v@)),
        res is None ==> syn_printed_type(text@) is None,
{
    syn::parse_str::<syn::Type>(text.as_str()).ok().map(|t| tokens_of(quote::ToTokens::to_token_stream(&t)))
}

} // verus!
