use vstd::prelude::*;

use crate::symbol::spec_ident_at;
use crate::syntax::{parses_block, parses_ident, syn_parses_block};
use crate::tokens::{has_invisible, holds_invisible, spec_text, text_of_range, Delim, Tok};

verus! {

/// A statement of an interface body: a field declaration, by its tokens.
pub enum InterfaceStatement {
    Field(Vec<Tok>),
}

/// An interface declaration `Name { ... }`: its name and its braced block.
pub struct InterfaceDecl {
    pub name: String,
    pub block: Tok,
}

/// Whether a token is a brace-delimited group.
pub open spec fn is_brace_group(t: Tok) -> bool {
    match t {
        Tok::Group(Delim::Brace, _) => true,
        _ => false,
    }
}

/// The interface declaration that the grammar `Ident Block` reads from the tokens: an
/// identifier that `syn` accepts, then a braced group that `syn` parses as a block, and
/// nothing more. The result gives the name. Tokens that hold a group without visible
/// delimiters are refused, as their text does not keep such a group together.
pub open spec fn spec_parse_interface_decl(toks: Seq<Tok>) -> Option<Seq<char>> {
    if !has_invisible(toks) && toks.len() == 2 && is_brace_group(toks[1]) && syn_parses_block(spec_text(toks.subrange(1, 2))) {
        spec_ident_at(toks, 0)
    } else {
        None
    }
}

/// Reads an interface declaration `Name { ... }` from the tokens, or `None` where they do not
/// follow the grammar `Ident Block` or hold a group without visible delimiters.
pub fn parse_interface_decl(tokens: Vec<Tok>) -> (res: Option<InterfaceDecl>)
    ensures
        match res {
            Some(d) => spec_parse_interface_decl(tokens@) == Some(d.name@) && d.block == tokens@[1],
            None => spec_parse_interface_decl(tokens@) is None,
        },
{
    if tokens.len() != 2 || holds_invisible(&tokens) {
        return None;
    }
    let is_brace = match &tokens[1] {
        Tok::Group(Delim::Brace, _) => true,
        _ => false,
    };
    if !is_brace {
        return None;
    }
    let btext = text_of_range(&tokens, 1, 2);
    if !parses_block(&btext) {
        return None;
    }
    let ntext = text_of_range(&tokens, 0, 1);
    if !parses_ident(&ntext) {
        return None;
    }
    let mut tokens = tokens;
    let block = tokens.pop().unwrap();
    let first = tokens.pop().unwrap();
    match first {
        Tok::Ident(name) => Some(InterfaceDecl { name, block }),
        _ => None,
    }
}

} // verus!
