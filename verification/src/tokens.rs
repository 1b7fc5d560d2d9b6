use vstd::prelude::*;

verus! {

/// The delimiter of a group of tokens.
#[derive(PartialEq, Eq, Structural, Clone, Copy)]
pub enum Delim {
    Paren,
    Brace,
    Bracket,
    Invisible,
}

/// A token tree of macro input or output: an identifier or keyword, a punctuation character
/// (`joint` when it is glued to the next one, as the first `:` of `::`), a literal, or a
/// delimited group of token trees.
pub enum Tok {
    Ident(String),
    Punct(char, bool),
    Literal(String),
    Group(Delim, Vec<Tok>),
}

/// The opening character of a delimiter, as text.
pub open spec fn spec_open(d: Delim) -> Seq<char> {
    match d {
        Delim::Paren => seq!['('],
        Delim::Brace => seq!['{'],
        Delim::Bracket => seq!['['],
        Delim::Invisible => Seq::empty(),
    }
}

/// The closing character of a delimiter, as text.
pub open spec fn spec_close(d: Delim) -> Seq<char> {
    match d {
        Delim::Paren => seq![')'],
        Delim::Brace => seq!['}'],
        Delim::Bracket => seq![']'],
        Delim::Invisible => Seq::empty(),
    }
}

/// What follows a token in text: nothing after a joint punctuation character, a space otherwise.
pub open spec fn spec_sep(t: Tok) -> Seq<char> {
    match t {
        Tok::Punct(_, true) => Seq::empty(),
        _ => seq![' '],
    }
}

/// The text of one token tree.
pub open spec fn spec_tok_text(t: Tok) -> Seq<char>
    decreases t, 0nat,
{
    match t {
        Tok::Ident(s) => s@,
        Tok::Punct(c, _) => seq![c],
        Tok::Literal(s) => s@,
        Tok::Group(d, v) => spec_open(d) + seq![' '] + spec_text(v@) + spec_close(d),
    }
}

/// The text of a sequence of token trees: each token's text followed by its separator.
pub open spec fn spec_text(s: Seq<Tok>) -> Seq<char>
    decreases s, 1nat,
{
    if s.len() == 0 {
        Seq::empty()
    } else {
        spec_tok_text(s[0]) + spec_sep(s[0]) + spec_text(s.subrange(1, s.len() as int))
    }
}

proof fn lemma_text_step(s: Seq<Tok>, i: int, b: int)
    requires
        0 <= i < b <= s.len(),
    ensures
        spec_text(s.subrange(i, b)) == spec_tok_text(s[i]) + spec_sep(s[i]) + spec_text(
            s.subrange(i + 1, b),
        ),
{
    let t = s.subrange(i, b);
    assert(t.subrange(1, t.len() as int) =~= s.subrange(i + 1, b));
}

fn open_text(d: Delim) -> (res: String)
    ensures
        res@ == spec_open(d) + seq![' '],
{
    proof {
        reveal_strlit("( ");
        reveal_strlit("{ ");
        reveal_strlit("[ ");
        reveal_strlit(" ");
    }
    match d {
        Delim::Paren => String::from_str("( "),
        Delim::Brace => String::from_str("{ "),
        Delim::Bracket => String::from_str("[ "),
        Delim::Invisible => String::from_str(" "),
    }
}

fn close_text(d: Delim) -> (res: String)
    ensures
        res@ == spec_close(d),
{
    proof {
        reveal_strlit(")");
        reveal_strlit("}");
        reveal_strlit("]");
        reveal_strlit("");
    }
    match d {
        Delim::Paren => String::from_str(")"),
        Delim::Brace => String::from_str("}"),
        Delim::Bracket => String::from_str("]"),
        Delim::Invisible => String::from_str(""),
    }
}

/// `String::push` appends the given character to the end of the string.
pub assume_specification[ String::push ](string: &mut String, ch: char)
    ensures
        final(string)@ == old(string)@.push(ch),
;

fn char_text(c: char) -> (res: String)
    ensures
        res@ == seq![c],
{
    let mut s = String::new();
    s.push(c);
    s
}

/// The text of one token tree.
pub fn tok_text(t: &Tok) -> (res: String)
    ensures
        res@ == spec_tok_text(*t),
    decreases *t, 0nat,
{
    match t {
        Tok::Ident(s) => s.clone(),
        Tok::Punct(c, _) => char_text(*c),
        Tok::Literal(s) => s.clone(),
        Tok::Group(d, v) => {
            let mut out = open_text(*d);
            let inner = text_of_range(v, 0, v.len());
            assert(v@.subrange(0, v@.len() as int) =~= v@);
            out.append(inner.as_str());
            let close = close_text(*d);
            out.append(close.as_str());
            out
        },
    }
}

/// The text of the token trees `toks[from..to]`.
pub fn text_of_range(toks: &Vec<Tok>, from: usize, to: usize) -> (res: String)
    requires
        from <= to <= toks@.len(),
    ensures
        res@ == spec_text(toks@.subrange(from as int, to as int)),
    decreases toks, 1nat,
{
    let mut out = String::new();
    let mut i = from;
    let ghost s = toks@;
    proof {
        reveal_strlit(" ");
    }
    while i < to
        invariant
            from <= i <= to <= s.len(),
            s == toks@,
            spec_text(s.subrange(from as int, to as int)) == out@ + spec_text(
                s.subrange(i as int, to as int),
            ),
        decreases to - i,
    {
        proof {
            lemma_text_step(s, i as int, to as int);
        }
        assert(decreases_to!(toks => toks@[i as int]));
        let ghost before = out@;
        let piece = tok_text(&toks[i]);
        assert(piece@ == spec_tok_text(s[i as int]));
        out.append(piece.as_str());
        assert(out@ == before + spec_tok_text(s[i as int]));
        match &toks[i] {
            Tok::Punct(_, true) => {
                assert(spec_sep(s[i as int]) =~= Seq::<char>::empty());
                assert(out@ =~= before + spec_tok_text(s[i as int]) + spec_sep(s[i as int]));
            },
            _ => {
                proof {
                    reveal_strlit(" ");
                }
                out.append(" ");
                assert(spec_sep(s[i as int]) =~= seq![' ']);
                assert(out@ =~= before + spec_tok_text(s[i as int]) + spec_sep(s[i as int]));
            },
        }
        assert(out@ + spec_text(s.subrange(i + 1, to as int)) =~= before + (spec_tok_text(s[i as int]) + spec_sep(s[i as int]) + spec_text(s.subrange(i + 1, to as int))));
        i = i + 1;
    }
    assert(s.subrange(to as int, to as int) =~= Seq::<Tok>::empty());
    out
}

/// The view of a token tree: names and literals by their characters.
pub enum TokView {
    Ident(Seq<char>),
    Punct(char, bool),
    Literal(Seq<char>),
    Group(Delim, Seq<TokView>),
}

/// The view of one token tree.
pub open spec fn tok_view(t: Tok) -> TokView
    decreases t, 0nat,
{
    match t {
        Tok::Ident(s) => TokView::Ident(s@),
        Tok::Punct(c, j) => TokView::Punct(c, j),
        Tok::Literal(s) => TokView::Literal(s@),
        Tok::Group(d, v) => TokView::Group(d, toks_view(v@)),
    }
}

/// The views of a sequence of token trees.
pub open spec fn toks_view(s: Seq<Tok>) -> Seq<TokView>
    decreases s, 1nat,
{
    if s.len() == 0 {
        Seq::empty()
    } else {
        seq![tok_view(s[0])] + toks_view(s.subrange(1, s.len() as int))
    }
}

/// What follows a token view in text: nothing after a joint punctuation character, a space
/// otherwise.
pub open spec fn view_sep(t: TokView) -> Seq<char> {
    match t {
        TokView::Punct(_, true) => Seq::empty(),
        _ => seq![' '],
    }
}

/// The text of one token view.
pub open spec fn view_tok_text(t: TokView) -> Seq<char>
    decreases t, 0nat,
{
    match t {
        TokView::Ident(s) => s,
        TokView::Punct(c, _) => seq![c],
        TokView::Literal(s) => s,
        TokView::Group(d, v) => spec_open(d) + seq![' '] + view_text(v) + spec_close(d),
    }
}

/// The text of a sequence of token views: each token's text followed by its separator.
pub open spec fn view_text(s: Seq<TokView>) -> Seq<char>
    decreases s, 1nat,
{
    if s.len() == 0 {
        Seq::empty()
    } else {
        view_tok_text(s[0]) + view_sep(s[0]) + view_text(s.subrange(1, s.len() as int))
    }
}

/// The text of a token tree is the text of its view.
pub proof fn lemma_tok_text_view(t: Tok)
    ensures
        spec_tok_text(t) == view_tok_text(tok_view(t)),
    decreases t, 0nat,
{
    match t {
        Tok::Group(d, v) => {
            lemma_text_view(v@);
        },
        _ => {},
    }
}

/// The text of token trees is the text of their views.
pub proof fn lemma_text_view(s: Seq<Tok>)
    ensures
        spec_text(s) == view_text(toks_view(s)),
    decreases s, 1nat,
{
    if s.len() > 0 {
        let rest = s.subrange(1, s.len() as int);
        lemma_tok_text_view(s[0]);
        lemma_text_view(rest);
        let vs = toks_view(s);
        assert(vs[0] == tok_view(s[0]));
        assert(vs.subrange(1, vs.len() as int) =~= toks_view(rest));
        assert(spec_sep(s[0]) == view_sep(tok_view(s[0])));
    }
}

/// Whether a token tree holds a group without visible delimiters, at any depth.
pub open spec fn tok_has_invisible(t: Tok) -> bool
    decreases t, 0nat,
{
    match t {
        Tok::Group(Delim::Invisible, _) => true,
        Tok::Group(_, v) => has_invisible(v@),
        _ => false,
    }
}

/// Whether a sequence of token trees holds a group without visible delimiters, at any depth.
pub open spec fn has_invisible(s: Seq<Tok>) -> bool
    decreases s, 1nat,
{
    if s.len() == 0 {
        false
    } else {
        tok_has_invisible(s[0]) || has_invisible(s.subrange(1, s.len() as int))
    }
}

/// Only a group whose delimiter is `Delim::Invisible` makes a token tree count as holding an
/// invisible group: identifiers, punctuation and literals never do, an invisible group always
/// does, and a group with visible delimiters (parentheses, braces or brackets) does exactly
/// when its contents do.
pub proof fn lemma_tok_invisible_cases(t: Tok)
    ensures
        (t is Ident || t is Punct || t is Literal) ==> !tok_has_invisible(t),
        t matches Tok::Group(d, v) ==> (tok_has_invisible(t) == (d == Delim::Invisible
            || has_invisible(v@))),
{
}

/// A sequence of token trees holds an invisible group exactly when one of its token trees
/// does; so the empty sequence holds none, and a concatenation holds one exactly when one of
/// its parts does.
pub proof fn lemma_has_invisible_any(s: Seq<Tok>)
    ensures
        has_invisible(s) == exists|i: int| 0 <= i < s.len() && #[trigger] tok_has_invisible(s[i]),
    decreases s.len(),
{
    if s.len() > 0 {
        let rest = s.subrange(1, s.len() as int);
        lemma_has_invisible_any(rest);
        if tok_has_invisible(s[0]) {
            assert(tok_has_invisible(s[0]));
        }
        if has_invisible(rest) {
            let i = choose|i: int| 0 <= i < rest.len() && #[trigger] tok_has_invisible(rest[i]);
            assert(s[i + 1] == rest[i]);
            assert(tok_has_invisible(s[i + 1]));
        }
        if exists|i: int| 0 <= i < s.len() && #[trigger] tok_has_invisible(s[i]) {
            let i = choose|i: int| 0 <= i < s.len() && #[trigger] tok_has_invisible(s[i]);
            if i > 0 {
                assert(rest[i - 1] == s[i]);
            }
        }
    }
}

/// A concatenation holds an invisible group exactly when one of its parts does.
pub proof fn lemma_has_invisible_concat(a: Seq<Tok>, b: Seq<Tok>)
    ensures
        has_invisible(a + b) == (has_invisible(a) || has_invisible(b)),
{
    lemma_has_invisible_any(a);
    lemma_has_invisible_any(b);
    lemma_has_invisible_any(a + b);
    if has_invisible(a) {
        let i = choose|i: int| 0 <= i < a.len() && #[trigger] tok_has_invisible(a[i]);
        assert((a + b)[i] == a[i]);
    }
    if has_invisible(b) {
        let i = choose|i: int| 0 <= i < b.len() && #[trigger] tok_has_invisible(b[i]);
        assert((a + b)[a.len() + i] == b[i]);
    }
    if has_invisible(a + b) {
        let i = choose|i: int| 0 <= i < (a + b).len() && #[trigger] tok_has_invisible((a + b)[i]);
        if i < a.len() {
            assert((a + b)[i] == a[i]);
        } else {
            assert((a + b)[i] == b[i - a.len()]);
        }
    }
}

/// Whether the token tree holds a group without visible delimiters: the text of such a group
/// does not keep it together.
pub fn tok_holds_invisible(t: &Tok) -> (res: bool)
    ensures
        res == tok_has_invisible(*t),
    decreases *t, 0nat,
{
    match t {
        Tok::Group(Delim::Invisible, _) => true,
        Tok::Group(_, v) => holds_invisible(v),
        _ => false,
    }
}

/// Whether the token trees hold a group without visible delimiters, at any depth.
pub fn holds_invisible(toks: &Vec<Tok>) -> (res: bool)
    ensures
        res == has_invisible(toks@),
    decreases toks, 1nat,
{
    let n = toks.len();
    let ghost s = toks@;
    let mut i: usize = 0;
    assert(s.subrange(0, n as int) =~= s);
    while i < n
        invariant
            n == s.len(),
            s == toks@,
            i <= n,
            has_invisible(s) == has_invisible(s.subrange(i as int, n as int)),
        decreases n - i,
    {
        let ghost t = s.subrange(i as int, n as int);
        assert(t[0] == s[i as int]);
        assert(t.subrange(1, t.len() as int) =~= s.subrange(i + 1, n as int));
        assert(decreases_to!(toks => toks@[i as int]));
        if tok_holds_invisible(&toks[i]) {
            return true;
        }
        i = i + 1;
    }
    assert(s.subrange(n as int, n as int) =~= Seq::<Tok>::empty());
    false
}

} // verus!
