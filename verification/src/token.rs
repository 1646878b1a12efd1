//! The token model: the flat lexical alphabet that invocations are read from
//! and generated code is written to.

use vstd::prelude::*;
use vstd::string::*;

verus! {

/// A delimiter kind for bracketed token groups.
#[derive(Clone, Copy, PartialEq, Eq, Structural, Debug)]
pub enum Delim {
    Paren,
    Bracket,
    Brace,
}

/// One lexical token of the host language. Delimiters are kept as individual
/// open and close tokens, so nesting and balance are part of the model and
/// the parser itself checks them.
#[derive(Clone, Debug, PartialEq, Eq)]
pub enum Tok {
    /// An identifier or keyword, with its text.
    Ident(Vec<char>),
    /// A punctuation character; the flag is true when the character is joined
    /// to the following punctuation character (as in the two halves of `->`).
    Punct(char, bool),
    /// A literal, with its text.
    Lit(Vec<char>),
    /// An opening delimiter.
    Open(Delim),
    /// A closing delimiter.
    Close(Delim),
}

/// The mathematical image of one token: identifier and literal text as
/// character sequences.
pub enum TokView {
    Ident(Seq<char>),
    Punct(char, bool),
    Lit(Seq<char>),
    Open(Delim),
    Close(Delim),
}

impl View for Tok {
    type V = TokView;

    open spec fn view(&self) -> TokView {
        match self {
            Tok::Ident(s) => TokView::Ident(s@),
            Tok::Punct(c, j) => TokView::Punct(*c, *j),
            Tok::Lit(s) => TokView::Lit(s@),
            Tok::Open(d) => TokView::Open(*d),
            Tok::Close(d) => TokView::Close(*d),
        }
    }
}

/// The image of a token sequence.
pub open spec fn toks(s: Seq<Tok>) -> Seq<TokView> {
    s.map(|i: int, t: Tok| t@)
}

/// Shorthand for the image of an identifier token.
pub open spec fn tid(s: Seq<char>) -> TokView {
    TokView::Ident(s)
}

/// Shorthand for the image of a lone punctuation token.
pub open spec fn tp(c: char) -> TokView {
    TokView::Punct(c, false)
}

/// Shorthand for the image of a punctuation token joined to the next one.
pub open spec fn tpj(c: char) -> TokView {
    TokView::Punct(c, true)
}

/// Shorthand for the image of an opening delimiter token.
pub open spec fn topen(d: Delim) -> TokView {
    TokView::Open(d)
}

/// Shorthand for the image of a closing delimiter token.
pub open spec fn tclose(d: Delim) -> TokView {
    TokView::Close(d)
}

/// The image of a concatenation is the concatenation of the images.
pub proof fn lemma_toks_app(a: Seq<Tok>, b: Seq<Tok>)
    ensures
        toks(a + b) == toks(a) + toks(b),
{
    assert(toks(a + b) =~= toks(a) + toks(b));
}

/// Copy the characters of a string slice into a vector.
pub fn chars_of(s: &str) -> (out: Vec<char>)
    ensures
        out@ == s@,
{
    let n = s.unicode_len();
    let mut out: Vec<char> = Vec::new();
    let mut i: usize = 0;
    while i < n
        invariant
            n == s@.len(),
            i <= n,
            out@ == s@.subrange(0, i as int),
        decreases n - i,
    {
        let c = s.get_char(i);
        out.push(c);
        i += 1;
        proof {
            assert(out@ =~= s@.subrange(0, i as int));
        }
    }
    proof {
        assert(out@ =~= s@);
    }
    out
}

/// Compare two character vectors for equality of their contents.
pub fn chars_eq(a: &Vec<char>, b: &Vec<char>) -> (r: bool)
    ensures
        r == (a@ == b@),
{
    if a.len() != b.len() {
        return false;
    }
    let mut i: usize = 0;
    while i < a.len()
        invariant
            i <= a@.len(),
            a@.len() == b@.len(),
            forall|k: int| 0 <= k < i ==> a@[k] == b@[k],
        decreases a@.len() - i,
    {
        if a[i] != b[i] {
            return false;
        }
        i += 1;
    }
    proof {
        assert(a@ =~= b@);
    }
    true
}

/// Copy a character vector.
pub fn copy_chars(v: &Vec<char>) -> (out: Vec<char>)
    ensures
        out@ == v@,
{
    let mut out: Vec<char> = Vec::new();
    let mut i: usize = 0;
    while i < v.len()
        invariant
            i <= v@.len(),
            out@ == v@.subrange(0, i as int),
        decreases v@.len() - i,
    {
        out.push(v[i]);
        i += 1;
        proof {
            assert(out@ =~= v@.subrange(0, i as int));
        }
    }
    proof {
        assert(out@ =~= v@);
    }
    out
}

/// Copy one token.
pub fn copy_tok(t: &Tok) -> (out: Tok)
    ensures
        out@ == t@,
{
    match t {
        Tok::Ident(s) => Tok::Ident(copy_chars(s)),
        Tok::Punct(c, j) => Tok::Punct(*c, *j),
        Tok::Lit(s) => Tok::Lit(copy_chars(s)),
        Tok::Open(d) => Tok::Open(*d),
        Tok::Close(d) => Tok::Close(*d),
    }
}

/// Copy the tokens of `v` between positions `from` and `to` onto the end of
/// `out`.
pub fn copy_range(out: &mut Vec<Tok>, v: &Vec<Tok>, from: usize, to: usize)
    requires
        from <= to <= v@.len(),
    ensures
        toks(final(out)@) == toks(old(out)@) + toks(v@).subrange(from as int, to as int),
{
    let mut i: usize = from;
    while i < to
        invariant
            from <= i <= to <= v@.len(),
            out@.len() == old(out)@.len() + i - from,
            forall|k: int| 0 <= k < old(out)@.len() ==> out@[k] == old(out)@[k],
            forall|k: int|
                old(out)@.len() <= k < out@.len() ==> out@[k]@ == v@[from + k - old(out)@.len()]@,
        decreases to - i,
    {
        let t = copy_tok(&v[i]);
        out.push(t);
        i += 1;
    }
    proof {
        assert(toks(out@) =~= toks(old(out)@) + toks(v@).subrange(from as int, to as int));
    }
}

/// Build an identifier token from a string slice.
pub fn ident(s: &str) -> (t: Tok)
    ensures
        t@ == TokView::Ident(s@),
{
    Tok::Ident(chars_of(s))
}

/// Build a literal token from a string slice.
pub fn lit(s: &str) -> (t: Tok)
    ensures
        t@ == TokView::Lit(s@),
{
    Tok::Lit(chars_of(s))
}

/// Build a lone punctuation token.
pub fn punct(c: char) -> (t: Tok)
    ensures
        t@ == TokView::Punct(c, false),
{
    Tok::Punct(c, false)
}

/// Build a punctuation token joined to the next one.
pub fn punct_joint(c: char) -> (t: Tok)
    ensures
        t@ == TokView::Punct(c, true),
{
    Tok::Punct(c, true)
}

} // verus!
