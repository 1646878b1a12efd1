//! The arm-list parser: it recognizes the invocation grammar
//!
//! ```text
//! for [NAME =] EXPR ;
//! match [<GENERICS>] TYPE [where CONSTRAINTS] [-> RETURN_TYPE] { BODY }
//! ...
//! ```
//!
//! over the flat token model and produces the structured arm list, or a
//! structured error that points at the offending token. The specification
//! [`parse_args_spec`] defines the accepted language and the produced
//! structure; the executable parser is proved to agree with it exactly, on
//! every input.

use vstd::prelude::*;
use crate::arms::{arms_views, Args, ArgsView, Arm, ArmView};
use crate::token::{
    chars_eq, chars_of, copy_chars, copy_range, tid, topen, tp, tpj, toks, Delim, Tok, TokView,
};

verus! {

/// The kinds of grammar violation the parser reports.
#[derive(Clone, Copy, PartialEq, Eq, Structural, Debug)]
pub enum ParseErrorKind {
    /// The invocation does not begin with the `for` keyword.
    ExpectedFor,
    /// The subject clause has no tokens between `for` and `;`.
    EmptySubject,
    /// No top-level `;` ends the subject clause.
    MissingSemicolon,
    /// The subject clause is followed by no arm at all.
    NoArms,
    /// An arm does not begin with the `match` keyword.
    ExpectedMatch,
    /// A generic-parameter list is not closed.
    MalformedGenerics,
    /// An arm has no tokens where its type pattern should stand.
    EmptyTypePattern,
    /// An arm has no tokens between `->` and its body.
    EmptyReturnType,
    /// An arm has no brace-delimited body.
    ExpectedBody,
    /// A closing delimiter has no matching opening one, or the reverse.
    UnbalancedDelimiter,
}

/// A structured parse error: the kind of violation and the index of the
/// offending token (the input length when the input ended too soon).
#[derive(Clone, Copy, PartialEq, Eq, Structural, Debug)]
pub struct ParseError {
    pub kind: ParseErrorKind,
    pub pos: usize,
}

/// The mathematical image of a parse error.
pub struct ParseErrorView {
    pub kind: ParseErrorKind,
    pub pos: int,
}

impl View for ParseError {
    type V = ParseErrorView;

    open spec fn view(&self) -> ParseErrorView {
        ParseErrorView { kind: self.kind, pos: self.pos as int }
    }
}

/// Shorthand for a parse error image.
pub open spec fn perr(kind: ParseErrorKind, pos: int) -> ParseErrorView {
    ParseErrorView { kind, pos }
}

/// What the token scanner stops at, at nesting depth zero.
#[derive(Clone, Copy, PartialEq, Eq, Structural, Debug)]
pub enum ScanStop {
    /// A `;`: ends the subject expression.
    Semicolon,
    /// `where`, `->` or `{`: ends a type pattern.
    TypeEnd,
    /// `->` or `{`: ends a constraint clause.
    WhereEnd,
    /// `{`: ends a declared result type.
    ReturnEnd,
    /// The matching `}`: ends a body.
    BodyEnd,
}

/// Whether position `i` starts the two tokens of `->`.
pub open spec fn is_arrow_at(ts: Seq<TokView>, i: int) -> bool {
    ts[i] == tpj('-') && i + 1 < ts.len() && (ts[i + 1] matches TokView::Punct('>', _))
}

/// Whether the scanner, at nesting depth zero, stops at position `i` for
/// the given mode.
pub open spec fn is_stop_at(ts: Seq<TokView>, i: int, stop: ScanStop) -> bool {
    match stop {
        ScanStop::Semicolon => ts[i] matches TokView::Punct(';', _),
        ScanStop::TypeEnd => ts[i] == tid("where"@) || is_arrow_at(ts, i) || ts[i] == topen(
            Delim::Brace,
        ),
        ScanStop::WhereEnd => is_arrow_at(ts, i) || ts[i] == topen(Delim::Brace),
        ScanStop::ReturnEnd => ts[i] == topen(Delim::Brace),
        ScanStop::BodyEnd => ts[i] == crate::token::tclose(Delim::Brace),
    }
}

/// The error kind when the input ends while the scanner is still looking
/// for its stop token.
pub open spec fn scan_eof_kind(stop: ScanStop, stack: Seq<Delim>) -> ParseErrorKind {
    if stack.len() > 0 {
        ParseErrorKind::UnbalancedDelimiter
    } else {
        match stop {
            ScanStop::Semicolon => ParseErrorKind::MissingSemicolon,
            ScanStop::BodyEnd => ParseErrorKind::UnbalancedDelimiter,
            _ => ParseErrorKind::ExpectedBody,
        }
    }
}

/// Scan forward from `i` for the stop token at nesting depth zero,
/// tracking open delimiters on a stack; delimiters must nest properly.
pub open spec fn scan_from(
    ts: Seq<TokView>,
    i: int,
    stack: Seq<Delim>,
    stop: ScanStop,
) -> Result<int, ParseErrorView>
    decreases ts.len() - i,
{
    if i >= ts.len() {
        Err(perr(scan_eof_kind(stop, stack), ts.len() as int))
    } else if stack.len() == 0 && is_stop_at(ts, i, stop) {
        Ok(i)
    } else {
        match ts[i] {
            TokView::Open(d) => scan_from(ts, i + 1, stack.push(d), stop),
            TokView::Close(d) => if stack.len() > 0 && stack.last() == d {
                scan_from(ts, i + 1, stack.drop_last(), stop)
            } else {
                Err(perr(ParseErrorKind::UnbalancedDelimiter, i))
            },
            _ => scan_from(ts, i + 1, stack, stop),
        }
    }
}

/// A successful scan stops at a stop token of the input, at or after where
/// it started.
pub proof fn lemma_scan_from_ok(ts: Seq<TokView>, i: int, stack: Seq<Delim>, stop: ScanStop)
    ensures
        scan_from(ts, i, stack, stop) matches Ok(j) ==> i <= j < ts.len() && is_stop_at(
            ts,
            j,
            stop,
        ),
    decreases ts.len() - i,
{
    if i >= ts.len() {
    } else if stack.len() == 0 && is_stop_at(ts, i, stop) {
    } else {
        match ts[i] {
            TokView::Open(d) => {
                lemma_scan_from_ok(ts, i + 1, stack.push(d), stop);
            },
            TokView::Close(d) => {
                if stack.len() > 0 && stack.last() == d {
                    lemma_scan_from_ok(ts, i + 1, stack.drop_last(), stop);
                }
            },
            _ => {
                lemma_scan_from_ok(ts, i + 1, stack, stop);
            },
        }
    }
}

/// Scan a generic-parameter list from just after its opening `<` to the
/// matching `>`, at angle depth `angle`: angle brackets nest, the two
/// tokens of an `->` inside the list are skipped as a pair, and ordinary
/// delimiters must nest properly (angles inside them are left alone).
pub open spec fn scan_generics_from(
    ts: Seq<TokView>,
    i: int,
    angle: nat,
    stack: Seq<Delim>,
) -> Result<int, ParseErrorView>
    decreases ts.len() - i,
{
    if i >= ts.len() {
        Err(perr(ParseErrorKind::MalformedGenerics, ts.len() as int))
    } else {
        match ts[i] {
            TokView::Open(d) => scan_generics_from(ts, i + 1, angle, stack.push(d)),
            TokView::Close(d) => if stack.len() > 0 && stack.last() == d {
                scan_generics_from(ts, i + 1, angle, stack.drop_last())
            } else {
                Err(perr(ParseErrorKind::UnbalancedDelimiter, i))
            },
            TokView::Punct(c, j) => if stack.len() == 0 {
                if c == '-' && j && i + 1 < ts.len() && (
                ts[i + 1] matches TokView::Punct('>', _)) {
                    scan_generics_from(ts, i + 2, angle, stack)
                } else if c == '<' {
                    scan_generics_from(ts, i + 1, angle + 1, stack)
                } else if c == '>' {
                    if angle == 1 {
                        Ok(i)
                    } else {
                        scan_generics_from(ts, i + 1, (angle - 1) as nat, stack)
                    }
                } else {
                    scan_generics_from(ts, i + 1, angle, stack)
                }
            } else {
                scan_generics_from(ts, i + 1, angle, stack)
            },
            _ => scan_generics_from(ts, i + 1, angle, stack),
        }
    }
}

/// A successful generics scan stops at the closing `>`, at or after where
/// it started.
pub proof fn lemma_scan_generics_ok(ts: Seq<TokView>, i: int, angle: nat, stack: Seq<Delim>)
    ensures
        scan_generics_from(ts, i, angle, stack) matches Ok(j) ==> i <= j < ts.len() && (ts[j]
            matches TokView::Punct('>', _)),
    decreases ts.len() - i,
{
    if i >= ts.len() {
    } else {
        match ts[i] {
            TokView::Open(d) => {
                lemma_scan_generics_ok(ts, i + 1, angle, stack.push(d));
            },
            TokView::Close(d) => {
                if stack.len() > 0 && stack.last() == d {
                    lemma_scan_generics_ok(ts, i + 1, angle, stack.drop_last());
                }
            },
            TokView::Punct(c, j) => {
                if stack.len() == 0 {
                    if c == '-' && j && i + 1 < ts.len() && (
                    ts[i + 1] matches TokView::Punct('>', _)) {
                        lemma_scan_generics_ok(ts, i + 2, angle, stack);
                    } else if c == '<' {
                        lemma_scan_generics_ok(ts, i + 1, angle + 1, stack);
                    } else if c == '>' {
                        if angle != 1 {
                            lemma_scan_generics_ok(ts, i + 1, (angle - 1) as nat, stack);
                        }
                    } else {
                        lemma_scan_generics_ok(ts, i + 1, angle, stack);
                    }
                } else {
                    lemma_scan_generics_ok(ts, i + 1, angle, stack);
                }
            },
            _ => {
                lemma_scan_generics_ok(ts, i + 1, angle, stack);
            },
        }
    }
}

/// Parse the optional generic-parameter list of an arm: the tokens between
/// `<` and its matching `>`, if the next token opens one.
pub open spec fn parse_generics_at(ts: Seq<TokView>, i: int) -> Result<
    (Option<Seq<TokView>>, int),
    ParseErrorView,
> {
    if i < ts.len() && (ts[i] matches TokView::Punct('<', _)) {
        match scan_generics_from(ts, i + 1, 1, Seq::empty()) {
            Ok(g) => Ok((Some(ts.subrange(i + 1, g)), g + 1)),
            Err(e) => Err(e),
        }
    } else {
        Ok((None, i))
    }
}

/// Parse the type pattern of an arm: the tokens up to the first top-level
/// `where`, `->` or `{`; there must be at least one.
pub open spec fn parse_ty_at(ts: Seq<TokView>, i: int) -> Result<
    (Seq<TokView>, int),
    ParseErrorView,
> {
    match scan_from(ts, i, Seq::empty(), ScanStop::TypeEnd) {
        Ok(te) => if te == i {
            Err(perr(ParseErrorKind::EmptyTypePattern, i))
        } else {
            Ok((ts.subrange(i, te), te))
        },
        Err(e) => Err(e),
    }
}

/// Parse the optional constraint clause of an arm: the tokens after
/// `where`, up to the first top-level `->` or `{`.
pub open spec fn parse_where_at(ts: Seq<TokView>, i: int) -> Result<
    (Option<Seq<TokView>>, int),
    ParseErrorView,
> {
    if i < ts.len() && ts[i] == tid("where"@) {
        match scan_from(ts, i + 1, Seq::empty(), ScanStop::WhereEnd) {
            Ok(we) => Ok((Some(ts.subrange(i + 1, we)), we)),
            Err(e) => Err(e),
        }
    } else {
        Ok((None, i))
    }
}

/// Parse the optional declared result type of an arm: the tokens after
/// `->`, up to the first top-level `{`; there must be at least one.
pub open spec fn parse_ret_at(ts: Seq<TokView>, i: int) -> Result<
    (Option<Seq<TokView>>, int),
    ParseErrorView,
> {
    if is_arrow_at(ts, i) {
        match scan_from(ts, i + 2, Seq::empty(), ScanStop::ReturnEnd) {
            Ok(re) => if re == i + 2 {
                Err(perr(ParseErrorKind::EmptyReturnType, i + 2))
            } else {
                Ok((Some(ts.subrange(i + 2, re)), re))
            },
            Err(e) => Err(e),
        }
    } else {
        Ok((None, i))
    }
}

/// Parse the brace-delimited body of an arm; the result's second component
/// is the position just after the closing brace.
pub open spec fn parse_body_at(ts: Seq<TokView>, i: int) -> Result<
    (Seq<TokView>, int),
    ParseErrorView,
> {
    if i < ts.len() && ts[i] == topen(Delim::Brace) {
        match scan_from(ts, i + 1, Seq::empty(), ScanStop::BodyEnd) {
            Ok(be) => Ok((ts.subrange(i + 1, be), be + 1)),
            Err(e) => Err(e),
        }
    } else {
        Err(perr(ParseErrorKind::ExpectedBody, i))
    }
}

/// Parse one arm starting at its `match` keyword; the result's second
/// component is the position just after the arm's body.
pub open spec fn parse_arm_at(ts: Seq<TokView>, i: int) -> Result<
    (ArmView, int),
    ParseErrorView,
> {
    if i >= ts.len() || ts[i] != tid("match"@) {
        Err(perr(ParseErrorKind::ExpectedMatch, i))
    } else {
        match parse_generics_at(ts, i + 1) {
            Err(e) => Err(e),
            Ok((generics, i2)) => match parse_ty_at(ts, i2) {
                Err(e) => Err(e),
                Ok((ty, i3)) => match parse_where_at(ts, i3) {
                    Err(e) => Err(e),
                    Ok((where_clause, i4)) => match parse_ret_at(ts, i4) {
                        Err(e) => Err(e),
                        Ok((return_type, i5)) => match parse_body_at(ts, i5) {
                            Err(e) => Err(e),
                            Ok((body, j)) => Ok(
                                (ArmView { generics, ty, where_clause, return_type, body }, j),
                            ),
                        },
                    },
                },
            },
        }
    }
}

/// A successfully parsed arm ends strictly after where it started, within
/// the input.
pub proof fn lemma_parse_arm_ok(ts: Seq<TokView>, i: int)
    ensures
        parse_arm_at(ts, i) matches Ok(p) ==> i < p.1 <= ts.len(),
{
    if i < ts.len() && ts[i] == tid("match"@) {
        lemma_scan_generics_ok(ts, i + 2, 1, Seq::empty());
        if let Ok((generics, i2)) = parse_generics_at(ts, i + 1) {
            lemma_scan_from_ok(ts, i2, Seq::empty(), ScanStop::TypeEnd);
            if let Ok((ty, i3)) = parse_ty_at(ts, i2) {
                lemma_scan_from_ok(ts, i3 + 1, Seq::empty(), ScanStop::WhereEnd);
                if let Ok((wc, i4)) = parse_where_at(ts, i3) {
                    lemma_scan_from_ok(ts, i4 + 2, Seq::empty(), ScanStop::ReturnEnd);
                    if let Ok((rt, i5)) = parse_ret_at(ts, i4) {
                        lemma_scan_from_ok(ts, i5 + 1, Seq::empty(), ScanStop::BodyEnd);
                    }
                }
            }
        }
    }
}

/// Parse the arm list from position `i` to the end of the input: one or
/// more arms, each beginning with `match`.
pub open spec fn parse_arms_at(ts: Seq<TokView>, i: int) -> Result<Seq<ArmView>, ParseErrorView>
    decreases ts.len() - i,
    via parse_arms_at_dec
{
    match parse_arm_at(ts, i) {
        Err(e) => Err(e),
        Ok((arm, k)) => if k >= ts.len() {
            Ok(seq![arm])
        } else {
            match parse_arms_at(ts, k) {
                Ok(rest) => Ok(seq![arm] + rest),
                Err(e) => Err(e),
            }
        },
    }
}

#[via_fn]
proof fn parse_arms_at_dec(ts: Seq<TokView>, i: int) {
    lemma_parse_arm_ok(ts, i);
}

/// Parse a whole invocation: `for`, an optional `NAME =`, the subject
/// expression up to a top-level `;`, and at least one arm.
pub open spec fn parse_args_spec(ts: Seq<TokView>) -> Result<ArgsView, ParseErrorView> {
    if ts.len() == 0 || ts[0] != tid("for"@) {
        Err(perr(ParseErrorKind::ExpectedFor, 0))
    } else {
        let named = ts.len() >= 3 && (ts[1] matches TokView::Ident(_)) && ts[2] == tp('=');
        let name = if named {
            match ts[1] {
                TokView::Ident(x) => Some(x),
                _ => None,
            }
        } else {
            None
        };
        let es: int = if named {
            3
        } else {
            1
        };
        match scan_from(ts, es, Seq::empty(), ScanStop::Semicolon) {
            Err(e) => Err(e),
            Ok(semi) => if semi == es {
                Err(perr(ParseErrorKind::EmptySubject, es))
            } else if semi + 1 >= ts.len() {
                Err(perr(ParseErrorKind::NoArms, semi + 1))
            } else {
                match parse_arms_at(ts, semi + 1) {
                    Ok(arms) => Ok(ArgsView { name, expr: ts.subrange(es, semi), arms }),
                    Err(e) => Err(e),
                }
            },
        }
    }
}

/// The image of an optional token vector.
pub open spec fn opt_toks(o: Option<Vec<Tok>>) -> Option<Seq<TokView>> {
    match o {
        Some(v) => Some(toks(v@)),
        None => None,
    }
}

/// Copy the tokens of `ts` between `a` and `b` into a fresh vector.
fn slice_toks(ts: &Vec<Tok>, a: usize, b: usize) -> (out: Vec<Tok>)
    requires
        a <= b <= ts@.len(),
    ensures
        toks(out@) == toks(ts@).subrange(a as int, b as int),
{
    let mut out: Vec<Tok> = Vec::new();
    copy_range(&mut out, ts, a, b);
    proof {
        assert(toks(out@) =~= toks(ts@).subrange(a as int, b as int));
    }
    out
}

/// Whether token `i` is the identifier `kw`.
fn is_kw(ts: &Vec<Tok>, i: usize, kw: &str) -> (r: bool)
    requires
        i < ts@.len(),
    ensures
        r == (toks(ts@)[i as int] == tid(kw@)),
{
    proof {
        assert(toks(ts@)[i as int] == ts@[i as int]@);
    }
    match &ts[i] {
        Tok::Ident(s) => {
            let k = chars_of(kw);
            chars_eq(s, &k)
        },
        _ => false,
    }
}

/// Whether position `i` starts the two tokens of `->`.
fn is_arrow(ts: &Vec<Tok>, i: usize) -> (r: bool)
    requires
        i < ts@.len(),
    ensures
        r == is_arrow_at(toks(ts@), i as int),
{
    proof {
        assert(toks(ts@)[i as int] == ts@[i as int]@);
    }
    let first = match &ts[i] {
        Tok::Punct(c, j) => *c == '-' && *j,
        _ => false,
    };
    if !first {
        return false;
    }
    let n = ts.len();
    if i >= n - 1 {
        return false;
    }
    proof {
        assert(toks(ts@)[i as int + 1] == ts@[i as int + 1]@);
    }
    match &ts[i + 1] {
        Tok::Punct(c, _) => *c == '>',
        _ => false,
    }
}

/// Whether token `i` is an opening brace.
fn is_open_brace(ts: &Vec<Tok>, i: usize) -> (r: bool)
    requires
        i < ts@.len(),
    ensures
        r == (toks(ts@)[i as int] == topen(Delim::Brace)),
{
    proof {
        assert(toks(ts@)[i as int] == ts@[i as int]@);
    }
    match &ts[i] {
        Tok::Open(d) => *d == Delim::Brace,
        _ => false,
    }
}

/// Whether the scanner stops at token `i` in the given mode.
fn is_stop_tok(ts: &Vec<Tok>, i: usize, stop: ScanStop) -> (r: bool)
    requires
        i < ts@.len(),
    ensures
        r == is_stop_at(toks(ts@), i as int, stop),
{
    proof {
        assert(toks(ts@)[i as int] == ts@[i as int]@);
    }
    match stop {
        ScanStop::Semicolon => match &ts[i] {
            Tok::Punct(c, _) => *c == ';',
            _ => false,
        },
        ScanStop::TypeEnd => {
            if is_kw(ts, i, "where") {
                true
            } else if is_arrow(ts, i) {
                true
            } else {
                is_open_brace(ts, i)
            }
        },
        ScanStop::WhereEnd => {
            if is_arrow(ts, i) {
                true
            } else {
                is_open_brace(ts, i)
            }
        },
        ScanStop::ReturnEnd => is_open_brace(ts, i),
        ScanStop::BodyEnd => match &ts[i] {
            Tok::Close(d) => *d == Delim::Brace,
            _ => false,
        },
    }
}

/// The scanner: agrees exactly with [`scan_from`] started on an empty
/// stack.
fn scan(ts: &Vec<Tok>, start: usize, stop: ScanStop) -> (r: Result<usize, ParseError>)
    requires
        start <= ts@.len(),
    ensures
        (match (r, scan_from(toks(ts@), start as int, Seq::<Delim>::empty(), stop)) {
            (Ok(j), Ok(sj)) => j as int == sj,
            (Err(e), Err(se)) => e@ == se,
            _ => false,
        }),
{
    let ghost t = toks(ts@);
    let mut i: usize = start;
    let mut stack: Vec<Delim> = Vec::new();
    loop
        invariant
            t == toks(ts@),
            start <= i,
            i <= t.len(),
            t.len() == ts@.len(),
            scan_from(t, start as int, Seq::<Delim>::empty(), stop) == scan_from(
                t,
                i as int,
                stack@,
                stop,
            ),
        decreases t.len() - i,
    {
        if i >= ts.len() {
            let kind = if stack.len() > 0 {
                ParseErrorKind::UnbalancedDelimiter
            } else {
                match stop {
                    ScanStop::Semicolon => ParseErrorKind::MissingSemicolon,
                    ScanStop::BodyEnd => ParseErrorKind::UnbalancedDelimiter,
                    _ => ParseErrorKind::ExpectedBody,
                }
            };
            return Err(ParseError { kind, pos: ts.len() });
        }
        let stop_here = if stack.len() == 0 {
            is_stop_tok(ts, i, stop)
        } else {
            false
        };
        if stop_here {
            return Ok(i);
        }
        proof {
            assert(t[i as int] == ts@[i as int]@);
        }
        let ghost pre_stack = stack@;
        match &ts[i] {
            Tok::Open(d) => {
                stack.push(*d);
                i += 1;
            },
            Tok::Close(d) => {
                let matched = stack.len() > 0 && stack[stack.len() - 1] == *d;
                if matched {
                    let _ = stack.pop();
                    i += 1;
                    proof {
                        assert(stack@ =~= pre_stack.drop_last());
                    }
                } else {
                    return Err(
                        ParseError { kind: ParseErrorKind::UnbalancedDelimiter, pos: i },
                    );
                }
            },
            _ => {
                i += 1;
            },
        }
    }
}

/// The generics scanner: agrees exactly with [`scan_generics_from`]
/// started at angle depth one on an empty stack.
fn scan_generics(ts: &Vec<Tok>, start: usize) -> (r: Result<usize, ParseError>)
    requires
        1 <= start <= ts@.len(),
    ensures
        (match (r, scan_generics_from(toks(ts@), start as int, 1, Seq::<Delim>::empty())) {
            (Ok(j), Ok(sj)) => j as int == sj,
            (Err(e), Err(se)) => e@ == se,
            _ => false,
        }),
{
    let ghost t = toks(ts@);
    let mut i: usize = start;
    let mut angle: usize = 1;
    let mut stack: Vec<Delim> = Vec::new();
    loop
        invariant
            t == toks(ts@),
            start <= i,
            i <= t.len(),
            t.len() == ts@.len(),
            1 <= angle,
            angle <= i,
            scan_generics_from(t, start as int, 1, Seq::<Delim>::empty())
                == scan_generics_from(t, i as int, angle as nat, stack@),
        decreases t.len() - i,
    {
        if i >= ts.len() {
            return Err(
                ParseError { kind: ParseErrorKind::MalformedGenerics, pos: ts.len() },
            );
        }
        proof {
            assert(t[i as int] == ts@[i as int]@);
        }
        let ghost pre_stack = stack@;
        match &ts[i] {
            Tok::Open(d) => {
                stack.push(*d);
                i += 1;
            },
            Tok::Close(d) => {
                let matched = stack.len() > 0 && stack[stack.len() - 1] == *d;
                if matched {
                    let _ = stack.pop();
                    i += 1;
                    proof {
                        assert(stack@ =~= pre_stack.drop_last());
                    }
                } else {
                    return Err(
                        ParseError { kind: ParseErrorKind::UnbalancedDelimiter, pos: i },
                    );
                }
            },
            Tok::Punct(c, j) => {
                if stack.len() == 0 {
                    if *c == '-' && *j && is_arrow(ts, i) {
                        i += 2;
                    } else if *c == '<' {
                        angle += 1;
                        i += 1;
                    } else if *c == '>' {
                        if angle == 1 {
                            return Ok(i);
                        } else {
                            angle -= 1;
                            i += 1;
                        }
                    } else {
                        i += 1;
                    }
                } else {
                    i += 1;
                }
            },
            _ => {
                i += 1;
            },
        }
    }
}

/// Parse the optional generic-parameter list of an arm.
fn parse_generics(ts: &Vec<Tok>, i: usize) -> (r: Result<(Option<Vec<Tok>>, usize), ParseError>)
    requires
        1 <= i <= ts@.len(),
    ensures
        (match (r, parse_generics_at(toks(ts@), i as int)) {
            (Ok((g, j)), Ok(p)) => opt_toks(g) == p.0 && j as int == p.1 && j <= ts@.len(),
            (Err(e), Err(se)) => e@ == se,
            _ => false,
        }),
{
    let ghost t = toks(ts@);
    let mut open_angle = false;
    if i < ts.len() {
        proof {
            assert(t[i as int] == ts@[i as int]@);
        }
        open_angle = match &ts[i] {
            Tok::Punct(c, _) => *c == '<',
            _ => false,
        };
    }
    if !open_angle {
        return Ok((None, i));
    }
    match scan_generics(ts, i + 1) {
        Ok(g) => {
            proof {
                lemma_scan_generics_ok(t, i as int + 1, 1, Seq::empty());
            }
            let v = slice_toks(ts, i + 1, g);
            Ok((Some(v), g + 1))
        },
        Err(e) => Err(e),
    }
}

/// Parse the type pattern of an arm.
fn parse_ty(ts: &Vec<Tok>, i: usize) -> (r: Result<(Vec<Tok>, usize), ParseError>)
    requires
        i <= ts@.len(),
    ensures
        (match (r, parse_ty_at(toks(ts@), i as int)) {
            (Ok((ty, j)), Ok(p)) => toks(ty@) == p.0 && j as int == p.1 && j <= ts@.len(),
            (Err(e), Err(se)) => e@ == se,
            _ => false,
        }),
{
    let ghost t = toks(ts@);
    match scan(ts, i, ScanStop::TypeEnd) {
        Ok(te) => {
            proof {
                lemma_scan_from_ok(t, i as int, Seq::empty(), ScanStop::TypeEnd);
            }
            if te == i {
                Err(ParseError { kind: ParseErrorKind::EmptyTypePattern, pos: i })
            } else {
                let v = slice_toks(ts, i, te);
                Ok((v, te))
            }
        },
        Err(e) => Err(e),
    }
}

/// Parse the optional constraint clause of an arm.
fn parse_where(ts: &Vec<Tok>, i: usize) -> (r: Result<(Option<Vec<Tok>>, usize), ParseError>)
    requires
        i <= ts@.len(),
    ensures
        (match (r, parse_where_at(toks(ts@), i as int)) {
            (Ok((w, j)), Ok(p)) => opt_toks(w) == p.0 && j as int == p.1 && j <= ts@.len(),
            (Err(e), Err(se)) => e@ == se,
            _ => false,
        }),
{
    let ghost t = toks(ts@);
    let has_where = if i < ts.len() {
        is_kw(ts, i, "where")
    } else {
        false
    };
    if !has_where {
        return Ok((None, i));
    }
    match scan(ts, i + 1, ScanStop::WhereEnd) {
        Ok(we) => {
            proof {
                lemma_scan_from_ok(t, i as int + 1, Seq::empty(), ScanStop::WhereEnd);
            }
            let v = slice_toks(ts, i + 1, we);
            Ok((Some(v), we))
        },
        Err(e) => Err(e),
    }
}

/// Parse the optional declared result type of an arm.
fn parse_ret(ts: &Vec<Tok>, i: usize) -> (r: Result<(Option<Vec<Tok>>, usize), ParseError>)
    requires
        i <= ts@.len(),
    ensures
        (match (r, parse_ret_at(toks(ts@), i as int)) {
            (Ok((rt, j)), Ok(p)) => opt_toks(rt) == p.0 && j as int == p.1 && j <= ts@.len(),
            (Err(e), Err(se)) => e@ == se,
            _ => false,
        }),
{
    let ghost t = toks(ts@);
    let arrow_here = if i < ts.len() {
        is_arrow(ts, i)
    } else {
        false
    };
    if !arrow_here {
        return Ok((None, i));
    }
    match scan(ts, i + 2, ScanStop::ReturnEnd) {
        Ok(re) => {
            proof {
                lemma_scan_from_ok(t, i as int + 2, Seq::empty(), ScanStop::ReturnEnd);
            }
            if re == i + 2 {
                Err(ParseError { kind: ParseErrorKind::EmptyReturnType, pos: i + 2 })
            } else {
                let v = slice_toks(ts, i + 2, re);
                Ok((Some(v), re))
            }
        },
        Err(e) => Err(e),
    }
}

/// Parse the brace-delimited body of an arm.
fn parse_body(ts: &Vec<Tok>, i: usize) -> (r: Result<(Vec<Tok>, usize), ParseError>)
    requires
        i <= ts@.len(),
    ensures
        (match (r, parse_body_at(toks(ts@), i as int)) {
            (Ok((b, j)), Ok(p)) => toks(b@) == p.0 && j as int == p.1 && j <= ts@.len(),
            (Err(e), Err(se)) => e@ == se,
            _ => false,
        }),
{
    let ghost t = toks(ts@);
    let brace_here = if i < ts.len() {
        is_open_brace(ts, i)
    } else {
        false
    };
    if !brace_here {
        return Err(ParseError { kind: ParseErrorKind::ExpectedBody, pos: i });
    }
    match scan(ts, i + 1, ScanStop::BodyEnd) {
        Ok(be) => {
            proof {
                lemma_scan_from_ok(t, i as int + 1, Seq::empty(), ScanStop::BodyEnd);
            }
            let v = slice_toks(ts, i + 1, be);
            Ok((v, be + 1))
        },
        Err(e) => Err(e),
    }
}

/// Parse one arm starting at its `match` keyword.
fn parse_arm(ts: &Vec<Tok>, i: usize) -> (r: Result<(Arm, usize), ParseError>)
    requires
        i <= ts@.len(),
    ensures
        (match (r, parse_arm_at(toks(ts@), i as int)) {
            (Ok((arm, j)), Ok(p)) => arm@ == p.0 && j as int == p.1 && j <= ts@.len(),
            (Err(e), Err(se)) => e@ == se,
            _ => false,
        }),
{
    let ghost t = toks(ts@);
    let has_match = if i < ts.len() {
        is_kw(ts, i, "match")
    } else {
        false
    };
    if !has_match {
        return Err(ParseError { kind: ParseErrorKind::ExpectedMatch, pos: i });
    }
    let (generics, i2) = match parse_generics(ts, i + 1) {
        Ok(p) => p,
        Err(e) => {
            return Err(e);
        },
    };
    let (ty, i3) = match parse_ty(ts, i2) {
        Ok(p) => p,
        Err(e) => {
            return Err(e);
        },
    };
    let (where_clause, i4) = match parse_where(ts, i3) {
        Ok(p) => p,
        Err(e) => {
            return Err(e);
        },
    };
    let (return_type, i5) = match parse_ret(ts, i4) {
        Ok(p) => p,
        Err(e) => {
            return Err(e);
        },
    };
    let (body, j) = match parse_body(ts, i5) {
        Ok(p) => p,
        Err(e) => {
            return Err(e);
        },
    };
    Ok((Arm { generics, ty, where_clause, return_type, body }, j))
}

/// Parse a whole invocation. The result agrees exactly, on every input,
/// with [`parse_args_spec`]: the structured arm list on the inputs the
/// grammar accepts, and the structured error, with the offending token's
/// position, on every other input.
pub fn parse(input: &Vec<Tok>) -> (r: Result<Args, ParseError>)
    ensures
        (match (r, parse_args_spec(toks(input@))) {
            (Ok(a), Ok(sa)) => a@ == sa,
            (Err(e), Err(se)) => e@ == se,
            _ => false,
        }),
{
    let ghost t = toks(input@);
    let starts_for = if input.len() > 0 {
        is_kw(input, 0, "for")
    } else {
        false
    };
    if !starts_for {
        return Err(ParseError { kind: ParseErrorKind::ExpectedFor, pos: 0 });
    }
    let named = if input.len() >= 3 {
        proof {
            assert(t[1] == input@[1]@);
            assert(t[2] == input@[2]@);
        }
        let is_id = match &input[1] {
            Tok::Ident(_) => true,
            _ => false,
        };
        let is_eq = match &input[2] {
            Tok::Punct(c, j) => *c == '=' && !*j,
            _ => false,
        };
        is_id && is_eq
    } else {
        false
    };
    let name: Option<Vec<char>> = if named {
        match &input[1] {
            Tok::Ident(s) => Some(copy_chars(s)),
            _ => None,
        }
    } else {
        None
    };
    let es: usize = if named {
        3
    } else {
        1
    };
    let semi = match scan(input, es, ScanStop::Semicolon) {
        Ok(s) => s,
        Err(e) => {
            return Err(e);
        },
    };
    proof {
        lemma_scan_from_ok(t, es as int, Seq::empty(), ScanStop::Semicolon);
    }
    if semi == es {
        return Err(ParseError { kind: ParseErrorKind::EmptySubject, pos: es });
    }
    if semi + 1 >= input.len() {
        return Err(ParseError { kind: ParseErrorKind::NoArms, pos: semi + 1 });
    }
    let expr = slice_toks(input, es, semi);
    let ghost start = semi + 1;
    let mut arms: Vec<Arm> = Vec::new();
    let mut i: usize = semi + 1;
    loop
        invariant
            t == toks(input@),
            t.len() == input@.len(),
            i < t.len(),
            toks(expr@) == t.subrange(es as int, semi as int),
            crate::arms::name_view(name) == (if named {
                match t[1] {
                    TokView::Ident(x) => Some(x),
                    _ => None,
                }
            } else {
                None
            }),
            named == (t.len() >= 3 && (t[1] matches TokView::Ident(_)) && t[2] == tp('=')),
            es == if named {
                3int
            } else {
                1int
            },
            t.len() > 0 && t[0] == tid("for"@),
            scan_from(t, es as int, Seq::<Delim>::empty(), ScanStop::Semicolon)
                == Ok::<int, ParseErrorView>(semi as int),
            es < semi && semi + 1 < t.len(),
            start == semi + 1,
            (match parse_arms_at(t, i as int) {
                Ok(rest) => parse_arms_at(t, start as int) == Ok::<Seq<ArmView>, ParseErrorView>(arms_views(arms@) + rest),
                Err(e) => parse_arms_at(t, start as int) == Err::<Seq<ArmView>, ParseErrorView>(e),
            }),
        decreases t.len() - i,
    {
        let ghost prev_views = arms_views(arms@);
        let ghost i0 = i as int;
        match parse_arm(input, i) {
            Err(e) => {
                proof {
                    assert(parse_arms_at(t, i0) == Err::<Seq<ArmView>, ParseErrorView>(e@));
                }
                return Err(e);
            },
            Ok((arm, k)) => {
                proof {
                    lemma_parse_arm_ok(t, i0);
                }
                let ghost av = arm@;
                proof {
                    assert(parse_arm_at(t, i0) matches Ok(p) && p == (av, k as int));
                }
                arms.push(arm);
                proof {
                    assert(arms_views(arms@) =~= prev_views + seq![av]);
                }
                if k >= input.len() {
                    proof {
                        assert(parse_arms_at(t, i0) == Ok::<Seq<ArmView>, ParseErrorView>(
                            seq![av],
                        ));
                        assert(prev_views + seq![av] =~= arms_views(arms@));
                    }
                    let a = Args { name, expr, arms };
                    proof {
                        assert(a@.arms == arms_views(a.arms@));
                    }
                    return Ok(a);
                }
                i = k;
                proof {
                    let r2 = parse_arms_at(t, k as int);
                    match r2 {
                        Ok(rest2) => {
                            assert(parse_arms_at(t, i0) == Ok::<Seq<ArmView>, ParseErrorView>(
                                seq![av] + rest2,
                            ));
                            assert(prev_views + (seq![av] + rest2) =~= arms_views(arms@)
                                + rest2);
                        },
                        Err(e2) => {
                            assert(parse_arms_at(t, i0) == Err::<Seq<ArmView>, ParseErrorView>(
                                e2,
                            ));
                        },
                    }
                }
            },
        }
    }
}

/// Proper nesting of the delimiters from position `i` onward, under the
/// open delimiters `stack` (top at the end): every closing delimiter
/// matches the innermost open one, and nothing stays open at the end.
pub open spec fn well_nested_from(ts: Seq<TokView>, i: int, stack: Seq<Delim>) -> bool
    decreases ts.len() - i,
{
    if i >= ts.len() {
        stack.len() == 0
    } else {
        match ts[i] {
            TokView::Open(d) => well_nested_from(ts, i + 1, stack.push(d)),
            TokView::Close(d) => stack.len() > 0 && stack.last() == d && well_nested_from(
                ts,
                i + 1,
                stack.drop_last(),
            ),
            _ => well_nested_from(ts, i + 1, stack),
        }
    }
}

/// Every delimiter of the input is properly nested.
pub open spec fn well_nested(ts: Seq<TokView>) -> bool {
    well_nested_from(ts, 0, Seq::empty())
}

/// A token that is no delimiter leaves the nesting state unchanged.
proof fn lemma_wn_step(ts: Seq<TokView>, i: int, stack: Seq<Delim>)
    requires
        i < ts.len(),
        !(ts[i] matches TokView::Open(_)),
        !(ts[i] matches TokView::Close(_)),
    ensures
        well_nested_from(ts, i, stack) == well_nested_from(ts, i + 1, stack),
{
}

/// A successful scan walks the nesting relation: what held of its segment
/// under any enclosing open delimiters holds afterwards at its stop.
proof fn lemma_scan_nesting(
    ts: Seq<TokView>,
    i: int,
    stack: Seq<Delim>,
    stop: ScanStop,
    base: Seq<Delim>,
)
    ensures
        scan_from(ts, i, stack, stop) matches Ok(j) ==> well_nested_from(ts, i, base + stack)
            == well_nested_from(ts, j, base),
    decreases ts.len() - i,
{
    if i >= ts.len() {
    } else if stack.len() == 0 && is_stop_at(ts, i, stop) {
        assert(base + stack =~= base);
    } else {
        match ts[i] {
            TokView::Open(d) => {
                lemma_scan_nesting(ts, i + 1, stack.push(d), stop, base);
                assert(base + stack.push(d) =~= (base + stack).push(d));
            },
            TokView::Close(d) => {
                if stack.len() > 0 && stack.last() == d {
                    lemma_scan_nesting(ts, i + 1, stack.drop_last(), stop, base);
                    assert(base + stack.drop_last() =~= (base + stack).drop_last());
                    assert((base + stack).last() == d);
                }
            },
            _ => {
                lemma_scan_nesting(ts, i + 1, stack, stop, base);
            },
        }
    }
}

/// The generics scanner walks the nesting relation in the same way.
proof fn lemma_scan_generics_nesting(
    ts: Seq<TokView>,
    i: int,
    angle: nat,
    stack: Seq<Delim>,
    base: Seq<Delim>,
)
    ensures
        scan_generics_from(ts, i, angle, stack) matches Ok(j) ==> well_nested_from(
            ts,
            i,
            base + stack,
        ) == well_nested_from(ts, j, base),
    decreases ts.len() - i,
{
    if i >= ts.len() {
    } else {
        match ts[i] {
            TokView::Open(d) => {
                lemma_scan_generics_nesting(ts, i + 1, angle, stack.push(d), base);
                assert(base + stack.push(d) =~= (base + stack).push(d));
            },
            TokView::Close(d) => {
                if stack.len() > 0 && stack.last() == d {
                    lemma_scan_generics_nesting(ts, i + 1, angle, stack.drop_last(), base);
                    assert(base + stack.drop_last() =~= (base + stack).drop_last());
                    assert((base + stack).last() == d);
                }
            },
            TokView::Punct(c, j) => {
                if stack.len() == 0 {
                    if c == '-' && j && i + 1 < ts.len() && (
                    ts[i + 1] matches TokView::Punct('>', _)) {
                        lemma_scan_generics_nesting(ts, i + 2, angle, stack, base);
                        lemma_wn_step(ts, i, base + stack);
                        lemma_wn_step(ts, i + 1, base + stack);
                    } else if c == '<' {
                        lemma_scan_generics_nesting(ts, i + 1, angle + 1, stack, base);
                    } else if c == '>' {
                        if angle == 1 {
                            assert(base + stack =~= base);
                        } else {
                            lemma_scan_generics_nesting(
                                ts,
                                i + 1,
                                (angle - 1) as nat,
                                stack,
                                base,
                            );
                        }
                    } else {
                        lemma_scan_generics_nesting(ts, i + 1, angle, stack, base);
                    }
                } else {
                    lemma_scan_generics_nesting(ts, i + 1, angle, stack, base);
                }
            },
            _ => {
                lemma_scan_generics_nesting(ts, i + 1, angle, stack, base);
            },
        }
    }
}

/// A successfully parsed arm is properly nested: nesting before the arm
/// equals nesting after it.
proof fn lemma_arm_nesting(ts: Seq<TokView>, i: int)
    ensures
        parse_arm_at(ts, i) matches Ok(p) ==> well_nested_from(ts, i, Seq::empty())
            == well_nested_from(ts, p.1, Seq::empty()),
{
    let e: Seq<Delim> = Seq::empty();
    if i < ts.len() && ts[i] == tid("match"@) {
        lemma_wn_step(ts, i, e);
        let i1 = i + 1;
        lemma_scan_generics_ok(ts, i1 + 1, 1, e);
        lemma_scan_generics_nesting(ts, i1 + 1, 1, e, e);
        if let Ok((generics, i2)) = parse_generics_at(ts, i1) {
            if i1 < ts.len() && (ts[i1] matches TokView::Punct('<', _)) {
                lemma_wn_step(ts, i1, e);
                if let Ok(g) = scan_generics_from(ts, i1 + 1, 1, e) {
                    assert(e + e =~= e);
                    lemma_wn_step(ts, g, e);
                    assert(well_nested_from(ts, i, e) == well_nested_from(ts, i2, e));
                }
            } else {
                assert(well_nested_from(ts, i, e) == well_nested_from(ts, i2, e));
            }
            lemma_scan_from_ok(ts, i2, e, ScanStop::TypeEnd);
            lemma_scan_nesting(ts, i2, e, ScanStop::TypeEnd, e);
            if let Ok((ty, i3)) = parse_ty_at(ts, i2) {
                assert(e + e =~= e);
                assert(well_nested_from(ts, i2, e) == well_nested_from(ts, i3, e));
                lemma_scan_from_ok(ts, i3 + 1, e, ScanStop::WhereEnd);
                lemma_scan_nesting(ts, i3 + 1, e, ScanStop::WhereEnd, e);
                if let Ok((wc, i4)) = parse_where_at(ts, i3) {
                    if i3 < ts.len() && ts[i3] == tid("where"@) {
                        lemma_wn_step(ts, i3, e);
                        assert(well_nested_from(ts, i3, e) == well_nested_from(ts, i4, e));
                    } else {
                        assert(well_nested_from(ts, i3, e) == well_nested_from(ts, i4, e));
                    }
                    lemma_scan_from_ok(ts, i4 + 2, e, ScanStop::ReturnEnd);
                    lemma_scan_nesting(ts, i4 + 2, e, ScanStop::ReturnEnd, e);
                    if let Ok((rt, i5)) = parse_ret_at(ts, i4) {
                        if is_arrow_at(ts, i4) {
                            lemma_wn_step(ts, i4, e);
                            lemma_wn_step(ts, i4 + 1, e);
                            assert(well_nested_from(ts, i4, e) == well_nested_from(
                                ts,
                                i5,
                                e,
                            ));
                        } else {
                            assert(well_nested_from(ts, i4, e) == well_nested_from(
                                ts,
                                i5,
                                e,
                            ));
                        }
                        if i5 < ts.len() && ts[i5] == topen(Delim::Brace) {
                            lemma_scan_from_ok(ts, i5 + 1, e, ScanStop::BodyEnd);
                            lemma_scan_nesting(
                                ts,
                                i5 + 1,
                                e,
                                ScanStop::BodyEnd,
                                seq![Delim::Brace],
                            );
                            if let Ok(be) = scan_from(ts, i5 + 1, e, ScanStop::BodyEnd) {
                                assert(seq![Delim::Brace] + e =~= seq![Delim::Brace]);
                                assert(e.push(Delim::Brace) =~= seq![Delim::Brace]);
                                assert(well_nested_from(ts, i5, e) == well_nested_from(
                                    ts,
                                    i5 + 1,
                                    seq![Delim::Brace],
                                ));
                                assert(ts[be] == crate::token::tclose(Delim::Brace));
                                assert(seq![Delim::Brace].last() == Delim::Brace);
                                assert(seq![Delim::Brace].drop_last() =~= e);
                                assert(well_nested_from(ts, be, seq![Delim::Brace])
                                    == well_nested_from(ts, be + 1, e));
                            }
                        }
                    }
                }
            }
        }
    }
}

/// Every input the arm-list parser accepts is properly nested from where
/// it started.
proof fn lemma_arms_nesting(ts: Seq<TokView>, i: int)
    ensures
        parse_arms_at(ts, i) matches Ok(arms) ==> well_nested_from(ts, i, Seq::empty()),
    decreases ts.len() - i,
{
    lemma_parse_arm_ok(ts, i);
    lemma_arm_nesting(ts, i);
    if let Ok((arm, k)) = parse_arm_at(ts, i) {
        if k >= ts.len() {
            assert(well_nested_from(ts, k, Seq::empty()));
        } else {
            lemma_arms_nesting(ts, k);
        }
    }
}

/// Parse failure on unbalanced delimiters: whatever the parser accepts is
/// properly nested, so an invocation with an unbalanced delimiter — a
/// brace among them — is rejected, with its diagnostic, before any code
/// generation.
pub proof fn lemma_unbalanced_rejected(ts: Seq<TokView>)
    ensures
        parse_args_spec(ts) matches Ok(a) ==> well_nested(ts),
        !well_nested(ts) ==> parse_args_spec(ts) is Err,
{
    let e: Seq<Delim> = Seq::empty();
    if ts.len() > 0 && ts[0] == tid("for"@) {
        let named = ts.len() >= 3 && (ts[1] matches TokView::Ident(_)) && ts[2] == tp('=');
        let es: int = if named {
            3
        } else {
            1
        };
        lemma_wn_step(ts, 0, e);
        lemma_scan_from_ok(ts, es, e, ScanStop::Semicolon);
        lemma_scan_nesting(ts, es, e, ScanStop::Semicolon, e);
        if let Ok(semi) = scan_from(ts, es, e, ScanStop::Semicolon) {
            if semi != es && semi + 1 < ts.len() {
                if named {
                    lemma_wn_step(ts, 1, e);
                    lemma_wn_step(ts, 2, e);
                }
                assert(e + e =~= e);
                assert(well_nested_from(ts, 0, e) == well_nested_from(ts, semi as int, e));
                lemma_wn_step(ts, semi, e);
                lemma_arms_nesting(ts, semi + 1);
            }
        }
    }
}

/// A successfully parsed invocation carries at least one arm: an
/// invocation with zero `match` clauses is always rejected.
pub proof fn lemma_parsed_arms_nonempty(ts: Seq<TokView>, i: int)
    ensures
        parse_arms_at(ts, i) matches Ok(arms) ==> arms.len() >= 1,
    decreases ts.len() - i,
{
    lemma_parse_arm_ok(ts, i);
    if let Ok((arm, k)) = parse_arm_at(ts, i) {
        if k < ts.len() {
            lemma_parsed_arms_nonempty(ts, k);
        }
    }
}

/// The parser owes success no arm of which is malformed; and whatever it
/// accepts has at least one arm.
pub proof fn lemma_parse_at_least_one_arm(ts: Seq<TokView>)
    ensures
        parse_args_spec(ts) matches Ok(a) ==> a.arms.len() >= 1,
{
    if ts.len() > 0 && ts[0] == tid("for"@) {
        let named = ts.len() >= 3 && (ts[1] matches TokView::Ident(_)) && ts[2] == tp('=');
        let es: int = if named {
            3
        } else {
            1
        };
        if let Ok(semi) = scan_from(ts, es, Seq::empty(), ScanStop::Semicolon) {
            if semi != es && semi + 1 < ts.len() {
                lemma_parsed_arms_nonempty(ts, semi + 1);
            }
        }
    }
}

} // verus!
