//! The dispatch code generator: from a parsed invocation it emits a
//! self-contained block in which one capability trait per arm, all with a
//! same-named resolution method, is implemented at a distinct
//! reference-indirection depth for the single-slot holder of the subject
//! value. The host's method lookup peels automatic references one layer at a
//! time, deepest form first, so the earliest-declared arm whose type pattern
//! and constraints the subject satisfies is the one that resolves.

use vstd::prelude::*;
use crate::arms::{expr_mutable, is_expr_mutable, Args, ArgsView};
use crate::token::{
    chars_of, copy_chars, copy_range, ident, lemma_toks_app, lit, punct, punct_joint, tclose,
    tid, topen, tp, tpj, toks, Delim, Tok, TokView,
};

verus! {

/// One indirection layer: `&` for a shared subject, `& mut` for a mutable
/// one.
pub open spec fn ref_layer(mutable: bool) -> Seq<TokView> {
    if mutable {
        seq![tp('&'), tid("mut"@)]
    } else {
        seq![tp('&')]
    }
}

/// `n` indirection layers of one reference kind.
pub open spec fn ref_toks(n: nat, mutable: bool) -> Seq<TokView>
    decreases n,
{
    if n == 0 {
        Seq::empty()
    } else {
        ref_layer(mutable) + ref_toks((n - 1) as nat, mutable)
    }
}

/// Appending one more layer on the inside is the same as prepending it on
/// the outside: the layers are all alike.
pub proof fn lemma_ref_toks_snoc(n: nat, mutable: bool)
    ensures
        ref_toks(n + 1, mutable) == ref_toks(n, mutable) + ref_layer(mutable),
    decreases n,
{
    if n == 0 {
        assert(ref_toks(1, mutable) =~= ref_toks(0, mutable) + ref_layer(mutable));
    } else {
        lemma_ref_toks_snoc((n - 1) as nat, mutable);
        assert(ref_toks(n + 1, mutable) =~= ref_toks(n, mutable) + ref_layer(mutable));
    }
}

/// The decimal digit characters.
pub open spec fn digit_char(d: nat) -> char {
    if d == 0 {
        '0'
    } else if d == 1 {
        '1'
    } else if d == 2 {
        '2'
    } else if d == 3 {
        '3'
    } else if d == 4 {
        '4'
    } else if d == 5 {
        '5'
    } else if d == 6 {
        '6'
    } else if d == 7 {
        '7'
    } else if d == 8 {
        '8'
    } else {
        '9'
    }
}

/// The decimal representation of a number, most significant digit first.
pub open spec fn dec_rep(n: nat) -> Seq<char>
    decreases n,
{
    if n < 10 {
        seq![digit_char(n)]
    } else {
        dec_rep(n / 10).push(digit_char(n % 10))
    }
}

/// The capability trait name synthesized for arm `i` (0-based): `Match`
/// followed by the 1-based arm number in decimal.
pub open spec fn match_name(i: nat) -> Seq<char> {
    "Match"@ + dec_rep(i + 1)
}

/// The two joined colons of a path separator.
pub open spec fn colcol() -> Seq<TokView> {
    seq![tpj(':'), tp(':')]
}

/// The two joined characters of `->`.
pub open spec fn arrow() -> Seq<TokView> {
    seq![tpj('-'), tp('>')]
}

/// The declaration of the generic single-slot holder the subject value is
/// moved into: `struct Match<T>(core::cell::Cell<Option<T>>);`.
pub open spec fn holder_code() -> Seq<TokView> {
    seq![
        tid("struct"@),
        tid("Match"@),
        tp('<'),
        tid("T"@),
        tp('>'),
        topen(Delim::Paren),
        tid("core"@),
    ] + colcol() + seq![tid("cell"@)] + colcol() + seq![
        tid("Cell"@),
        tp('<'),
        tid("Option"@),
        tp('<'),
        tid("T"@),
        tp('>'),
        tp('>'),
        tclose(Delim::Paren),
        tp(';'),
    ]
}

/// The capability declaration for arm `i`:
/// `trait MatchN { type Return; fn spez(&self) -> Self::Return; }`.
pub open spec fn trait_code(i: nat) -> Seq<TokView> {
    seq![
        tid("trait"@),
        tid(match_name(i)),
        topen(Delim::Brace),
        tid("type"@),
        tid("Return"@),
        tp(';'),
        tid("fn"@),
        tid("spez"@),
        topen(Delim::Paren),
        tp('&'),
        tid("self"@),
        tclose(Delim::Paren),
    ] + arrow() + seq![tid("Self"@)] + colcol() + seq![
        tid("Return"@),
        tp(';'),
        tclose(Delim::Brace),
    ]
}

/// The generic-parameter list of an implementation: `<...>` when the arm
/// declares parameters, nothing otherwise.
pub open spec fn generics_code(g: Option<Seq<TokView>>) -> Seq<TokView> {
    match g {
        Some(g) => seq![tp('<')] + g + seq![tp('>')],
        None => Seq::empty(),
    }
}

/// The constraint clause of an implementation: `where ...` when the arm
/// declares one, nothing otherwise.
pub open spec fn where_code(w: Option<Seq<TokView>>) -> Seq<TokView> {
    match w {
        Some(w) => seq![tid("where"@)] + w,
        None => Seq::empty(),
    }
}

/// The declared result type of an arm, defaulting to the unit type when the
/// arm declares none.
pub open spec fn ret_code(rt: Option<Seq<TokView>>) -> Seq<TokView> {
    match rt {
        Some(r) => r,
        None => seq![topen(Delim::Paren), tclose(Delim::Paren)],
    }
}

/// The binding prologue run by the selected arm's body when the subject has
/// a name: the one-time take of the held value out of the holder. An
/// anonymous subject gets no prologue, so no body can reach the value by
/// name.
pub open spec fn param_code(name: Option<Seq<char>>) -> Seq<TokView> {
    match name {
        None => Seq::empty(),
        Some(x) => seq![
            tp('#'),
            topen(Delim::Bracket),
            tid("allow"@),
            topen(Delim::Paren),
            tid("unused_mut"@),
            tclose(Delim::Paren),
            tclose(Delim::Bracket),
            tid("let"@),
            tid("mut"@),
            tid(x),
            tp('='),
            tid("self"@),
            tp('.'),
            TokView::Lit("0"@),
            tp('.'),
            tid("take"@),
            topen(Delim::Paren),
            tclose(Delim::Paren),
            tp('.'),
            tid("unwrap"@),
            topen(Delim::Paren),
            tclose(Delim::Paren),
            tp(';'),
            tid("let"@),
            tid("_"@),
            tp('='),
            tid(x),
            tp(';'),
        ],
    }
}

/// The head of arm `i`'s implementation: the trait is implemented for the
/// holder type behind `n - i - 1` indirection layers, specialized for the
/// arm's type pattern, under the arm's generics and constraints. The
/// earliest arm sits at the deepest, hence first-tried, layer.
pub open spec fn impl_head_code(a: ArgsView, i: int) -> Seq<TokView> {
    let arm = a.arms[i];
    let n = a.arms.len();
    let mutable = expr_mutable(a.expr);
    seq![tid("impl"@)] + generics_code(arm.generics) + seq![
        tid(match_name(i as nat)),
        tid("for"@),
    ] + ref_toks((n - i - 1) as nat, mutable) + seq![tid("Match"@), tp('<')] + arm.ty + seq![
        tp('>'),
    ] + where_code(arm.where_clause)
}

/// The signature part of arm `i`'s implementation: the associated result
/// type (defaulted to unit when none is declared) and the resolution
/// method's header.
pub open spec fn impl_sig_code(a: ArgsView, i: int) -> Seq<TokView> {
    let arm = a.arms[i];
    seq![
        topen(Delim::Brace),
        tid("type"@),
        tid("Return"@),
        tp('='),
    ] + ret_code(arm.return_type) + seq![
        tp(';'),
        tid("fn"@),
        tid("spez"@),
        topen(Delim::Paren),
        tp('&'),
        tid("self"@),
        tclose(Delim::Paren),
    ] + arrow() + seq![tid("Self"@)] + colcol() + seq![tid("Return"@), topen(Delim::Brace)]
}

/// The tail of arm `i`'s implementation: the binding prologue, the arm's
/// body, and the closing braces.
pub open spec fn impl_tail_code(a: ArgsView, i: int) -> Seq<TokView> {
    let arm = a.arms[i];
    param_code(a.name) + arm.body + seq![tclose(Delim::Brace), tclose(Delim::Brace)]
}

/// The implementation of arm `i`'s capability, declared at its indirection
/// depth.
pub open spec fn impl_code(a: ArgsView, i: int) -> Seq<TokView> {
    impl_head_code(a, i) + impl_sig_code(a, i) + impl_tail_code(a, i)
}

/// Everything generated for arm `i`: its capability declaration and its
/// implementation.
pub open spec fn arm_code(a: ArgsView, i: int) -> Seq<TokView> {
    trait_code(i as nat) + impl_code(a, i)
}

/// The code of the arms before index `i`, in declaration order.
pub open spec fn arms_upto(a: ArgsView, i: int) -> Seq<TokView>
    decreases i,
{
    if i <= 0 {
        Seq::empty()
    } else {
        arms_upto(a, i - 1) + arm_code(a, i - 1)
    }
}

/// The call tokens before the spliced subject expression: the call wraps
/// the holder in the full `n` indirection layers, so the whole peeling
/// sequence is available to the host's lookup.
pub open spec fn call_prefix(a: ArgsView) -> Seq<TokView> {
    seq![topen(Delim::Paren)] + ref_toks(a.arms.len(), expr_mutable(a.expr)) + seq![
        tid("Match"@),
        topen(Delim::Paren),
        tid("core"@),
    ] + colcol() + seq![tid("cell"@)] + colcol() + seq![tid("Cell"@)] + colcol() + seq![
        tid("new"@),
        topen(Delim::Paren),
        tid("Some"@),
        topen(Delim::Paren),
    ]
}

/// The call tokens after the spliced subject expression.
pub open spec fn call_suffix() -> Seq<TokView> {
    seq![
        tclose(Delim::Paren),
        tclose(Delim::Paren),
        tclose(Delim::Paren),
        tclose(Delim::Paren),
        tp('.'),
        tid("spez"@),
        topen(Delim::Paren),
        tclose(Delim::Paren),
    ]
}

/// The final call expression: the subject expression stands in it exactly
/// once, moved into the holder.
pub open spec fn call_code(a: ArgsView) -> Seq<TokView> {
    call_prefix(a) + a.expr + call_suffix()
}

/// The whole generated block.
pub open spec fn gen_code(a: ArgsView) -> Seq<TokView> {
    seq![topen(Delim::Brace)] + holder_code() + arms_upto(a, a.arms.len() as int) + call_code(a)
        + seq![tclose(Delim::Brace)]
}

/// The view of an invocation with its subject expression replaced.
pub open spec fn with_subject(a: ArgsView, e: Seq<TokView>) -> ArgsView {
    ArgsView { expr: e, ..a }
}

/// Everything the generated block places before the subject expression.
pub open spec fn gen_before_subject(a: ArgsView) -> Seq<TokView> {
    seq![topen(Delim::Brace)] + holder_code() + arms_upto(a, a.arms.len() as int) + call_prefix(
        a,
    )
}

/// Everything the generated block places after the subject expression.
pub open spec fn gen_after_subject() -> Seq<TokView> {
    call_suffix() + seq![tclose(Delim::Brace)]
}

/// The code of the arms reads the subject expression only through its
/// reference kind.
pub proof fn lemma_arms_subject_independent(a: ArgsView, e: Seq<TokView>, i: int)
    requires
        expr_mutable(e) == expr_mutable(a.expr),
    ensures
        arms_upto(with_subject(a, e), i) == arms_upto(a, i),
    decreases i,
{
    if i > 0 {
        lemma_arms_subject_independent(a, e, i - 1);
        assert(impl_head_code(with_subject(a, e), i - 1) == impl_head_code(a, i - 1));
        assert(impl_sig_code(with_subject(a, e), i - 1) == impl_sig_code(a, i - 1));
        assert(impl_tail_code(with_subject(a, e), i - 1) == impl_tail_code(a, i - 1));
    }
}

/// The subject expression is spliced into exactly one place of the
/// generated block — it is evaluated once, however many arms there are,
/// whether or not it is given a name — and replacing it by any expression
/// of the same reference kind changes nothing else in the block.
pub proof fn lemma_subject_spliced_once(a: ArgsView, e: Seq<TokView>)
    requires
        expr_mutable(e) == expr_mutable(a.expr),
    ensures
        gen_code(a) == gen_before_subject(a) + a.expr + gen_after_subject(),
        gen_code(with_subject(a, e)) == gen_before_subject(a) + e + gen_after_subject(),
{
    lemma_arms_subject_independent(a, e, a.arms.len() as int);
    assert(call_prefix(with_subject(a, e)) == call_prefix(a));
    assert(gen_code(a) =~= gen_before_subject(a) + a.expr + gen_after_subject());
    assert(gen_code(with_subject(a, e)) =~= gen_before_subject(a) + e + gen_after_subject());
}

/// Default result type: an arm that declares no `-> Type` gets the unit
/// type as its implementation's result type, and one that declares a type
/// gets exactly that type; each arm's result type is independent of every
/// other arm's.
pub proof fn lemma_return_type_code(rt: Option<Seq<TokView>>)
    ensures
        rt is None ==> ret_code(rt) == seq![topen(Delim::Paren), tclose(Delim::Paren)],
        rt matches Some(r) ==> ret_code(rt) == r,
{
}

/// Reference consistency: every indirection layer generated for one
/// invocation is of one kind — `& mut` throughout when the subject is a
/// mutable borrow, `&` throughout otherwise. Arm `i`'s implementation
/// carries `n - i - 1` such layers and the call carries `n`, all built by
/// [`ref_toks`] with the same kind.
pub proof fn lemma_ref_layers_uniform(n: nat, mutable: bool)
    ensures
        !mutable ==> ref_toks(n, mutable).len() == n,
        mutable ==> ref_toks(n, mutable).len() == 2 * n,
        !mutable ==> forall|k: int|
            0 <= k < ref_toks(n, mutable).len() ==> ref_toks(n, mutable)[k] == tp('&'),
        mutable ==> forall|k: int|
            0 <= k < ref_toks(n, mutable).len() ==> ref_toks(n, mutable)[k] == (if k % 2 == 0 {
                tp('&')
            } else {
                tid("mut"@)
            }),
    decreases n,
{
    if n > 0 {
        lemma_ref_layers_uniform((n - 1) as nat, mutable);
        let rest = ref_toks((n - 1) as nat, mutable);
        if mutable {
            assert forall|k: int| 0 <= k < ref_toks(n, mutable).len() implies ref_toks(
                n,
                mutable,
            )[k] == (if k % 2 == 0 {
                tp('&')
            } else {
                tid("mut"@)
            }) by {
                if k >= 2 {
                    assert(ref_toks(n, mutable)[k] == rest[k - 2]);
                    assert((k - 2) % 2 == k % 2);
                }
            }
        }
    }
}

/// Subject binding: an anonymous subject generates no binding prologue at
/// all, so no arm body can reach the value by name; a named subject
/// generates the prologue that binds exactly that name (the name stands at
/// its two fixed places in the prologue).
pub proof fn lemma_subject_binding(name: Option<Seq<char>>)
    ensures
        name is None ==> param_code(name) == Seq::<TokView>::empty(),
        name matches Some(x) ==> param_code(name).len() == 28 && param_code(name)[9] == tid(x)
            && param_code(name)[26] == tid(x),
{
}

/// One decimal digit as a character.
fn digit(d: u64) -> (c: char)
    requires
        d < 10,
    ensures
        c == digit_char(d as nat),
{
    if d == 0 {
        '0'
    } else if d == 1 {
        '1'
    } else if d == 2 {
        '2'
    } else if d == 3 {
        '3'
    } else if d == 4 {
        '4'
    } else if d == 5 {
        '5'
    } else if d == 6 {
        '6'
    } else if d == 7 {
        '7'
    } else if d == 8 {
        '8'
    } else {
        '9'
    }
}

/// The decimal representation of `n`.
fn dec_chars(n: u64) -> (out: Vec<char>)
    ensures
        out@ == dec_rep(n as nat),
    decreases n,
{
    if n < 10 {
        let mut out: Vec<char> = Vec::new();
        out.push(digit(n));
        proof {
            assert(out@ =~= dec_rep(n as nat));
        }
        out
    } else {
        let mut out = dec_chars(n / 10);
        out.push(digit(n % 10));
        proof {
            assert(out@ =~= dec_rep(n as nat));
        }
        out
    }
}

/// The identifier token of arm `i`'s capability trait.
fn match_ident(i: usize) -> (t: Tok)
    requires
        i < usize::MAX,
    ensures
        t@ == tid(match_name(i as nat)),
{
    let mut s = chars_of("Match");
    let mut d = dec_chars((i + 1) as u64);
    s.append(&mut d);
    proof {
        assert(s@ =~= match_name(i as nat));
    }
    Tok::Ident(s)
}

/// Build the chain of reference tokens for one indirection count: `n` times
/// `&`, or `n` times `& mut` for a mutable subject.
pub fn refs(n: usize, is_mutable: bool) -> (out: Vec<Tok>)
    ensures
        toks(out@) == ref_toks(n as nat, is_mutable),
{
    let mut out: Vec<Tok> = Vec::new();
    let mut i: usize = 0;
    proof {
        assert(toks(out@) =~= ref_toks(0, is_mutable));
    }
    while i < n
        invariant
            i <= n,
            toks(out@) == ref_toks(i as nat, is_mutable),
        decreases n - i,
    {
        let ghost pre = out@;
        out.push(Tok::Punct('&', false));
        if is_mutable {
            let t = ident("mut");
            out.push(t);
        }
        i += 1;
        proof {
            assert(toks(out@) =~= toks(pre) + ref_layer(is_mutable));
            lemma_ref_toks_snoc((i - 1) as nat, is_mutable);
        }
    }
    out
}

/// Push one token, tracking the image of the stream.
fn push_tok(out: &mut Vec<Tok>, t: Tok)
    ensures
        toks(final(out)@) == toks(old(out)@).push(t@),
{
    out.push(t);
    proof {
        assert(toks(out@) =~= toks(old(out)@).push(t@));
    }
}

/// Emit the holder declaration.
fn holder_toks(out: &mut Vec<Tok>)
    ensures
        toks(final(out)@) == toks(old(out)@) + holder_code(),
{
    let ghost g0 = toks(out@);
    out.push(ident("struct"));
    out.push(ident("Match"));
    out.push(punct('<'));
    out.push(ident("T"));
    out.push(punct('>'));
    out.push(Tok::Open(Delim::Paren));
    out.push(ident("core"));
    let ghost g1 = toks(out@);
    out.push(punct_joint(':'));
    out.push(punct(':'));
    out.push(ident("cell"));
    let ghost g2 = toks(out@);
    out.push(punct_joint(':'));
    out.push(punct(':'));
    out.push(ident("Cell"));
    out.push(punct('<'));
    out.push(ident("Option"));
    out.push(punct('<'));
    out.push(ident("T"));
    out.push(punct('>'));
    out.push(punct('>'));
    out.push(Tok::Close(Delim::Paren));
    out.push(punct(';'));
    proof {
        assert(g1 =~= g0 + seq![
            tid("struct"@),
            tid("Match"@),
            tp('<'),
            tid("T"@),
            tp('>'),
            topen(Delim::Paren),
            tid("core"@),
        ]);
        assert(g2 =~= g1 + colcol() + seq![tid("cell"@)]);
        assert(toks(out@) =~= g2 + colcol() + seq![
            tid("Cell"@),
            tp('<'),
            tid("Option"@),
            tp('<'),
            tid("T"@),
            tp('>'),
            tp('>'),
            tclose(Delim::Paren),
            tp(';'),
        ]);
        assert(toks(out@) =~= g0 + holder_code());
    }
}

/// Emit the capability declaration for arm `i`.
fn trait_toks(out: &mut Vec<Tok>, i: usize)
    requires
        i < usize::MAX,
    ensures
        toks(final(out)@) == toks(old(out)@) + trait_code(i as nat),
{
    let ghost g0 = toks(out@);
    out.push(ident("trait"));
    let t = match_ident(i);
    out.push(t);
    out.push(Tok::Open(Delim::Brace));
    out.push(ident("type"));
    out.push(ident("Return"));
    out.push(punct(';'));
    out.push(ident("fn"));
    out.push(ident("spez"));
    out.push(Tok::Open(Delim::Paren));
    out.push(punct('&'));
    out.push(ident("self"));
    out.push(Tok::Close(Delim::Paren));
    let ghost g1 = toks(out@);
    out.push(punct_joint('-'));
    out.push(punct('>'));
    out.push(ident("Self"));
    let ghost g2 = toks(out@);
    out.push(punct_joint(':'));
    out.push(punct(':'));
    out.push(ident("Return"));
    out.push(punct(';'));
    out.push(Tok::Close(Delim::Brace));
    proof {
        assert(g1 =~= g0 + seq![
            tid("trait"@),
            tid(match_name(i as nat)),
            topen(Delim::Brace),
            tid("type"@),
            tid("Return"@),
            tp(';'),
            tid("fn"@),
            tid("spez"@),
            topen(Delim::Paren),
            tp('&'),
            tid("self"@),
            tclose(Delim::Paren),
        ]);
        assert(g2 =~= g1 + arrow() + seq![tid("Self"@)]);
        assert(toks(out@) =~= g2 + colcol() + seq![
            tid("Return"@),
            tp(';'),
            tclose(Delim::Brace),
        ]);
        assert(toks(out@) =~= g0 + trait_code(i as nat));
    }
}

/// Emit the binding prologue for the subject name, if one was given.
fn param_toks(out: &mut Vec<Tok>, name: &Option<Vec<char>>)
    ensures
        toks(final(out)@) == toks(old(out)@) + param_code(crate::arms::name_view(*name)),
{
    let ghost g0 = toks(out@);
    match name {
        None => {
            proof {
                assert(toks(out@) =~= g0 + param_code(None));
            }
        },
        Some(x) => {
            out.push(punct('#'));
            out.push(Tok::Open(Delim::Bracket));
            out.push(ident("allow"));
            out.push(Tok::Open(Delim::Paren));
            out.push(ident("unused_mut"));
            out.push(Tok::Close(Delim::Paren));
            out.push(Tok::Close(Delim::Bracket));
            out.push(ident("let"));
            out.push(ident("mut"));
            out.push(Tok::Ident(copy_chars(x)));
            out.push(punct('='));
            out.push(ident("self"));
            out.push(punct('.'));
            out.push(lit("0"));
            out.push(punct('.'));
            out.push(ident("take"));
            out.push(Tok::Open(Delim::Paren));
            out.push(Tok::Close(Delim::Paren));
            out.push(punct('.'));
            out.push(ident("unwrap"));
            out.push(Tok::Open(Delim::Paren));
            out.push(Tok::Close(Delim::Paren));
            out.push(punct(';'));
            out.push(ident("let"));
            out.push(ident("_"));
            out.push(punct('='));
            out.push(Tok::Ident(copy_chars(x)));
            out.push(punct(';'));
            proof {
                assert(toks(out@) =~= g0 + param_code(Some(x@)));
            }
        },
    }
}

/// Emit the implementation of arm `i`'s capability at its indirection
/// depth.
/// Emit the head of arm `i`'s implementation.
#[verifier::rlimit(100)]
fn impl_head_toks(out: &mut Vec<Tok>, args: &Args, i: usize)
    requires
        i < args.arms@.len(),
    ensures
        toks(final(out)@) == toks(old(out)@) + impl_head_code(args@, i as int),
{
    proof {
        assert(args@.arms[i as int] == args.arms@[i as int]@);
    }
    let arm = &args.arms[i];
    let n = args.arms.len();
    let mutable = is_expr_mutable(&args.expr);
    let ghost g0 = toks(out@);
    push_tok(out, ident("impl"));
    match &arm.generics {
        Some(g) => {
            push_tok(out, punct('<'));
            copy_range(out, g, 0, g.len());
            push_tok(out, punct('>'));
            proof {
                assert(toks(g@).subrange(0, g@.len() as int) =~= toks(g@));
                assert(toks(out@) =~= g0 + seq![tid("impl"@)] + generics_code(
                    args@.arms[i as int].generics,
                ));
            }
        },
        None => {
            proof {
                assert(toks(out@) =~= g0 + seq![tid("impl"@)] + generics_code(
                    args@.arms[i as int].generics,
                ));
            }
        },
    }
    let ghost g1 = toks(out@);
    let t = match_ident(i);
    push_tok(out, t);
    push_tok(out, ident("for"));
    let mut r = refs(n - i - 1, mutable);
    let ghost pre = out@;
    let ghost rv = r@;
    out.append(&mut r);
    proof {
        lemma_toks_app(pre, rv);
        assert(toks(out@) =~= g1 + seq![tid(match_name(i as nat)), tid("for"@)] + ref_toks(
            (n - i - 1) as nat,
            expr_mutable(args@.expr),
        ));
    }
    let ghost g2 = toks(out@);
    push_tok(out, ident("Match"));
    push_tok(out, punct('<'));
    copy_range(out, &arm.ty, 0, arm.ty.len());
    push_tok(out, punct('>'));
    proof {
        assert(toks(arm.ty@).subrange(0, arm.ty@.len() as int) =~= toks(arm.ty@));
        assert(toks(out@) =~= g2 + seq![tid("Match"@), tp('<')] + args@.arms[i as int].ty + seq![
            tp('>'),
        ]);
    }
    let ghost g3 = toks(out@);
    match &arm.where_clause {
        Some(w) => {
            push_tok(out, ident("where"));
            copy_range(out, w, 0, w.len());
            proof {
                assert(toks(w@).subrange(0, w@.len() as int) =~= toks(w@));
                assert(toks(out@) =~= g3 + where_code(args@.arms[i as int].where_clause));
            }
        },
        None => {
            proof {
                assert(toks(out@) =~= g3 + where_code(args@.arms[i as int].where_clause));
            }
        },
    }
    proof {
        assert(toks(out@) =~= g0 + impl_head_code(args@, i as int));
    }
}

/// Emit the signature part of arm `i`'s implementation.
#[verifier::rlimit(100)]
fn impl_sig_toks(out: &mut Vec<Tok>, args: &Args, i: usize)
    requires
        i < args.arms@.len(),
    ensures
        toks(final(out)@) == toks(old(out)@) + impl_sig_code(args@, i as int),
{
    proof {
        assert(args@.arms[i as int] == args.arms@[i as int]@);
    }
    let arm = &args.arms[i];
    let ghost g0 = toks(out@);
    push_tok(out, Tok::Open(Delim::Brace));
    push_tok(out, ident("type"));
    push_tok(out, ident("Return"));
    push_tok(out, punct('='));
    let ghost g1 = toks(out@);
    match &arm.return_type {
        Some(rt) => {
            copy_range(out, rt, 0, rt.len());
            proof {
                assert(toks(rt@).subrange(0, rt@.len() as int) =~= toks(rt@));
                assert(toks(out@) =~= g1 + ret_code(args@.arms[i as int].return_type));
            }
        },
        None => {
            push_tok(out, Tok::Open(Delim::Paren));
            push_tok(out, Tok::Close(Delim::Paren));
            proof {
                assert(toks(out@) =~= g1 + ret_code(args@.arms[i as int].return_type));
            }
        },
    }
    let ghost g2 = toks(out@);
    push_tok(out, punct(';'));
    push_tok(out, ident("fn"));
    push_tok(out, ident("spez"));
    push_tok(out, Tok::Open(Delim::Paren));
    push_tok(out, punct('&'));
    push_tok(out, ident("self"));
    push_tok(out, Tok::Close(Delim::Paren));
    let ghost g3 = toks(out@);
    push_tok(out, punct_joint('-'));
    push_tok(out, punct('>'));
    push_tok(out, ident("Self"));
    let ghost g4 = toks(out@);
    push_tok(out, punct_joint(':'));
    push_tok(out, punct(':'));
    push_tok(out, ident("Return"));
    push_tok(out, Tok::Open(Delim::Brace));
    proof {
        assert(g3 =~= g2 + seq![
            tp(';'),
            tid("fn"@),
            tid("spez"@),
            topen(Delim::Paren),
            tp('&'),
            tid("self"@),
            tclose(Delim::Paren),
        ]);
        assert(g4 =~= g3 + arrow() + seq![tid("Self"@)]);
        assert(toks(out@) =~= g4 + colcol() + seq![tid("Return"@), topen(Delim::Brace)]);
        assert(toks(out@) =~= g0 + impl_sig_code(args@, i as int));
    }
}

/// Emit the tail of arm `i`'s implementation.
fn impl_tail_toks(out: &mut Vec<Tok>, args: &Args, i: usize)
    requires
        i < args.arms@.len(),
    ensures
        toks(final(out)@) == toks(old(out)@) + impl_tail_code(args@, i as int),
{
    proof {
        assert(args@.arms[i as int] == args.arms@[i as int]@);
    }
    let arm = &args.arms[i];
    let ghost g0 = toks(out@);
    param_toks(out, &args.name);
    proof {
        assert(crate::arms::name_view(args.name) == args@.name);
    }
    let ghost g1 = toks(out@);
    copy_range(out, &arm.body, 0, arm.body.len());
    push_tok(out, Tok::Close(Delim::Brace));
    push_tok(out, Tok::Close(Delim::Brace));
    proof {
        assert(toks(arm.body@).subrange(0, arm.body@.len() as int) =~= toks(arm.body@));
        assert(toks(out@) =~= g1 + args@.arms[i as int].body + seq![
            tclose(Delim::Brace),
            tclose(Delim::Brace),
        ]);
        assert(toks(out@) =~= g0 + impl_tail_code(args@, i as int));
    }
}

/// Emit the implementation of arm `i`'s capability at its indirection
/// depth.
fn impl_toks(out: &mut Vec<Tok>, args: &Args, i: usize)
    requires
        i < args.arms@.len(),
    ensures
        toks(final(out)@) == toks(old(out)@) + impl_code(args@, i as int),
{
    let ghost g0 = toks(out@);
    impl_head_toks(out, args, i);
    impl_sig_toks(out, args, i);
    impl_tail_toks(out, args, i);
    proof {
        assert(toks(out@) =~= g0 + impl_code(args@, i as int));
    }
}

/// Emit the final call expression: the holder is constructed around the
/// subject expression, behind the full chain of indirection layers, and its
/// resolution method is invoked.
#[verifier::rlimit(100)]
fn call_toks(out: &mut Vec<Tok>, args: &Args)
    ensures
        toks(final(out)@) == toks(old(out)@) + call_code(args@),
{
    let n = args.arms.len();
    let mutable = is_expr_mutable(&args.expr);
    let ghost g0 = toks(out@);
    push_tok(out, Tok::Open(Delim::Paren));
    let mut r = refs(n, mutable);
    let ghost pre = out@;
    let ghost rv = r@;
    out.append(&mut r);
    proof {
        lemma_toks_app(pre, rv);
    }
    push_tok(out, ident("Match"));
    push_tok(out, Tok::Open(Delim::Paren));
    push_tok(out, ident("core"));
    let ghost g1 = toks(out@);
    push_tok(out, punct_joint(':'));
    push_tok(out, punct(':'));
    push_tok(out, ident("cell"));
    let ghost g2 = toks(out@);
    push_tok(out, punct_joint(':'));
    push_tok(out, punct(':'));
    push_tok(out, ident("Cell"));
    let ghost g3 = toks(out@);
    push_tok(out, punct_joint(':'));
    push_tok(out, punct(':'));
    push_tok(out, ident("new"));
    push_tok(out, Tok::Open(Delim::Paren));
    push_tok(out, ident("Some"));
    push_tok(out, Tok::Open(Delim::Paren));
    proof {
        assert(g1 =~= g0 + seq![topen(Delim::Paren)] + ref_toks(
            args@.arms.len(),
            expr_mutable(args@.expr),
        ) + seq![tid("Match"@), topen(Delim::Paren), tid("core"@)]);
        assert(g2 =~= g1 + colcol() + seq![tid("cell"@)]);
        assert(g3 =~= g2 + colcol() + seq![tid("Cell"@)]);
        assert(toks(out@) =~= g3 + colcol() + seq![
            tid("new"@),
            topen(Delim::Paren),
            tid("Some"@),
            topen(Delim::Paren),
        ]);
        assert(toks(out@) =~= g0 + call_prefix(args@));
    }
    let ghost g4 = toks(out@);
    copy_range(out, &args.expr, 0, args.expr.len());
    proof {
        assert(toks(args.expr@).subrange(0, args.expr@.len() as int) =~= toks(args.expr@));
    }
    let ghost g5 = toks(out@);
    push_tok(out, Tok::Close(Delim::Paren));
    push_tok(out, Tok::Close(Delim::Paren));
    push_tok(out, Tok::Close(Delim::Paren));
    push_tok(out, Tok::Close(Delim::Paren));
    push_tok(out, punct('.'));
    push_tok(out, ident("spez"));
    push_tok(out, Tok::Open(Delim::Paren));
    push_tok(out, Tok::Close(Delim::Paren));
    proof {
        assert(toks(out@) =~= g5 + call_suffix());
        assert(toks(out@) =~= g0 + call_code(args@));
    }
}

/// Emit the whole dispatch block for a parsed invocation: the holder
/// declaration, one capability and implementation per arm (arm `i` of `n`
/// at indirection depth `n - i - 1`), and the fully indirected call that
/// moves the subject value into the holder exactly once.
pub fn spez_impl(args: &Args) -> (out: Vec<Tok>)
    ensures
        toks(out@) == gen_code(args@),
{
    let n = args.arms.len();
    let mut out: Vec<Tok> = Vec::new();
    push_tok(&mut out, Tok::Open(Delim::Brace));
    holder_toks(&mut out);
    proof {
        assert(toks(out@) =~= seq![topen(Delim::Brace)] + holder_code() + arms_upto(args@, 0));
    }
    let mut i: usize = 0;
    while i < n
        invariant
            i <= n,
            n == args.arms@.len(),
            toks(out@) == seq![topen(Delim::Brace)] + holder_code() + arms_upto(args@, i as int),
        decreases n - i,
    {
        let ghost g = toks(out@);
        trait_toks(&mut out, i);
        impl_toks(&mut out, args, i);
        i += 1;
        proof {
            assert(toks(out@) =~= g + arm_code(args@, i - 1));
            assert(toks(out@) =~= seq![topen(Delim::Brace)] + holder_code() + arms_upto(
                args@,
                i as int,
            ));
        }
    }
    call_toks(&mut out, args);
    push_tok(&mut out, Tok::Close(Delim::Brace));
    proof {
        assert(toks(out@) =~= gen_code(args@));
    }
    out
}

} // verus!
