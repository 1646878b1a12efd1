//! The structured model of one invocation: the subject expression, its
//! optional binding name, and the ordered list of type-guarded arms.

use vstd::prelude::*;
use crate::token::{chars_eq, chars_of, toks, Tok, TokView};

verus! {

/// One `match` clause: optional generic-parameter tokens (the text between
/// `<` and `>`), the type pattern, an optional `where` constraint clause,
/// an optional declared result type, and the body.
#[derive(Debug, PartialEq, Eq)]
pub struct Arm {
    pub generics: Option<Vec<Tok>>,
    pub ty: Vec<Tok>,
    pub where_clause: Option<Vec<Tok>>,
    pub return_type: Option<Vec<Tok>>,
    pub body: Vec<Tok>,
}

/// The mathematical image of one arm.
pub struct ArmView {
    pub generics: Option<Seq<TokView>>,
    pub ty: Seq<TokView>,
    pub where_clause: Option<Seq<TokView>>,
    pub return_type: Option<Seq<TokView>>,
    pub body: Seq<TokView>,
}

impl View for Arm {
    type V = ArmView;

    open spec fn view(&self) -> ArmView {
        ArmView {
            generics: match self.generics {
                Some(g) => Some(toks(g@)),
                None => None,
            },
            ty: toks(self.ty@),
            where_clause: match self.where_clause {
                Some(w) => Some(toks(w@)),
                None => None,
            },
            return_type: match self.return_type {
                Some(r) => Some(toks(r@)),
                None => None,
            },
            body: toks(self.body@),
        }
    }
}

/// A parsed invocation: the optional subject binding name, the subject
/// expression, and the ordered arm list. Arm order is a strict priority
/// ranking; arms are never reordered or deduplicated.
#[derive(Debug, PartialEq, Eq)]
pub struct Args {
    pub name: Option<Vec<char>>,
    pub expr: Vec<Tok>,
    pub arms: Vec<Arm>,
}

/// The images of a sequence of arms.
pub open spec fn arms_views(s: Seq<Arm>) -> Seq<ArmView> {
    s.map(|i: int, a: Arm| a@)
}

/// The mathematical image of a parsed invocation.
pub struct ArgsView {
    pub name: Option<Seq<char>>,
    pub expr: Seq<TokView>,
    pub arms: Seq<ArmView>,
}

impl View for Args {
    type V = ArgsView;

    open spec fn view(&self) -> ArgsView {
        ArgsView {
            name: match self.name {
                Some(n) => Some(n@),
                None => None,
            },
            expr: toks(self.expr@),
            arms: arms_views(self.arms@),
        }
    }
}

/// The image of an optional binding name.
pub open spec fn name_view(n: Option<Vec<char>>) -> Option<Seq<char>> {
    match n {
        Some(x) => Some(x@),
        None => None,
    }
}

/// Whether the subject expression is written as a mutable borrow. Every
/// generated indirection layer then uses `&mut` instead of `&`.
pub open spec fn expr_mutable(e: Seq<TokView>) -> bool {
    e.len() >= 2 && (e[0] matches TokView::Punct('&', _)) && e[1] == TokView::Ident("mut"@)
}

/// Executable check matching [`expr_mutable`].
pub fn is_expr_mutable(e: &Vec<Tok>) -> (r: bool)
    ensures
        r == expr_mutable(toks(e@)),
{
    if e.len() < 2 {
        return false;
    }
    let first_amp = match &e[0] {
        Tok::Punct(c, _) => *c == '&',
        _ => false,
    };
    if !first_amp {
        return false;
    }
    match &e[1] {
        Tok::Ident(s) => {
            let kw = chars_of("mut");
            chars_eq(s, &kw)
        },
        _ => false,
    }
}

} // verus!
