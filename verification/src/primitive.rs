//! Primitive constants.
use crate::arena::Internable;
use crate::text::{decimal, decimal_text, push_text, quoted, quoted_text};
use crate::typing::types::{Ty, Type};
use vstd::prelude::*;

verus! {

/// A primitive constant of a program.
///
/// A number is held as the text of its literal, without `_` separators: the core
/// computes nothing with numbers, and the host's values give the text its meaning.
/// Money is a currency and an amount, the amount held the same way.
#[derive(Debug, PartialEq, Eq)]
pub enum Prim {
    Boolean(bool),
    Number(String),
    String(String),
    Time(u64),
    Money(String, String),
}

/// The model of a [`Prim`].
pub enum PrimView {
    Boolean(bool),
    Number(Seq<char>),
    String(Seq<char>),
    Time(u64),
    Money(Seq<char>, Seq<char>),
}

impl View for Prim {
    type V = PrimView;

    open spec fn view(&self) -> PrimView {
        match *self {
            Prim::Boolean(b) => PrimView::Boolean(b),
            Prim::Number(text) => PrimView::Number(text@),
            Prim::String(s) => PrimView::String(s@),
            Prim::Time(t) => PrimView::Time(t),
            Prim::Money(currency, amount) => PrimView::Money(currency@, amount@),
        }
    }
}

/// The type of a primitive constant.
pub open spec fn prim_type(p: PrimView) -> Ty {
    match p {
        PrimView::Number(_) => Ty::Num,
        PrimView::String(_) => Ty::Str,
        PrimView::Boolean(_) => Ty::Bool,
        PrimView::Time(_) => Ty::Time,
        PrimView::Money(_, _) => Ty::Money,
    }
}

impl Prim {
    pub fn type_of(&self) -> (ty: Type)
        ensures
            ty@ == prim_type(self@),
    {
        match self {
            Prim::Number(_) => Type::Num,
            Prim::String(_) => Type::Str,
            Prim::Boolean(_) => Type::Bool,
            Prim::Time(_) => Type::Time,
            Prim::Money(_, _) => Type::Money,
        }
    }
}

/// The text of a constant: `true` or `false`, the digits of a number, a string
/// between quotes, the digits of a time, the amount and the currency of money.
pub open spec fn prim_text(p: PrimView) -> Seq<char> {
    match p {
        PrimView::Boolean(b) => if b {
            "true"@
        } else {
            "false"@
        },
        PrimView::Number(text) => text,
        PrimView::String(s) => quoted_text(s),
        PrimView::Time(t) => decimal_text(t),
        PrimView::Money(currency, amount) => amount + currency,
    }
}

impl Prim {
    /// The text of the constant: see `prim_text`.
    pub fn to_text(&self) -> (text: String)
        ensures
            text@ == prim_text(self@),
    {
        match self {
            Prim::Boolean(b) => {
                let mut text = String::new();
                push_text(&mut text, if *b {
                    "true"
                } else {
                    "false"
                });
                assert(text@ =~= prim_text(self@));
                text
            },
            Prim::Number(text) => text.clone(),
            Prim::String(s) => quoted(s.as_str()),
            Prim::Time(t) => decimal(*t),
            Prim::Money(currency, amount) => {
                let mut text = amount.clone();
                push_text(&mut text, currency.as_str());
                text
            },
        }
    }
}

impl Clone for Prim {
    fn clone(&self) -> (out: Prim)
        ensures
            out@ == self@,
    {
        match self {
            Prim::Boolean(b) => Prim::Boolean(*b),
            Prim::Number(text) => Prim::Number(text.clone()),
            Prim::String(s) => Prim::String(s.clone()),
            Prim::Time(t) => Prim::Time(*t),
            Prim::Money(currency, amount) => Prim::Money(currency.clone(), amount.clone()),
        }
    }
}

impl Internable for Prim {
    type Key = PrimView;

    open spec fn key(&self) -> PrimView {
        self@
    }

    fn is_same(&self, other: &Self) -> (r: bool) {
        match (self, other) {
            (Prim::Boolean(a), Prim::Boolean(b)) => *a == *b,
            (Prim::Number(a), Prim::Number(b)) => *a == *b,
            (Prim::String(a), Prim::String(b)) => *a == *b,
            (Prim::Time(a), Prim::Time(b)) => *a == *b,
            (Prim::Money(a, x), Prim::Money(b, y)) => *a == *b && *x == *y,
            _ => false,
        }
    }

    fn duplicate(&self) -> (out: Self) {
        self.clone()
    }
}

} // verus!
