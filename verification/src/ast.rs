//! The tree that a hieroglyphic cluster description parses into.

use crate::tokenizer::Tok;
use vstd::prelude::*;

verus! {

/// A cluster: a single sign, or signs arranged beside, above, over or
/// inside one another.
#[derive(Debug)]
pub enum Expr {
    Sign(Tok),
    Other(Tok),
    Horizontal(Vec<Box<Expr>>),
    Vertical(Vec<Box<Expr>>),
    Overlay(Box<Expr>, Box<Expr>),
    Insertion {
        base: Box<Expr>,
        start_top: Option<Box<Expr>>,
        start_bottom: Option<Box<Expr>>,
        end_top: Option<Box<Expr>>,
        end_bottom: Option<Box<Expr>>,
    },
}

/// `first` followed by the members of `rest`.
pub open spec fn group_members(first: Box<Expr>, rest: Seq<Box<Expr>>) -> Seq<Box<Expr>> {
    seq![first] + rest
}

/// A row that starts with `l` and goes on with `r`, left to right.
pub fn make_horizontal_group(l: Box<Expr>, r: Vec<Box<Expr>>) -> (group: Box<Expr>)
    ensures
        *group matches Expr::Horizontal(members) && members@ == group_members(l, r@),
{
    let mut members: Vec<Box<Expr>> = Vec::new();
    members.push(l);
    let mut r = r;
    members.append(&mut r);
    Box::new(Expr::Horizontal(members))
}

/// A stack that starts with `l` and goes on with `r`.
pub fn make_vertical_group(l: Box<Expr>, r: Vec<Box<Expr>>) -> (group: Box<Expr>)
    ensures
        *group matches Expr::Vertical(members) && members@ == group_members(l, r@),
{
    let mut members: Vec<Box<Expr>> = Vec::new();
    members.push(l);
    let mut r = r;
    members.append(&mut r);
    Box::new(Expr::Vertical(members))
}

} // verus!
