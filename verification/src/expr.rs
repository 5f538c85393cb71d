//! Expressions as the kernel holds them in memory, each standing for a term,
//! and the index manipulations on them.

use vstd::prelude::*;
use crate::term::Inductive;
use crate::term::Rewrite;
use crate::term::Term;
use crate::term::has_bvar;
use crate::term::ind_has_bvar;
use crate::term::lemma_has_bvar_beyond;
use crate::term::lemma_rewrite_beyond;
use crate::term::lower;
use crate::term::raise;
use crate::term::rewrite;
use crate::term::rewrite_ind;
use crate::term::rewrite_rank;
use crate::term::subst;

verus! {

/// An expression of the type theory.
#[derive(Debug)]
pub enum Expr {
    /// A named constant, by its index in the environment.
    FVar(u32),
    /// A bound variable, by its de Bruijn index.
    BVar(u16),
    /// A universe above every `Sort`.
    SortOmega(u16),
    /// An abstraction: the type of its variable, and its body.
    Lam(Box<Expr>, Box<Expr>),
    /// A dependent function type: its domain and its codomain.
    Pi(Box<Expr>, Box<Expr>),
    /// An application: the function and its argument.
    App(Box<Expr>, Box<Expr>),
    /// The type former of an inductive family.
    Ind(Ind),
    /// One constructor of an inductive family.
    IndConstr(u16, Ind),
    /// The recursor of an inductive family.
    IndElim(Ind),
}

/// The declaration of an inductive family.
#[derive(Debug)]
pub struct Ind {
    /// The type of the family: binders for its indices, then a sort.
    pub arity: Box<Expr>,
    /// The types of the constructors, where index `0` is the family itself.
    pub constrs: Vec<Expr>,
    /// Whether the family eliminates into propositions only.
    pub sm: bool,
}

/// The term that an expression stands for.
pub open spec fn expr_view(e: Expr) -> Term
    decreases e,
{
    match e {
        Expr::FVar(i) => Term::FVar(i),
        Expr::BVar(n) => Term::BVar(n),
        Expr::SortOmega(k) => Term::SortOmega(k),
        Expr::Lam(a, b) => Term::Lam(Box::new(expr_view(*a)), Box::new(expr_view(*b))),
        Expr::Pi(a, b) => Term::Pi(Box::new(expr_view(*a)), Box::new(expr_view(*b))),
        Expr::App(a, b) => Term::App(Box::new(expr_view(*a)), Box::new(expr_view(*b))),
        Expr::Ind(i) => Term::Ind(ind_view(i)),
        Expr::IndConstr(k, i) => Term::IndConstr(k, ind_view(i)),
        Expr::IndElim(i) => Term::IndElim(ind_view(i)),
    }
}

/// The declaration that a descriptor stands for.
pub open spec fn ind_view(i: Ind) -> Inductive
    decreases i,
{
    Inductive {
        arity: Box::new(expr_view(*i.arity)),
        constrs: Seq::new(
            i.constrs.len() as nat,
            |k: int|
                if 0 <= k < i.constrs.len() {
                    expr_view(i.constrs[k])
                } else {
                    Term::FVar(0)
                },
        ),
        sm: i.sm,
    }
}

impl View for Expr {
    type V = Term;

    open spec fn view(&self) -> Term {
        expr_view(*self)
    }
}

impl View for Ind {
    type V = Inductive;

    open spec fn view(&self) -> Inductive {
        ind_view(*self)
    }
}

/// The term behind an optional expression.
pub open spec fn option_view(r: Option<Expr>) -> Option<Term> {
    match r {
        Some(e) => Some(e@),
        None => None,
    }
}

/// The declaration behind an optional descriptor.
pub open spec fn option_ind_view(r: Option<Ind>) -> Option<Inductive> {
    match r {
        Some(i) => Some(i@),
        None => None,
    }
}

/// What a traversal does to the bound variables it meets.
pub enum Edit<'a> {
    Raise(u32),
    Lower(u16),
    Subst(&'a Expr, u16),
}

impl<'a> View for Edit<'a> {
    type V = Rewrite;

    open spec fn view(&self) -> Rewrite {
        match self {
            Edit::Raise(by) => Rewrite::Raise(*by as nat),
            Edit::Lower(by) => Rewrite::Lower(*by as nat),
            Edit::Subst(new, shift) => Rewrite::Subst(new@, *shift as nat),
        }
    }
}

fn clone_expr(e: &Expr) -> (r: Expr)
    ensures
        r@ == e@,
    decreases e,
{
    match e {
        Expr::FVar(i) => Expr::FVar(*i),
        Expr::BVar(n) => Expr::BVar(*n),
        Expr::SortOmega(k) => Expr::SortOmega(*k),
        Expr::Lam(a, b) => Expr::Lam(Box::new(clone_expr(a)), Box::new(clone_expr(b))),
        Expr::Pi(a, b) => Expr::Pi(Box::new(clone_expr(a)), Box::new(clone_expr(b))),
        Expr::App(a, b) => Expr::App(Box::new(clone_expr(a)), Box::new(clone_expr(b))),
        Expr::Ind(i) => Expr::Ind(clone_ind(i)),
        Expr::IndConstr(k, i) => Expr::IndConstr(*k, clone_ind(i)),
        Expr::IndElim(i) => Expr::IndElim(clone_ind(i)),
    }
}

fn clone_ind(i: &Ind) -> (r: Ind)
    ensures
        r@ == i@,
    decreases i,
{
    let arity = clone_expr(&i.arity);
    let mut constrs: Vec<Expr> = Vec::new();
    let mut k: usize = 0;
    while k < i.constrs.len()
        invariant
            k <= i.constrs.len(),
            constrs.len() == k,
            forall|j: int| 0 <= j < k ==> (#[trigger] constrs[j])@ == i.constrs[j]@,
        decreases i.constrs.len() - k,
    {
        constrs.push(clone_expr(&i.constrs[k]));
        k += 1;
    }
    let r = Ind { arity: Box::new(arity), constrs, sm: i.sm };
    assert(r@.constrs =~= i@.constrs);
    r
}

fn expr_eq(a: &Expr, b: &Expr) -> (r: bool)
    ensures
        r == (a@ == b@),
    decreases a,
{
    match (a, b) {
        (Expr::FVar(x), Expr::FVar(y)) => *x == *y,
        (Expr::BVar(x), Expr::BVar(y)) => *x == *y,
        (Expr::SortOmega(x), Expr::SortOmega(y)) => *x == *y,
        (Expr::Lam(a1, a2), Expr::Lam(b1, b2)) => expr_eq(a1, b1) && expr_eq(a2, b2),
        (Expr::Pi(a1, a2), Expr::Pi(b1, b2)) => expr_eq(a1, b1) && expr_eq(a2, b2),
        (Expr::App(a1, a2), Expr::App(b1, b2)) => expr_eq(a1, b1) && expr_eq(a2, b2),
        (Expr::Ind(i), Expr::Ind(j)) => ind_eq(i, j),
        (Expr::IndConstr(x, i), Expr::IndConstr(y, j)) => *x == *y && ind_eq(i, j),
        (Expr::IndElim(i), Expr::IndElim(j)) => ind_eq(i, j),
        _ => false,
    }
}

fn ind_eq(a: &Ind, b: &Ind) -> (r: bool)
    ensures
        r == (a@ == b@),
    decreases a,
{
    if a.sm != b.sm || !expr_eq(&a.arity, &b.arity) {
        return false;
    }
    if a.constrs.len() != b.constrs.len() {
        assert(a@.constrs.len() != b@.constrs.len());
        return false;
    }
    let mut k: usize = 0;
    while k < a.constrs.len()
        invariant
            k <= a.constrs.len(),
            a.constrs.len() == b.constrs.len(),
            forall|j: int| 0 <= j < k ==> (#[trigger] a.constrs[j])@ == b.constrs[j]@,
        decreases a.constrs.len() - k,
    {
        if !expr_eq(&a.constrs[k], &b.constrs[k]) {
            assert(a@.constrs[k as int] != b@.constrs[k as int]);
            return false;
        }
        k += 1;
    }
    assert(a@.constrs =~= b@.constrs);
    true
}

fn has_bvar_expr(e: &Expr, n: u16) -> (r: bool)
    ensures
        r == has_bvar(e@, n as nat),
    decreases e, 0nat,
{
    match e {
        Expr::FVar(_) => false,
        Expr::BVar(m) => *m == n,
        Expr::SortOmega(_) => false,
        Expr::Lam(a, b) => has_bvar_expr(a, n) || has_bvar_under(b, n),
        Expr::Pi(a, b) => has_bvar_expr(a, n) || has_bvar_under(b, n),
        Expr::App(a, b) => has_bvar_expr(a, n) || has_bvar_expr(b, n),
        Expr::Ind(i) => has_bvar_ind(i, n),
        Expr::IndConstr(_, i) => has_bvar_ind(i, n),
        Expr::IndElim(i) => has_bvar_ind(i, n),
    }
}

fn has_bvar_under(e: &Expr, n: u16) -> (r: bool)
    ensures
        r == has_bvar(e@, n as nat + 1),
    decreases e, 1nat,
{
    if n == u16::MAX {
        proof {
            lemma_has_bvar_beyond(e@, n as nat + 1);
        }
        false
    } else {
        has_bvar_expr(e, n + 1)
    }
}

fn has_bvar_ind(i: &Ind, n: u16) -> (r: bool)
    ensures
        r == ind_has_bvar(i@, n as nat),
    decreases i, 0nat,
{
    if has_bvar_expr(&i.arity, n) {
        return true;
    }
    let mut k: usize = 0;
    while k < i.constrs.len()
        invariant
            k <= i.constrs.len(),
            forall|j: int| 0 <= j < k ==> !has_bvar(#[trigger] i@.constrs[j], n as nat + 1),
        decreases i.constrs.len() - k,
    {
        if has_bvar_under(&i.constrs[k], n) {
            assert(has_bvar(i@.constrs[k as int], n as nat + 1));
            return true;
        }
        k += 1;
    }
    false
}

/// One traversal of `e` that does `op` to the bound variables from `depth`
/// on.
pub fn rewrite_expr(e: &Expr, depth: u16, op: &Edit) -> (r: Option<Expr>)
    ensures
        option_view(r) == rewrite(e@, depth as nat, op@),
    decreases rewrite_rank(op@), e, 0nat,
{
    match e {
        Expr::FVar(i) => Some(Expr::FVar(*i)),
        Expr::SortOmega(k) => Some(Expr::SortOmega(*k)),
        Expr::BVar(n) => match op {
            Edit::Raise(by) => {
                if depth <= *n {
                    let m: u64 = *n as u64 + *by as u64;
                    if m <= 0xffff {
                        Some(Expr::BVar(m as u16))
                    } else {
                        None
                    }
                } else {
                    Some(Expr::BVar(*n))
                }
            },
            Edit::Lower(by) => {
                let top: u32 = depth as u32 + *by as u32;
                if depth <= *n && (*n as u32) < top {
                    None
                } else if top <= *n as u32 {
                    Some(Expr::BVar(*n - *by))
                } else {
                    Some(Expr::BVar(*n))
                }
            },
            Edit::Subst(new, shift) => {
                if *n == depth {
                    rewrite_expr(new, 0, &Edit::Raise(depth as u32 + *shift as u32))
                } else if *n > depth {
                    Some(Expr::BVar(*n - 1))
                } else {
                    Some(Expr::BVar(*n))
                }
            },
        },
        Expr::Lam(a, b) => {
            match rewrite_expr(a, depth, op) {
                Some(x) => match rewrite_under(b, depth, op) {
                    Some(y) => Some(Expr::Lam(Box::new(x), Box::new(y))),
                    None => None,
                },
                None => None,
            }
        },
        Expr::Pi(a, b) => {
            match rewrite_expr(a, depth, op) {
                Some(x) => match rewrite_under(b, depth, op) {
                    Some(y) => Some(Expr::Pi(Box::new(x), Box::new(y))),
                    None => None,
                },
                None => None,
            }
        },
        Expr::App(a, b) => {
            match rewrite_expr(a, depth, op) {
                Some(x) => match rewrite_expr(b, depth, op) {
                    Some(y) => Some(Expr::App(Box::new(x), Box::new(y))),
                    None => None,
                },
                None => None,
            }
        },
        Expr::Ind(i) => match rewrite_ind_expr(i, depth, op) {
            Some(j) => Some(Expr::Ind(j)),
            None => None,
        },
        Expr::IndConstr(k, i) => match rewrite_ind_expr(i, depth, op) {
            Some(j) => Some(Expr::IndConstr(*k, j)),
            None => None,
        },
        Expr::IndElim(i) => match rewrite_ind_expr(i, depth, op) {
            Some(j) => Some(Expr::IndElim(j)),
            None => None,
        },
    }
}

fn rewrite_under(e: &Expr, depth: u16, op: &Edit) -> (r: Option<Expr>)
    ensures
        option_view(r) == rewrite(e@, depth as nat + 1, op@),
    decreases rewrite_rank(op@), e, 1nat,
{
    if depth == u16::MAX {
        proof {
            lemma_rewrite_beyond(e@, depth as nat + 1, op@);
        }
        Some(clone_expr(e))
    } else {
        rewrite_expr(e, depth + 1, op)
    }
}

fn rewrite_ind_expr(i: &Ind, depth: u16, op: &Edit) -> (r: Option<Ind>)
    ensures
        option_ind_view(r) == rewrite_ind(i@, depth as nat, op@),
    decreases rewrite_rank(op@), i, 0nat,
{
    let arity = match rewrite_expr(&i.arity, depth, op) {
        Some(a) => a,
        None => {
            return None;
        },
    };
    let mut constrs: Vec<Expr> = Vec::new();
    let mut k: usize = 0;
    while k < i.constrs.len()
        invariant
            k <= i.constrs.len(),
            constrs.len() == k,
            forall|j: int|
                0 <= j < k ==> rewrite(#[trigger] i@.constrs[j], depth as nat + 1, op@) == Some(
                    constrs[j]@,
                ),
        decreases i.constrs.len() - k,
    {
        match rewrite_under(&i.constrs[k], depth, op) {
            Some(c) => {
                constrs.push(c);
            },
            None => {
                assert(rewrite(i@.constrs[k as int], depth as nat + 1, op@) is None);
                return None;
            },
        }
        k += 1;
    }
    let r = Ind { arity: Box::new(arity), constrs, sm: i.sm };
    assert(r@.constrs =~= rewrite_ind(i@, depth as nat, op@).unwrap().constrs);
    Some(r)
}

impl Clone for Expr {
    fn clone(&self) -> (r: Self)
        ensures
            r@ == self@,
    {
        clone_expr(self)
    }
}

impl Clone for Ind {
    fn clone(&self) -> (r: Self)
        ensures
            r@ == self@,
    {
        clone_ind(self)
    }
}

impl PartialEq for Expr {
    fn eq(&self, other: &Self) -> (r: bool) {
        expr_eq(self, other)
    }
}

impl vstd::std_specs::cmp::PartialEqSpecImpl for Expr {
    open spec fn obeys_eq_spec() -> bool {
        true
    }

    open spec fn eq_spec(&self, other: &Self) -> bool {
        self@ == other@
    }
}

impl PartialEq for Ind {
    fn eq(&self, other: &Self) -> (r: bool) {
        ind_eq(self, other)
    }
}

impl vstd::std_specs::cmp::PartialEqSpecImpl for Ind {
    open spec fn obeys_eq_spec() -> bool {
        true
    }

    open spec fn eq_spec(&self, other: &Self) -> bool {
        self@ == other@
    }
}

impl Expr {
    /// The application of `f` to `x`.
    pub fn app(f: Expr, x: Expr) -> (r: Expr)
        ensures
            r@ == crate::term::app(f@, x@),
    {
        Expr::App(Box::new(f), Box::new(x))
    }

    /// The type of the functions from `domain` whose results have type `body`.
    pub fn pi(domain: Expr, body: Expr) -> (r: Expr)
        ensures
            r@ == crate::term::pi(domain@, body@),
    {
        Expr::Pi(Box::new(domain), Box::new(body))
    }

    /// The function that takes a `domain` to `body`.
    pub fn lam(domain: Expr, body: Expr) -> (r: Expr)
        ensures
            r@ == crate::term::lam(domain@, body@),
    {
        Expr::Lam(Box::new(domain), Box::new(body))
    }

    /// `Sort level`.
    pub fn sort(level: Expr) -> (r: Expr)
        ensures
            r@ == crate::term::sort(level@),
    {
        let head = Expr::FVar(crate::term::SORT);
        assert(head@ == Term::FVar(crate::term::SORT));
        Expr::App(Box::new(head), Box::new(level))
    }

    /// Whether the two expressions are the same term.
    pub fn same(&self, other: &Expr) -> (r: bool)
        ensures
            r == (self@ == other@),
    {
        expr_eq(self, other)
    }

    /// Whether index `n` occurs free in the expression.
    pub fn has_bvar(&self, n: u16) -> (r: bool)
        ensures
            r == has_bvar(self@, n as nat),
    {
        has_bvar_expr(self, n)
    }

    /// The expression with every index from `depth` on raised by `by`, or
    /// `None` where an index would pass 16 bits.
    pub fn raise(&self, depth: u16, by: u16) -> (r: Option<Expr>)
        ensures
            option_view(r) == raise(self@, depth as nat, by as nat),
    {
        rewrite_expr(self, depth, &Edit::Raise(by as u32))
    }

    /// The expression with every index from `depth + by` on lowered by `by`,
    /// or `None` where an index from `depth` up to there occurs.
    pub fn lower(&self, depth: u16, by: u16) -> (r: Option<Expr>)
        ensures
            option_view(r) == lower(self@, depth as nat, by as nat),
    {
        rewrite_expr(self, depth, &Edit::Lower(by))
    }

    /// The expression with `new` in place of its outermost free index `0`, or
    /// `None` where an index of `new` would pass 16 bits under the binders
    /// it is put beneath.
    pub fn subst(&self, new: &Expr) -> (r: Option<Expr>)
        ensures
            option_view(r) == subst(self@, new@),
    {
        rewrite_expr(self, 0, &Edit::Subst(new, 0))
    }
}

} // verus!
