//! The mathematical model of expressions: terms with de Bruijn indices, and
//! the index manipulations that every other part of the kernel is stated over.

use vstd::prelude::*;

verus! {

/// A term of the type theory. Bound variables are de Bruijn indices, `0` being
/// the innermost binder; named constants are indices into the environment.
pub enum Term {
    FVar(u32),
    BVar(u16),
    SortOmega(u16),
    Lam(Box<Term>, Box<Term>),
    Pi(Box<Term>, Box<Term>),
    App(Box<Term>, Box<Term>),
    Ind(Inductive),
    IndConstr(u16, Inductive),
    IndElim(Inductive),
}

/// The declaration of an inductive family. The arity lives in the context of
/// the declaration; each constructor type lives under one more binder, index
/// `0` there being the family itself.
pub struct Inductive {
    pub arity: Box<Term>,
    pub constrs: Seq<Term>,
    pub sm: bool,
}

/// Index of the constant `Level` in every environment.
pub const LEVEL: u32 = 0;

/// Index of the constant `Z`.
pub const LEVEL_Z: u32 = 1;

/// Index of the constant `S`.
pub const LEVEL_S: u32 = 2;

/// Index of the constant `max`.
pub const LEVEL_MAX: u32 = 3;

/// Index of the constant `imax`.
pub const LEVEL_IMAX: u32 = 4;

/// Index of the constant `Sort`.
pub const SORT: u32 = 5;

/// Number of constants that every environment starts with.
pub const BUILTINS: usize = 6;

/// The largest de Bruijn index that an expression can hold.
pub open spec fn max_index() -> nat {
    0xffff
}

/// The application of `f` to `x`.
pub open spec fn app(f: Term, x: Term) -> Term {
    Term::App(Box::new(f), Box::new(x))
}

/// The type of the functions from `domain` whose results have type `body`.
pub open spec fn pi(domain: Term, body: Term) -> Term {
    Term::Pi(Box::new(domain), Box::new(body))
}

/// The function that takes a `domain` to `body`.
pub open spec fn lam(domain: Term, body: Term) -> Term {
    Term::Lam(Box::new(domain), Box::new(body))
}

/// `Sort level`.
pub open spec fn sort(level: Term) -> Term {
    app(Term::FVar(SORT), level)
}

/// Whether `t` is the application of the constant `head` to one argument.
pub open spec fn is_app_of(t: Term, head: u32) -> bool {
    t matches Term::App(f, _) && *f == Term::FVar(head)
}

/// Whether index `n` occurs free in `t`. Going under a binder moves the
/// index sought up by one; the constructors of an inductive family count as
/// bound once more than its arity.
pub open spec fn has_bvar(t: Term, n: nat) -> bool
    decreases t,
{
    match t {
        Term::FVar(_) => false,
        Term::BVar(m) => m == n,
        Term::SortOmega(_) => false,
        Term::Lam(a, b) => has_bvar(*a, n) || has_bvar(*b, n + 1),
        Term::Pi(a, b) => has_bvar(*a, n) || has_bvar(*b, n + 1),
        Term::App(a, b) => has_bvar(*a, n) || has_bvar(*b, n),
        Term::Ind(i) => ind_has_bvar(i, n),
        Term::IndConstr(_, i) => ind_has_bvar(i, n),
        Term::IndElim(i) => ind_has_bvar(i, n),
    }
}

/// Whether index `n` occurs free in the declaration of a family.
pub open spec fn ind_has_bvar(i: Inductive, n: nat) -> bool
    decreases i,
{
    has_bvar(*i.arity, n) || exists|k: int|
        0 <= k < i.constrs.len() && has_bvar(#[trigger] i.constrs[k], n + 1)
}

/// What is done to the bound variables of a term in one traversal.
pub enum Rewrite {
    /// Add `by` to every index that is at least the depth.
    Raise(nat),
    /// Take `by` from every index that is at least the depth plus `by`;
    /// an index between the two cannot be removed.
    Lower(nat),
    /// Put a term in place of the index that equals the depth, raised by the
    /// depth and by a further shift, and take one from every larger index.
    Subst(Term, nat),
}

/// Substitution ranks above the raising that it makes use of.
pub open spec fn rewrite_rank(op: Rewrite) -> nat {
    match op {
        Rewrite::Subst(_, _) => 1,
        _ => 0,
    }
}

/// The traversal that raising, lowering and substituting share. `None` means
/// that an index would leave the 16 bits it is stored in, or that lowering
/// met an index it cannot remove.
pub open spec fn rewrite(t: Term, depth: nat, op: Rewrite) -> Option<Term>
    decreases rewrite_rank(op), t,
{
    match t {
        Term::FVar(_) => Some(t),
        Term::SortOmega(_) => Some(t),
        Term::BVar(n) => match op {
            Rewrite::Raise(by) => if depth <= n {
                if n + by <= max_index() {
                    Some(Term::BVar((n + by) as u16))
                } else {
                    None
                }
            } else {
                Some(t)
            },
            Rewrite::Lower(by) => if depth <= n && n < depth + by {
                None
            } else if depth + by <= n {
                Some(Term::BVar((n - by) as u16))
            } else {
                Some(t)
            },
            Rewrite::Subst(new, shift) => if n == depth {
                rewrite(new, 0, Rewrite::Raise(depth + shift))
            } else if n > depth {
                Some(Term::BVar((n - 1) as u16))
            } else {
                Some(t)
            },
        },
        Term::Lam(a, b) => match (rewrite(*a, depth, op), rewrite(*b, depth + 1, op)) {
            (Some(x), Some(y)) => Some(lam(x, y)),
            _ => None,
        },
        Term::Pi(a, b) => match (rewrite(*a, depth, op), rewrite(*b, depth + 1, op)) {
            (Some(x), Some(y)) => Some(pi(x, y)),
            _ => None,
        },
        Term::App(a, b) => match (rewrite(*a, depth, op), rewrite(*b, depth, op)) {
            (Some(x), Some(y)) => Some(app(x, y)),
            _ => None,
        },
        Term::Ind(i) => match rewrite_ind(i, depth, op) {
            Some(j) => Some(Term::Ind(j)),
            None => None,
        },
        Term::IndConstr(k, i) => match rewrite_ind(i, depth, op) {
            Some(j) => Some(Term::IndConstr(k, j)),
            None => None,
        },
        Term::IndElim(i) => match rewrite_ind(i, depth, op) {
            Some(j) => Some(Term::IndElim(j)),
            None => None,
        },
    }
}

/// The traversal of the declaration of a family: its arity at the depth
/// given, its constructors one binder deeper.
pub open spec fn rewrite_ind(i: Inductive, depth: nat, op: Rewrite) -> Option<Inductive>
    decreases rewrite_rank(op), i,
{
    match rewrite(*i.arity, depth, op) {
        Some(a) => if forall|k: int|
            0 <= k < i.constrs.len() ==> rewrite(#[trigger] i.constrs[k], depth + 1, op) is Some {
            Some(
                Inductive {
                    arity: Box::new(a),
                    constrs: Seq::new(
                        i.constrs.len(),
                        |k: int|
                            if 0 <= k < i.constrs.len() {
                                rewrite(i.constrs[k], depth + 1, op).unwrap()
                            } else {
                                Term::FVar(0)
                            },
                    ),
                    sm: i.sm,
                },
            )
        } else {
            None
        },
        None => None,
    }
}

/// `t` with every index that is at least `depth` raised by `by`.
pub open spec fn raise(t: Term, depth: nat, by: nat) -> Option<Term> {
    rewrite(t, depth, Rewrite::Raise(by))
}

/// `t` with every index that is at least `depth + by` lowered by `by`;
/// `None` where an index from `depth` up to there occurs.
pub open spec fn lower(t: Term, depth: nat, by: nat) -> Option<Term> {
    rewrite(t, depth, Rewrite::Lower(by))
}

/// `t` with `new` in place of its outermost free index `0`, and the larger
/// free indices lowered by one.
pub open spec fn subst(t: Term, new: Term) -> Option<Term> {
    rewrite(t, 0, Rewrite::Subst(new, 0))
}

/// `head` applied to the variables `lo + count - 1`, ..., `lo`, in this order.
pub open spec fn app_bvars(head: Term, lo: nat, count: nat) -> Option<Term>
    decreases count,
{
    if count == 0 {
        Some(head)
    } else if lo > max_index() {
        None
    } else {
        match app_bvars(head, lo + 1, (count - 1) as nat) {
            Some(f) => Some(app(f, Term::BVar(lo as u16))),
            None => None,
        }
    }
}

/// The domains of the leading binders `Pi` of `t`, outermost first.
pub open spec fn pi_domains(t: Term) -> Seq<Term>
    decreases t,
{
    match t {
        Term::Pi(l, r) => seq![*l] + pi_domains(*r),
        _ => seq![],
    }
}

/// What stands under the leading binders `Pi` of `t`.
pub open spec fn pi_body(t: Term) -> Term
    decreases t,
{
    match t {
        Term::Pi(_, r) => pi_body(*r),
        _ => t,
    }
}

/// `body` under binders `Pi` with the given domains, outermost first.
pub open spec fn pi_build(domains: Seq<Term>, body: Term) -> Term
    decreases domains.len(),
{
    if domains.len() == 0 {
        body
    } else {
        pi(domains[0], pi_build(domains.skip(1), body))
    }
}

/// `body` under abstractions with the given domains, outermost first.
pub open spec fn lam_build(domains: Seq<Term>, body: Term) -> Term
    decreases domains.len(),
{
    if domains.len() == 0 {
        body
    } else {
        lam(domains[0], lam_build(domains.skip(1), body))
    }
}

/// The head of a chain of applications.
pub open spec fn spine_head(t: Term) -> Term
    decreases t,
{
    match t {
        Term::App(f, _) => spine_head(*f),
        _ => t,
    }
}

/// The arguments of a chain of applications, first argument first.
pub open spec fn spine_args(t: Term) -> Seq<Term>
    decreases t,
{
    match t {
        Term::App(f, x) => spine_args(*f).push(*x),
        _ => seq![],
    }
}

/// `head` applied to `args` in turn.
pub open spec fn spine_build(head: Term, args: Seq<Term>) -> Term
    decreases args.len(),
{
    if args.len() == 0 {
        head
    } else {
        app(spine_build(head, args.drop_last()), args.last())
    }
}

/// No index of a term reaches past 16 bits, so nothing happens at a greater
/// depth.
pub proof fn lemma_has_bvar_beyond(t: Term, n: nat)
    requires
        n > max_index(),
    ensures
        !has_bvar(t, n),
    decreases t,
{
    match t {
        Term::Lam(a, b) | Term::Pi(a, b) => {
            lemma_has_bvar_beyond(*a, n);
            lemma_has_bvar_beyond(*b, n + 1);
        },
        Term::App(a, b) => {
            lemma_has_bvar_beyond(*a, n);
            lemma_has_bvar_beyond(*b, n);
        },
        Term::Ind(i) | Term::IndConstr(_, i) | Term::IndElim(i) => {
            lemma_ind_has_bvar_beyond(i, n);
        },
        _ => {},
    }
}

/// No index of a declaration reaches past 16 bits.
pub proof fn lemma_ind_has_bvar_beyond(i: Inductive, n: nat)
    requires
        n > max_index(),
    ensures
        !ind_has_bvar(i, n),
    decreases i,
{
    lemma_has_bvar_beyond(*i.arity, n);
    assert forall|k: int| 0 <= k < i.constrs.len() implies !has_bvar(
        #[trigger] i.constrs[k],
        n + 1,
    ) by {
        lemma_has_bvar_beyond(i.constrs[k], n + 1);
    }
}

/// At a depth past every index, a traversal leaves the term as it is.
pub proof fn lemma_rewrite_beyond(t: Term, depth: nat, op: Rewrite)
    requires
        depth > max_index(),
    ensures
        rewrite(t, depth, op) == Some(t),
    decreases t,
{
    match t {
        Term::Lam(a, b) | Term::Pi(a, b) => {
            lemma_rewrite_beyond(*a, depth, op);
            lemma_rewrite_beyond(*b, depth + 1, op);
        },
        Term::App(a, b) => {
            lemma_rewrite_beyond(*a, depth, op);
            lemma_rewrite_beyond(*b, depth, op);
        },
        Term::Ind(i) | Term::IndConstr(_, i) | Term::IndElim(i) => {
            lemma_rewrite_ind_beyond(i, depth, op);
        },
        _ => {},
    }
}

/// At a depth past every index, a traversal leaves a declaration as it is.
pub proof fn lemma_rewrite_ind_beyond(i: Inductive, depth: nat, op: Rewrite)
    requires
        depth > max_index(),
    ensures
        rewrite_ind(i, depth, op) == Some(i),
    decreases i,
{
    lemma_rewrite_beyond(*i.arity, depth, op);
    assert forall|k: int| 0 <= k < i.constrs.len() implies rewrite(
        #[trigger] i.constrs[k],
        depth + 1,
        op,
    ) == Some(i.constrs[k]) by {
        lemma_rewrite_beyond(i.constrs[k], depth + 1, op);
    }
    assert(rewrite_ind(i, depth, op).unwrap().constrs =~= i.constrs);
}

/// Raising and then lowering by the same amount at the same depth gives the
/// term back, whenever the raising succeeds.
pub proof fn lemma_raise_then_lower(t: Term, depth: nat, by: nat)
    requires
        raise(t, depth, by) is Some,
    ensures
        lower(raise(t, depth, by).unwrap(), depth, by) == Some(t),
    decreases t,
{
    match t {
        Term::Lam(a, b) | Term::Pi(a, b) => {
            lemma_raise_then_lower(*a, depth, by);
            lemma_raise_then_lower(*b, depth + 1, by);
        },
        Term::App(a, b) => {
            lemma_raise_then_lower(*a, depth, by);
            lemma_raise_then_lower(*b, depth, by);
        },
        Term::Ind(i) | Term::IndConstr(_, i) | Term::IndElim(i) => {
            lemma_raise_then_lower_ind(i, depth, by);
        },
        _ => {},
    }
}

/// Raising and then lowering a declaration by the same amount gives it back.
pub proof fn lemma_raise_then_lower_ind(i: Inductive, depth: nat, by: nat)
    requires
        rewrite_ind(i, depth, Rewrite::Raise(by)) is Some,
    ensures
        rewrite_ind(
            rewrite_ind(i, depth, Rewrite::Raise(by)).unwrap(),
            depth,
            Rewrite::Lower(by),
        ) == Some(i),
    decreases i,
{
    let r = rewrite_ind(i, depth, Rewrite::Raise(by)).unwrap();
    lemma_raise_then_lower(*i.arity, depth, by);
    assert forall|k: int| 0 <= k < r.constrs.len() implies rewrite(
        #[trigger] r.constrs[k],
        depth + 1,
        Rewrite::Lower(by),
    ) == Some(i.constrs[k]) by {
        assert(rewrite(i.constrs[k], depth + 1, Rewrite::Raise(by)) is Some);
        lemma_raise_then_lower(i.constrs[k], depth + 1, by);
    }
    assert(rewrite_ind(r, depth, Rewrite::Lower(by)).unwrap().constrs =~= i.constrs);
}

} // verus!
