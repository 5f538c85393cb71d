//! What the kernel decides, stated on terms: the type of a term, when two
//! terms are definitionally equal, and when an inductive family is
//! accepted. Every function here is total: `fuel` bounds how deeply its
//! steps nest.

use vstd::prelude::*;
use crate::error::KernelError;
use crate::level::LevelTerm;
use crate::level::MAX_ATOMS;
use crate::level::levels_agree;
use crate::reduce::normal_or_self;
use crate::reduce::weak_head;
use crate::term::Inductive;
use crate::term::LEVEL;
use crate::term::LEVEL_IMAX;
use crate::term::LEVEL_MAX;
use crate::term::LEVEL_S;
use crate::term::LEVEL_Z;
use crate::term::SORT;
use crate::term::Term;
use crate::term::app;
use crate::term::app_bvars;
use crate::term::has_bvar;
use crate::term::is_app_of;
use crate::term::lower;
use crate::term::max_index;
use crate::term::pi;
use crate::term::pi_body;
use crate::term::pi_build;
use crate::term::pi_domains;
use crate::term::raise;
use crate::term::sort;
use crate::term::subst;

verus! {

/// A universe: `Sort` of a level, or one of the universes above all those.
pub enum Universe {
    Sort(Term),
    SortOmega(u16),
}

/// Whether a universe level is zero for every value of its atoms, for
/// none, or for some.
#[derive(Clone, Copy, Debug, PartialEq, Eq, Structural)]
pub enum LevelKind {
    AlwaysZero,
    SometimesZero,
    AlwaysNonzero,
}

/// The later of two kinds in the order zero, sometimes zero, nonzero.
pub open spec fn kind_max(a: LevelKind, b: LevelKind) -> LevelKind {
    match (a, b) {
        (LevelKind::AlwaysNonzero, _) => LevelKind::AlwaysNonzero,
        (_, LevelKind::AlwaysNonzero) => LevelKind::AlwaysNonzero,
        (LevelKind::SometimesZero, _) => LevelKind::SometimesZero,
        (_, LevelKind::SometimesZero) => LevelKind::SometimesZero,
        _ => LevelKind::AlwaysZero,
    }
}

/// The function of an application; any other term itself.
pub open spec fn app_fun(t: Term) -> Term {
    match t {
        Term::App(f, _) => *f,
        _ => t,
    }
}

/// The argument of an application; any other term itself.
pub open spec fn app_arg(t: Term) -> Term {
    match t {
        Term::App(_, x) => *x,
        _ => t,
    }
}

/// The universe that `t` is, where it is written as one.
pub open spec fn into_univ(t: Term) -> Option<Universe> {
    match t {
        Term::App(l, r) => if *l == Term::FVar(SORT) {
            Some(Universe::Sort(*r))
        } else {
            None
        },
        Term::SortOmega(n) => Some(Universe::SortOmega(n)),
        _ => None,
    }
}

/// The level of `t`, where `t` is `Sort` of a level.
pub open spec fn as_level(t: Term) -> Option<Term> {
    match t {
        Term::App(l, r) => if *l == Term::FVar(SORT) {
            Some(*r)
        } else {
            None
        },
        _ => None,
    }
}

/// Whether `e` is headed by one of the four formers of levels.
pub open spec fn is_level(e: Term) -> bool {
    ||| e == Term::FVar(LEVEL_Z)
    ||| is_app_of(e, LEVEL_S)
    ||| (e is App && (is_app_of(app_fun(e), LEVEL_MAX) || is_app_of(app_fun(e), LEVEL_IMAX)))
}

/// Whether `e` is the level zero or a successor: a level that no proof is.
pub open spec fn is_literal_level(e: Term) -> bool {
    e == Term::FVar(LEVEL_Z) || is_app_of(e, LEVEL_S)
}

/// The kind of a level, read off its weak-head normal form.
pub open spec fn level_kind(e: Term, fuel: nat) -> Result<LevelKind, KernelError>
    decreases fuel,
{
    if fuel == 0 {
        Err(KernelError::OutOfFuel)
    } else {
        let f = (fuel - 1) as nat;
        match weak_head(e, f) {
            Err(x) => Err(x),
            Ok(e1) => if e1 == Term::FVar(LEVEL_Z) {
                Ok(LevelKind::AlwaysZero)
            } else if is_app_of(e1, LEVEL_S) {
                Ok(LevelKind::AlwaysNonzero)
            } else if e1 is App && is_app_of(app_fun(e1), LEVEL_MAX) {
                match level_kind(app_arg(app_fun(e1)), f) {
                    Err(x) => Err(x),
                    Ok(a) => match level_kind(app_arg(e1), f) {
                        Err(x) => Err(x),
                        Ok(b) => Ok(kind_max(a, b)),
                    },
                }
            } else if e1 is App && is_app_of(app_fun(e1), LEVEL_IMAX) {
                level_kind(app_arg(e1), f)
            } else {
                Ok(LevelKind::SometimesZero)
            },
        }
    }
}

/// The sort of a function type whose domain lives in `lu` and whose
/// codomain lives in `ru`, the latter under the binder of the domain.
pub open spec fn pi_sort(lu: Universe, ru: Universe) -> Term {
    match (lu, ru) {
        (Universe::Sort(l), Universe::Sort(r)) => match lower(r, 0, 1) {
            Some(r1) => sort(app(app(Term::FVar(LEVEL_IMAX), l), r1)),
            None => Term::SortOmega(0),
        },
        (Universe::SortOmega(a), Universe::Sort(_)) => Term::SortOmega(a),
        (Universe::Sort(_), Universe::SortOmega(b)) => Term::SortOmega(b),
        (Universe::SortOmega(a), Universe::SortOmega(b)) => Term::SortOmega(
            if a >= b {
                a
            } else {
                b
            },
        ),
    }
}

/// Whether the variable `v` is one of the arguments of the chain of
/// applications `t`.
pub open spec fn referenced(t: Term, v: nat) -> bool
    decreases t,
{
    match t {
        Term::App(f, r) => (*r matches Term::BVar(n) && n == v) || referenced(*f, v),
        _ => false,
    }
}

/// Whether the family, which is index `depth`, occurs in `e` in strictly
/// positive places only, and at its end.
pub open spec fn strict_positive(e: Term, depth: nat) -> Result<(), KernelError>
    decreases e,
{
    match e {
        Term::BVar(v) => if v == depth {
            Ok(())
        } else {
            Err(KernelError::NotStrictlyPositive)
        },
        Term::App(l, r) => if has_bvar(*r, depth) {
            Err(KernelError::NotStrictlyPositive)
        } else {
            strict_positive(*l, depth)
        },
        Term::Pi(l, r) => if has_bvar(*l, depth) {
            Err(KernelError::NotStrictlyPositive)
        } else if depth >= max_index() {
            Err(KernelError::IndexOverflow)
        } else {
            strict_positive(*r, depth + 1)
        },
        _ => Err(KernelError::NotStrictlyPositive),
    }
}

/// The number of arguments of a constructor whose type `c` is well
/// shaped: binders, of which those that mention the family (index `d`) do
/// so strictly positively and bind nothing that later types depend on, and
/// then the family applied to indices that do not mention it.
pub open spec fn constr_shape(c: Term, d: nat) -> Result<nat, KernelError>
    decreases c,
{
    match c {
        Term::BVar(v) => if v == d {
            Ok(d)
        } else {
            Err(KernelError::InvalidConstructor)
        },
        Term::App(l, r) => if has_bvar(*r, d) {
            Err(KernelError::InvalidConstructor)
        } else {
            match constr_shape(*l, d) {
                Ok(_) => Ok(d),
                Err(e) => Err(e),
            }
        },
        Term::Pi(l, r) => if has_bvar(*l, d) && has_bvar(*r, 0) {
            Err(KernelError::DependentRecursiveParameter)
        } else if has_bvar(*l, d) && strict_positive(*l, d) is Err {
            Err(strict_positive(*l, d)->Err_0)
        } else if d >= max_index() {
            Err(KernelError::IndexOverflow)
        } else {
            constr_shape(*r, d + 1)
        },
        _ => Err(KernelError::InvalidConstructor),
    }
}

/// `t` with what stands under its leading binders replaced by `f` of it
/// and of the number of those binders.
pub open spec fn telescope_map(t: Term, f: spec_fn(Term, nat) -> Option<Term>) -> Option<Term> {
    match f(pi_body(t), pi_domains(t).len()) {
        Some(b) => Some(pi_build(pi_domains(t), b)),
        None => None,
    }
}

/// The conclusion of a recursor under the indices: for a value of the
/// family at these indices, the motive at the indices and the value.
pub open spec fn elim_conclusion(i: Inductive, up: nat, d: nat) -> Option<Term> {
    match raise(Term::Ind(i), 0, up + 1 + i.constrs.len() + d) {
        None => None,
        Some(family) => match app_bvars(family, 0, d) {
            None => None,
            Some(major) => if 1 + d + i.constrs.len() > max_index() {
                None
            } else {
                match app_bvars(Term::BVar((1 + d + i.constrs.len()) as u16), 0, d + 1) {
                    None => None,
                    Some(out) => Some(pi(major, out)),
                }
            },
        },
    }
}

/// The end of the type of a motive under the indices: from a value of the
/// family at these indices to a sort.
pub open spec fn motive_end(i: Inductive, up: nat, d: nat) -> Option<Term> {
    match raise(Term::Ind(i), 0, up + d) {
        None => None,
        Some(family) => match app_bvars(family, 0, d) {
            None => None,
            Some(v) => if i.sm {
                Some(pi(v, sort(Term::FVar(LEVEL_Z))))
            } else if 1 + d > max_index() {
                None
            } else {
                Some(pi(v, sort(Term::BVar((1 + d) as u16))))
            },
        },
    }
}

/// The hypothesis for a recursive argument whose type is `l`: under the
/// binders of `l`, the motive at the indices found there and at the
/// argument, which is the variable `var` outside those binders.
pub open spec fn rec_hypothesis(l: Term, var: nat) -> Option<Term> {
    let n = pi_domains(l).len();
    if n + var > max_index() {
        None
    } else {
        match app_bvars(Term::BVar((n + var) as u16), 0, n) {
            None => None,
            Some(a) => Some(pi_build(pi_domains(l), app(pi_body(l), a))),
        }
    }
}

/// What a case of the recursor ends in: hypotheses for the recursive
/// arguments, and then the motive at the constructor applied to all its
/// arguments. `c` is what is left of the constructor's type after `d`
/// binders, of which `rec` were recursive; `u` is the number of universe
/// parameters and `i` the number of the case.
pub open spec fn minor_premise_recs(
    c: Term,
    constr: Term,
    u: nat,
    i: nat,
    max_d: nat,
    d: nat,
    rec: nat,
) -> Result<Term, KernelError>
    decreases c,
{
    match c {
        Term::Pi(l, c2) => if d >= max_d {
            Err(KernelError::InvalidConstructor)
        } else if has_bvar(*l, d) {
            match raise(*l, d + 1, u) {
                None => Err(KernelError::IndexOverflow),
                Some(l1) => match raise(l1, d, i) {
                    None => Err(KernelError::IndexOverflow),
                    Some(l2) => match raise(l2, 0, (rec + max_d - d) as nat) {
                        None => Err(KernelError::IndexOverflow),
                        Some(l3) => match rec_hypothesis(l3, (rec + max_d - 1 - d) as nat) {
                            None => Err(KernelError::IndexOverflow),
                            Some(l4) => match minor_premise_recs(
                                *c2,
                                constr,
                                u,
                                i,
                                max_d,
                                d + 1,
                                rec + 1,
                            ) {
                                Err(e) => Err(e),
                                Ok(rest) => Ok(pi(l4, rest)),
                            },
                        },
                    },
                },
            }
        } else {
            minor_premise_recs(*c2, constr, u, i, max_d, d + 1, rec)
        },
        Term::BVar(_) => minor_premise_end(c, constr, u, i, d, rec),
        Term::App(_, _) => minor_premise_end(c, constr, u, i, d, rec),
        _ => Err(KernelError::InvalidConstructor),
    }
}

/// The motive at the indices that the constructor's type ends in and at
/// the constructor applied to its arguments.
pub open spec fn minor_premise_end(c: Term, constr: Term, u: nat, i: nat, d: nat, rec: nat) -> Result<
    Term,
    KernelError,
> {
    match raise(c, d + 1, u) {
        None => Err(KernelError::IndexOverflow),
        Some(c1) => match raise(c1, d, i) {
            None => Err(KernelError::IndexOverflow),
            Some(c2) => match raise(c2, 0, rec) {
                None => Err(KernelError::IndexOverflow),
                Some(c3) => match raise(constr, 0, u + 1 + i + d + rec) {
                    None => Err(KernelError::IndexOverflow),
                    Some(k1) => match app_bvars(k1, rec, d) {
                        None => Err(KernelError::IndexOverflow),
                        Some(arg) => Ok(app(c3, arg)),
                    },
                },
            },
        },
    }
}

/// The case of the recursor of `i` for its constructor `k`.
pub open spec fn minor_premise(i: Inductive, up: nat, k: nat) -> Result<Term, KernelError>
    recommends
        k < i.constrs.len(),
{
    match subst(i.constrs[k as int], Term::Ind(i)) {
        None => Err(KernelError::IndexOverflow),
        Some(m1) => match raise(m1, 0, up + 1 + k) {
            None => Err(KernelError::IndexOverflow),
            Some(m2) => match minor_premise_recs(
                i.constrs[k as int],
                Term::IndConstr(k as u16, i),
                up,
                k,
                pi_domains(m2).len(),
                0,
                0,
            ) {
                Err(e) => Err(e),
                Ok(recs) => Ok(pi_build(pi_domains(m2), recs)),
            },
        },
    }
}

/// `t` under the cases for the first `k` constructors of `i`.
pub open spec fn add_minors(i: Inductive, up: nat, k: nat, t: Term) -> Result<Term, KernelError>
    decreases k,
{
    if k == 0 {
        Ok(t)
    } else {
        match minor_premise(i, up, (k - 1) as nat) {
            Err(e) => Err(e),
            Ok(m) => add_minors(i, up, (k - 1) as nat, pi(m, t)),
        }
    }
}

/// The type of the recursor of `i`: for a universe (unless the family
/// eliminates into propositions only), a motive and a case for each
/// constructor, the motive at every value of the family.
pub open spec fn elim_type(i: Inductive) -> Result<Term, KernelError> {
    let up: nat = if i.sm {
        0
    } else {
        1
    };
    let c = i.constrs.len();
    if c > max_index() {
        Err(KernelError::TooManyConstructors)
    } else {
        elim_type_of(i, up, c)
    }
}

/// The type of the recursor of `i`, for a family with `c` constructors and
/// `up` universe parameters of its recursor.
pub open spec fn elim_type_of(i: Inductive, up: nat, c: nat) -> Result<Term, KernelError> {
    match raise(*i.arity, 0, up + 1 + c) {
        None => Err(KernelError::IndexOverflow),
        Some(a1) => match telescope_map(a1, |e: Term, d: nat| elim_conclusion(i, up, d)) {
            None => Err(KernelError::IndexOverflow),
            Some(t1) => match add_minors(i, up, c, t1) {
                Err(e) => Err(e),
                Ok(t2) => match raise(*i.arity, 0, up) {
                    None => Err(KernelError::IndexOverflow),
                    Some(a2) => match telescope_map(a2, |e: Term, d: nat| motive_end(i, up, d)) {
                        None => Err(KernelError::IndexOverflow),
                        Some(motive) => if i.sm {
                            Ok(pi(motive, t2))
                        } else {
                            Ok(pi(Term::FVar(LEVEL), pi(motive, t2)))
                        },
                    },
                },
            },
        }
    }
}

/// The type of `e` in the environment `env`, under binders whose types are
/// `ctx`, outermost first.
pub open spec fn type_of(env: Seq<Term>, ctx: Seq<Term>, e: Term, fuel: nat) -> Result<
    Term,
    KernelError,
>
    decreases fuel, 0nat, 0nat,
{
    if fuel == 0 {
        Err(KernelError::OutOfFuel)
    } else {
        let f = (fuel - 1) as nat;
        match e {
            Term::FVar(x) => if x < env.len() {
                Ok(env[x as int])
            } else {
                Err(KernelError::UnboundVariable)
            },
            Term::BVar(n) => if n < ctx.len() {
                match raise(ctx[ctx.len() - 1 - n], 0, n as nat + 1) {
                    Some(t) => Ok(t),
                    None => Err(KernelError::IndexOverflow),
                }
            } else {
                Err(KernelError::UnboundVariable)
            },
            Term::SortOmega(k) => if k < u16::MAX {
                Ok(Term::SortOmega((k + 1) as u16))
            } else {
                Err(KernelError::LevelOverflow)
            },
            Term::Lam(l, r) => match sort_of(env, ctx, *l, f) {
                Err(x) => Err(x),
                Ok(_) => match type_of(env, ctx.push(*l), *r, f) {
                    Err(x) => Err(x),
                    Ok(t) => Ok(pi(*l, t)),
                },
            },
            Term::Pi(l, r) => match sort_of(env, ctx, *l, f) {
                Err(x) => Err(x),
                Ok(lu) => match sort_of(env, ctx.push(*l), *r, f) {
                    Err(x) => Err(x),
                    Ok(ru) => Ok(pi_sort(lu, ru)),
                },
            },
            Term::App(l, r) => match type_of(env, ctx, *l, f) {
                Err(x) => Err(x),
                Ok(lt) => match weak_head(lt, f) {
                    Err(x) => Err(x),
                    Ok(Term::Pi(f_in, f_out)) => match type_of(env, ctx, *r, f) {
                        Err(x) => Err(x),
                        Ok(rt) => if def_eq(env, ctx, *f_in, rt, f) {
                            match subst(*f_out, *r) {
                                Some(t) => Ok(t),
                                None => Err(KernelError::IndexOverflow),
                            }
                        } else {
                            Err(KernelError::TypeMismatch)
                        },
                    },
                    Ok(_) => Err(KernelError::NotAFunction),
                },
            },
            Term::Ind(i) => match ind_check(env, ctx, i, f) {
                Err(x) => Err(x),
                Ok(()) => Ok(*i.arity),
            },
            Term::IndConstr(n, i) => match ind_check(env, ctx, i, f) {
                Err(x) => Err(x),
                Ok(()) => if n < i.constrs.len() {
                    match subst(i.constrs[n as int], Term::Ind(i)) {
                        Some(t) => Ok(t),
                        None => Err(KernelError::IndexOverflow),
                    }
                } else {
                    Err(KernelError::NoSuchConstructor)
                },
            },
            Term::IndElim(i) => match ind_check(env, ctx, i, f) {
                Err(x) => Err(x),
                Ok(()) => elim_type(i),
            },
        }
    }
}

/// The universe that `e` lives in: its type, which has to be written as a
/// universe.
pub open spec fn sort_of(env: Seq<Term>, ctx: Seq<Term>, e: Term, fuel: nat) -> Result<
    Universe,
    KernelError,
>
    decreases fuel, 1nat, 0nat,
{
    match type_of(env, ctx, e, fuel) {
        Err(x) => Err(x),
        Ok(t) => match into_univ(t) {
            Some(u) => Ok(u),
            None => Err(KernelError::NotASort),
        },
    }
}

/// Whether `l` and `r` are definitionally equal: whether their weak-head
/// normal forms agree part by part, or are equal levels, or are proofs of
/// one proposition. With no fuel left, whether they are the same term.
pub open spec fn def_eq(env: Seq<Term>, ctx: Seq<Term>, l: Term, r: Term, fuel: nat) -> bool
    decreases fuel, 0nat, 0nat,
{
    if fuel == 0 {
        l == r
    } else {
        let f = (fuel - 1) as nat;
        let l1 = normal_or_self(l, f);
        let r1 = normal_or_self(r, f);
        structural_eq(env, ctx, l1, r1, f) || level_eq(env, ctx, l1, r1, f) || uip(
            env,
            ctx,
            l1,
            r1,
            f,
        )
    }
}

/// Whether two terms have the same head and definitionally equal parts.
pub open spec fn structural_eq(env: Seq<Term>, ctx: Seq<Term>, l: Term, r: Term, fuel: nat) -> bool
    decreases fuel, 2nat, 0nat,
{
    match (l, r) {
        (Term::FVar(a), Term::FVar(b)) => a == b,
        (Term::BVar(a), Term::BVar(b)) => a == b,
        (Term::SortOmega(a), Term::SortOmega(b)) => a == b,
        (Term::Pi(a, b), Term::Pi(c, d)) => def_eq(env, ctx, *a, *c, fuel) && def_eq(
            env,
            ctx.push(*a),
            *b,
            *d,
            fuel,
        ),
        (Term::Lam(a, b), Term::Lam(c, d)) => def_eq(env, ctx, *a, *c, fuel) && def_eq(
            env,
            ctx.push(*a),
            *b,
            *d,
            fuel,
        ),
        (Term::App(a, b), Term::App(c, d)) => def_eq(env, ctx, *a, *c, fuel) && def_eq(
            env,
            ctx,
            *b,
            *d,
            fuel,
        ),
        (Term::Ind(a), Term::Ind(b)) => ind_def_eq(env, ctx, a, b, fuel),
        (Term::IndConstr(n, a), Term::IndConstr(m, b)) => n == m && ind_def_eq(
            env,
            ctx,
            a,
            b,
            fuel,
        ),
        (Term::IndElim(a), Term::IndElim(b)) => ind_def_eq(env, ctx, a, b, fuel),
        _ => false,
    }
}

/// Whether two families have definitionally equal arities and, one by one,
/// definitionally equal constructors.
pub open spec fn ind_def_eq(
    env: Seq<Term>,
    ctx: Seq<Term>,
    a: Inductive,
    b: Inductive,
    fuel: nat,
) -> bool
    decreases fuel, 1nat, 0nat,
{
    &&& a.constrs.len() == b.constrs.len()
    &&& def_eq(env, ctx, *a.arity, *b.arity, fuel)
    &&& forall|k: int|
        0 <= k < a.constrs.len() ==> def_eq(
            env,
            ctx.push(*a.arity),
            #[trigger] a.constrs[k],
            b.constrs[k],
            fuel,
        )
}

/// The first of the atoms from number `from` on that is definitionally
/// equal to `e`.
pub open spec fn find_atom(
    env: Seq<Term>,
    ctx: Seq<Term>,
    atoms: Seq<Term>,
    e: Term,
    from: nat,
    fuel: nat,
) -> Option<nat>
    decreases fuel, 1nat, atoms.len() - from,
{
    if from >= atoms.len() {
        None
    } else if def_eq(env, ctx, atoms[from as int], e, fuel) {
        Some(from)
    } else {
        find_atom(env, ctx, atoms, e, from + 1, fuel)
    }
}

/// The level that `e` is, over the atoms met so far and those that `e`
/// adds to them: whatever is not formed by zero, successor, `max` or `imax`
/// is an atom, the same as an earlier one where definitionally equal to it.
/// `None` past 16 atoms.
pub open spec fn level_term(
    env: Seq<Term>,
    ctx: Seq<Term>,
    atoms: Seq<Term>,
    e: Term,
    fuel: nat,
) -> Option<(LevelTerm, Seq<Term>)>
    decreases fuel, 0nat, 0nat,
{
    if fuel == 0 {
        None
    } else {
        let f = (fuel - 1) as nat;
        let e1 = normal_or_self(e, f);
        if e1 == Term::FVar(LEVEL_Z) {
            Some((LevelTerm::Zero, atoms))
        } else if is_app_of(e1, LEVEL_S) {
            match level_term(env, ctx, atoms, app_arg(e1), f) {
                None => None,
                Some((t, a)) => Some((LevelTerm::Succ(Box::new(t)), a)),
            }
        } else if e1 is App && is_app_of(app_fun(e1), LEVEL_MAX) {
            match level_term(env, ctx, atoms, app_arg(app_fun(e1)), f) {
                None => None,
                Some((t1, a1)) => match level_term(env, ctx, a1, app_arg(e1), f) {
                    None => None,
                    Some((t2, a2)) => Some((LevelTerm::Max(Box::new(t1), Box::new(t2)), a2)),
                },
            }
        } else if e1 is App && is_app_of(app_fun(e1), LEVEL_IMAX) {
            match level_term(env, ctx, atoms, app_arg(app_fun(e1)), f) {
                None => None,
                Some((t1, a1)) => match level_term(env, ctx, a1, app_arg(e1), f) {
                    None => None,
                    Some((t2, a2)) => Some((LevelTerm::IMax(Box::new(t1), Box::new(t2)), a2)),
                },
            }
        } else {
            match find_atom(env, ctx, atoms, e1, 0, f) {
                Some(at) => Some((LevelTerm::Var(at as u8), atoms)),
                None => if atoms.len() >= MAX_ATOMS {
                    None
                } else {
                    Some((LevelTerm::Var(atoms.len() as u8), atoms.push(e1)))
                },
            }
        }
    }
}

/// Whether `l` and `r`, of which one at least is formed as a level, are
/// equal as levels.
pub open spec fn level_eq(env: Seq<Term>, ctx: Seq<Term>, l: Term, r: Term, fuel: nat) -> bool
    decreases fuel, 1nat, 0nat,
{
    if !is_level(l) && !is_level(r) {
        false
    } else {
        match level_term(env, ctx, Seq::empty(), l, fuel) {
            None => false,
            Some((lt, a1)) => match level_term(env, ctx, a1, r, fuel) {
                None => false,
                Some((rt, a2)) => levels_agree(lt, rt, a2.len() as u8),
            },
        }
    }
}

/// Whether `l` and `r` are proofs of one proposition: whether the type of
/// `l` lives in `Sort Z`, which is read off the weak-head normal form of
/// the type of that type, and is definitionally equal to the type of `r`.
pub open spec fn uip(env: Seq<Term>, ctx: Seq<Term>, l: Term, r: Term, fuel: nat) -> bool
    decreases fuel, 1nat, 0nat,
{
    if is_literal_level(l) || is_literal_level(r) {
        false
    } else {
        match type_of(env, ctx, l, fuel) {
            Err(_) => false,
            Ok(lt) => match type_of(env, ctx, lt, fuel) {
                Err(_) => false,
                Ok(ls) => match into_univ(normal_or_self(ls, fuel)) {
                    Some(Universe::Sort(level)) => def_eq(
                        env,
                        ctx,
                        level,
                        Term::FVar(LEVEL_Z),
                        fuel,
                    ) && (match type_of(env, ctx, r, fuel) {
                        Err(_) => false,
                        Ok(rt) => def_eq(env, ctx, lt, rt, fuel),
                    }),
                    _ => false,
                },
            },
        }
    }
}

/// The level of the sort that the arity `a` ends in, given that `d`
/// binders of the arity have been passed.
pub open spec fn arity_level(env: Seq<Term>, ctx: Seq<Term>, a: Term, d: nat, fuel: nat) -> Result<
    Term,
    KernelError,
>
    decreases fuel, 2nat, pi_domains(a).len(),
{
    match as_level(a) {
        Some(e) => match lower(e, 0, d) {
            Some(e1) => Ok(e1),
            None => Err(KernelError::LevelDependsOnIndices),
        },
        None => match a {
            Term::Pi(l, r) => match sort_of(env, ctx, *l, fuel) {
                Err(x) => Err(x),
                Ok(_) => if d >= max_index() {
                    Err(KernelError::IndexOverflow)
                } else {
                    arity_level(env, ctx.push(*l), *r, d + 1, fuel)
                },
            },
            _ => Err(KernelError::InvalidArity),
        },
    }
}

/// The level of a lone constructor once the arguments that its result does
/// not show are counted in: `level`, and the levels of the types of those
/// arguments. `c` is what is left of the constructor's type after `d` of
/// its `max_d` binders, and `res` what the type ends in.
pub open spec fn singleton(
    env: Seq<Term>,
    ctx: Seq<Term>,
    res: Term,
    c: Term,
    d: nat,
    max_d: nat,
    level: Term,
    fuel: nat,
) -> Result<Term, KernelError>
    decreases fuel, 2nat, pi_domains(c).len(),
{
    match c {
        Term::Pi(l, c2) => match sort_of(env, ctx, *l, fuel) {
            Err(x) => Err(x),
            Ok(lu) => if d >= max_d {
                Err(KernelError::InvalidConstructor)
            } else if referenced(res, (max_d - 1 - d) as nat) {
                singleton(env, ctx.push(*l), res, *c2, d + 1, max_d, level, fuel)
            } else {
                match lu {
                    Universe::Sort(ll) => match lower(ll, 0, d) {
                        Some(ll1) => singleton(
                            env,
                            ctx.push(*l),
                            res,
                            *c2,
                            d + 1,
                            max_d,
                            app(app(Term::FVar(LEVEL_MAX), ll1), level),
                            fuel,
                        ),
                        None => Err(KernelError::SingletonElimination),
                    },
                    Universe::SortOmega(_) => Err(KernelError::SingletonElimination),
                }
            },
        },
        _ => Ok(level),
    }
}

/// The level of `univ`, where the weak-head normal form of `univ` is the
/// constant `Sort` applied to it.
pub open spec fn sort_level(univ: Term, fuel: nat) -> Option<Term> {
    match normal_or_self(univ, fuel) {
        Term::App(f, lv) => if normal_or_self(*f, fuel) == Term::FVar(SORT) {
            Some(*lv)
        } else {
            None
        },
        _ => None,
    }
}

/// Whether the constructor type `c` of the family `i` is accepted, under
/// the binder of the family. `base_level` is the level of the family
/// there, and `kind` its kind.
pub open spec fn check_constr(
    env: Seq<Term>,
    ctx: Seq<Term>,
    i: Inductive,
    c: Term,
    base_level: Term,
    kind: LevelKind,
    fuel: nat,
) -> Result<(), KernelError>
    decreases fuel, 3nat, 0nat,
{
    match type_of(env, ctx, c, fuel) {
        Err(x) => Err(x),
        Ok(univ) => if !def_eq(env, ctx, sort(base_level), univ, fuel) {
            Err(KernelError::ConstructorSort)
        } else {
            match constr_shape(c, 0) {
                Err(x) => Err(x),
                Ok(max_d) => if (kind == LevelKind::AlwaysZero && i.sm) || kind
                    == LevelKind::AlwaysNonzero {
                    Ok(())
                } else if i.constrs.len() > 1 {
                    Err(KernelError::MultipleConstructors)
                } else {
                    match sort_level(univ, fuel) {
                        None => Err(KernelError::NotASort),
                        Some(level) => match singleton(
                            env,
                            ctx,
                            pi_body(c),
                            c,
                            0,
                            max_d,
                            level,
                            fuel,
                        ) {
                            Err(x) => Err(x),
                            Ok(level2) => if def_eq(env, ctx, base_level, level2, fuel) {
                                Ok(())
                            } else {
                                Err(KernelError::SingletonElimination)
                            },
                        },
                    }
                },
            }
        },
    }
}

/// Whether the constructors of `i` from number `from` on are accepted.
pub open spec fn check_constrs(
    env: Seq<Term>,
    ctx: Seq<Term>,
    i: Inductive,
    base_level: Term,
    kind: LevelKind,
    from: nat,
    fuel: nat,
) -> Result<(), KernelError>
    decreases fuel, 4nat, i.constrs.len() - from,
{
    if from >= i.constrs.len() {
        Ok(())
    } else {
        match check_constr(env, ctx, i, i.constrs[from as int], base_level, kind, fuel) {
            Err(x) => Err(x),
            Ok(()) => check_constrs(env, ctx, i, base_level, kind, from + 1, fuel),
        }
    }
}

/// Whether the inductive family `i` is accepted: its arity ends in a sort
/// whose level is free of the indices, small elimination is asked for
/// propositions only, the constructors can be numbered in 16 bits, and
/// each of them is accepted.
pub open spec fn ind_check(env: Seq<Term>, ctx: Seq<Term>, i: Inductive, fuel: nat) -> Result<
    (),
    KernelError,
>
    decreases fuel, 5nat, 0nat,
{
    match arity_level(env, ctx, *i.arity, 0, fuel) {
        Err(x) => Err(x),
        Ok(base_level) => match level_kind(base_level, fuel) {
            Err(x) => Err(x),
            Ok(kind) => if i.sm && kind != LevelKind::AlwaysZero {
                Err(KernelError::SmallElimination)
            } else {
                match raise(base_level, 0, 1) {
                    None => Err(KernelError::IndexOverflow),
                    Some(level1) => if i.constrs.len() > max_index() {
                        Err(KernelError::TooManyConstructors)
                    } else {
                        match sort_of(env, ctx, *i.arity, fuel) {
                            Err(x) => Err(x),
                            Ok(_) => check_constrs(
                                env,
                                ctx.push(*i.arity),
                                i,
                                level1,
                                kind,
                                0,
                                fuel,
                            ),
                        }
                    },
                }
            },
        },
    }
}

} // verus!
