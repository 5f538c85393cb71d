//! Reduction to weak-head normal form: the rule for an abstraction applied
//! to an argument, and the rule for a recursor applied to a constructor.

use vstd::prelude::*;
use crate::error::KernelError;
use crate::expr::Edit;
use crate::expr::Expr;
use crate::expr::option_view;
use crate::expr::rewrite_expr;
use crate::shape::apply_bvars;
use crate::shape::build_lams;
use crate::shape::build_spine;
use crate::shape::lemma_app_bvars_overflow;
use crate::shape::pi_parts;
use crate::shape::refs_view;
use crate::shape::spine_parts;
use crate::shape::terms_of;
use crate::term::Inductive;
use crate::term::Rewrite;
use crate::term::Term;
use crate::term::app;
use crate::term::app_bvars;
use crate::term::has_bvar;
use crate::term::lam_build;
use crate::term::max_index;
use crate::term::pi_body;
use crate::term::pi_domains;
use crate::term::raise;
use crate::term::rewrite;
use crate::term::spine_args;
use crate::term::spine_build;
use crate::term::spine_head;
use crate::term::subst;

verus! {

/// How many arguments the recursor of a family takes before the value it
/// takes apart: the universe of the motive unless the family eliminates
/// into propositions only, the motive, one case for each constructor, and
/// the indices.
pub open spec fn elim_arity(i: Inductive) -> nat {
    (if i.sm {
        1nat
    } else {
        2nat
    }) + i.constrs.len() + pi_domains(*i.arity).len()
}

/// The family whose recursor `f` is, where `f` is a recursor applied to
/// every argument but the value to take apart.
pub open spec fn pending_elim(f: Term) -> Option<Inductive> {
    match spine_head(f) {
        Term::IndElim(i) => if spine_args(f).len() == elim_arity(i) && i.constrs.len()
            <= max_index() {
            Some(i)
        } else {
            None
        },
        _ => None,
    }
}

/// `l`, the type of the argument number `d` of a constructor, with the
/// arguments `tail[d - 1]`, ..., `tail[0]` put in place of its outermost
/// index, one after the other. What is left free in the result is the
/// family, as index `0`.
pub open spec fn subst_args(l: Term, tail: Seq<Term>, d: nat) -> Option<Term>
    decreases d,
{
    if d == 0 {
        Some(l)
    } else if d > tail.len() {
        None
    } else {
        match rewrite(l, 0, Rewrite::Subst(tail[d - 1], d)) {
            Some(l1) => subst_args(l1, tail, (d - 1) as nat),
            None => None,
        }
    }
}

/// The result of the recursor for a recursive argument `arg` whose type is
/// `t`, in which the recursor stands for the family: the function that
/// takes what the binders of `t` bind to the end of `t` applied to `arg` at
/// those variables.
pub open spec fn recursive_call(t: Term, arg: Term) -> Option<Term> {
    let n = pi_domains(t).len();
    match raise(arg, 0, n) {
        Some(a) => match app_bvars(a, 0, n) {
            Some(a2) => Some(lam_build(pi_domains(t), app(pi_body(t), a2))),
            None => None,
        },
        None => None,
    }
}

/// The arguments that a case of the recursor receives: to `tail`, the
/// arguments of the constructor, is added for each recursive argument the
/// recursor applied to it. `c` is what is left of the constructor's type
/// after `d` binders, and `base` the recursor with its motive and cases.
pub open spec fn rec_args(base: Term, c: Term, tail: Seq<Term>, d: nat) -> Result<
    Seq<Term>,
    KernelError,
>
    decreases c,
{
    match c {
        Term::BVar(_) => Ok(tail),
        Term::App(_, _) => Ok(tail),
        Term::Pi(l, c2) => if d >= max_index() {
            Err(KernelError::IndexOverflow)
        } else if has_bvar(*l, d) {
            if d >= tail.len() || tail.len() > max_index() {
                Err(KernelError::InvalidConstructor)
            } else {
                match subst_args(*l, tail, d) {
                    None => Err(KernelError::IndexOverflow),
                    Some(l1) => match subst(l1, base) {
                        None => Err(KernelError::IndexOverflow),
                        Some(l2) => match recursive_call(l2, tail[d as int]) {
                            None => Err(KernelError::IndexOverflow),
                            Some(l3) => rec_args(base, *c2, tail.push(l3), d + 1),
                        },
                    },
                }
            }
        } else {
            rec_args(base, *c2, tail, d + 1)
        },
        _ => Err(KernelError::InvalidConstructor),
    }
}

/// Whether the recursor `f`, complete but for its last argument, meets in
/// `x` a constructor that it has a case for.
pub open spec fn iota_applies(f: Term, x: Term) -> bool {
    match (pending_elim(f), spine_head(x)) {
        (Some(i), Term::IndConstr(k, j)) => k < i.constrs.len() && k < j.constrs.len()
            && spine_args(x).len() <= max_index(),
        _ => false,
    }
}

/// What the recursor `f` applied to the constructor application `x` reduces
/// to: the case for that constructor, applied to the constructor's
/// arguments and to the results for its recursive arguments.
pub open spec fn iota_reduct(f: Term, x: Term) -> Result<Term, KernelError>
    recommends
        iota_applies(f, x),
{
    let i = pending_elim(f).unwrap();
    let fargs = spine_args(f);
    let k = spine_head(x)->IndConstr_0;
    let j = spine_head(x)->IndConstr_1;
    let base = spine_build(spine_head(f), fargs.take(fargs.len() - pi_domains(*i.arity).len()));
    let minor = fargs[(if i.sm {
        1int
    } else {
        2int
    }) + k];
    match rec_args(base, j.constrs[k as int], spine_args(x), 0) {
        Ok(tail) => Ok(spine_build(minor, tail)),
        Err(e) => Err(e),
    }
}

/// The weak-head normal form of `t`, found within `fuel` nested steps.
pub open spec fn weak_head(t: Term, fuel: nat) -> Result<Term, KernelError>
    decreases fuel,
{
    if fuel == 0 {
        Err(KernelError::OutOfFuel)
    } else {
        match t {
            Term::App(f, x) => match weak_head(*f, (fuel - 1) as nat) {
                Err(e) => Err(e),
                Ok(f1) => match f1 {
                    Term::Lam(_, body) => match subst(*body, *x) {
                        Some(b) => weak_head(b, (fuel - 1) as nat),
                        None => Err(KernelError::IndexOverflow),
                    },
                    _ => if pending_elim(f1) is Some {
                        match weak_head(*x, (fuel - 1) as nat) {
                            Err(e) => Err(e),
                            Ok(x1) => if iota_applies(f1, x1) {
                                match iota_reduct(f1, x1) {
                                    Ok(r) => weak_head(r, (fuel - 1) as nat),
                                    Err(e) => Err(e),
                                }
                            } else {
                                Ok(app(f1, x1))
                            },
                        }
                    } else {
                        Ok(app(f1, *x))
                    },
                },
            },
            _ => Ok(t),
        }
    }
}

/// The weak-head normal form of `t` where `fuel` suffices to find it, and
/// `t` itself where not.
pub open spec fn normal_or_self(t: Term, fuel: nat) -> Term {
    match weak_head(t, fuel) {
        Ok(n) => n,
        Err(_) => t,
    }
}

/// The term or the error behind the result of a computation on expressions.
pub open spec fn result_view(r: Result<Expr, KernelError>) -> Result<Term, KernelError> {
    match r {
        Ok(e) => Ok(e@),
        Err(e) => Err(e),
    }
}

/// `head` applied to the first `upto` of `args` in turn.
fn build_spine_prefix(head: Expr, args: &Vec<&Expr>, upto: usize) -> (r: Expr)
    requires
        upto <= args.len(),
    ensures
        r@ == spine_build(head@, refs_view(args@).take(upto as int)),
{
    let ghost all = refs_view(args@);
    let mut acc = head;
    let mut k: usize = 0;
    while k < upto
        invariant
            k <= upto <= args.len(),
            all == refs_view(args@),
            acc@ == spine_build(head@, all.take(k as int)),
        decreases upto - k,
    {
        assert(all.take(k as int + 1).drop_last() =~= all.take(k as int));
        acc = Expr::App(Box::new(acc), Box::new(args[k].clone()));
        k += 1;
    }
    acc
}

fn clone_refs(args: &Vec<&Expr>) -> (r: Vec<Expr>)
    ensures
        terms_of(r@) == refs_view(args@),
{
    let mut r: Vec<Expr> = Vec::new();
    let mut k: usize = 0;
    while k < args.len()
        invariant
            k <= args.len(),
            r.len() == k,
            forall|j: int| 0 <= j < k ==> (#[trigger] r[j])@ == (*args[j])@,
        decreases args.len() - k,
    {
        r.push(args[k].clone());
        k += 1;
    }
    assert(terms_of(r@) =~= refs_view(args@));
    r
}

/// Whether `f` is a recursor applied to every argument but the value that
/// it takes apart.
pub fn is_pending_elim(f: &Expr) -> (r: bool)
    ensures
        r == pending_elim(f@) is Some,
{
    let mut args: Vec<&Expr> = Vec::new();
    let head = spine_parts(f, &mut args);
    match head {
        Expr::IndElim(i) => {
            let mut domains: Vec<&Expr> = Vec::new();
            let _ = pi_parts(&i.arity, &mut domains);
            let first: u128 = if i.sm {
                1
            } else {
                2
            };
            let need: u128 = first + i.constrs.len() as u128 + domains.len() as u128;
            assert(refs_view(args@) =~= spine_args(f@));
            assert(refs_view(domains@) =~= pi_domains(*i@.arity));
            assert(spine_head(f@) == Term::IndElim(i@));
            assert(i@.constrs.len() == i.constrs.len());
            args.len() as u128 == need && i.constrs.len() <= 0xffff
        },
        _ => false,
    }
}

fn subst_args_exec(l: &Expr, tail: &Vec<Expr>, d: u16) -> (r: Option<Expr>)
    requires
        d <= tail.len(),
    ensures
        option_view(r) == subst_args(l@, terms_of(tail@), d as nat),
{
    let mut cur = l.clone();
    let mut left: u16 = d;
    while left > 0
        invariant
            left <= d <= tail.len(),
            subst_args(l@, terms_of(tail@), d as nat) == subst_args(
                cur@,
                terms_of(tail@),
                left as nat,
            ),
        decreases left,
    {
        let at: usize = (left - 1) as usize;
        match rewrite_expr(&cur, 0, &Edit::Subst(&tail[at], left)) {
            Some(next) => {
                cur = next;
            },
            None => {
                return None;
            },
        }
        left -= 1;
    }
    Some(cur)
}

fn recursive_call_exec(t: &Expr, arg: &Expr) -> (r: Option<Expr>)
    ensures
        option_view(r) == recursive_call(t@, arg@),
{
    let mut domains: Vec<&Expr> = Vec::new();
    let body = pi_parts(t, &mut domains);
    assert(refs_view(domains@) =~= pi_domains(t@));
    let n = domains.len();
    if n > 0x10000 {
        proof {
            if raise(arg@, 0, n as nat) is Some {
                lemma_app_bvars_overflow(raise(arg@, 0, n as nat).unwrap(), 0, n as nat);
            }
        }
        return None;
    }
    let raised = match rewrite_expr(arg, 0, &Edit::Raise(n as u32)) {
        Some(a) => a,
        None => {
            return None;
        },
    };
    let applied = match apply_bvars(raised, 0, n as u32) {
        Some(a) => a,
        None => {
            return None;
        },
    };
    Some(build_lams(&domains, Expr::App(Box::new(body.clone()), Box::new(applied))))
}

/// Adds to `tail`, the arguments of a constructor, the results of the
/// recursor `base` for the recursive ones among them.
pub fn rec_args_exec(base: &Expr, c: &Expr, tail: &mut Vec<Expr>, d: u16) -> (r: Result<
    (),
    KernelError,
>)
    ensures
        match rec_args(base@, c@, terms_of(old(tail)@), d as nat) {
            Ok(t) => r is Ok && terms_of(final(tail)@) == t,
            Err(e) => r == Err::<(), KernelError>(e),
        },
    decreases c,
{
    match c {
        Expr::BVar(_) => Ok(()),
        Expr::App(_, _) => Ok(()),
        Expr::Pi(l, c2) => {
            if d == u16::MAX {
                return Err(KernelError::IndexOverflow);
            }
            if l.has_bvar(d) {
                if d as usize >= tail.len() || tail.len() > 0xffff {
                    return Err(KernelError::InvalidConstructor);
                }
                let l1 = match subst_args_exec(l, tail, d) {
                    Some(v) => v,
                    None => {
                        return Err(KernelError::IndexOverflow);
                    },
                };
                let l2 = match l1.subst(base) {
                    Some(v) => v,
                    None => {
                        return Err(KernelError::IndexOverflow);
                    },
                };
                let l3 = match recursive_call_exec(&l2, &tail[d as usize]) {
                    Some(v) => v,
                    None => {
                        return Err(KernelError::IndexOverflow);
                    },
                };
                let ghost before = tail@;
                tail.push(l3);
                assert(terms_of(tail@) =~= terms_of(before).push(l3@));
                rec_args_exec(base, c2, tail, d + 1)
            } else {
                rec_args_exec(base, c2, tail, d + 1)
            }
        },
        _ => Err(KernelError::InvalidConstructor),
    }
}

/// The reduct of the recursor `f` applied to `x`, where `x` is an
/// application of a constructor that `f` has a case for; `None` where it is
/// not.
fn iota(f: &Expr, x: &Expr) -> (r: Option<Result<Expr, KernelError>>)
    requires
        pending_elim(f@) is Some,
    ensures
        r is Some <==> iota_applies(f@, x@),
        r is Some ==> result_view(r.unwrap()) == iota_reduct(f@, x@),
{
    let mut xargs: Vec<&Expr> = Vec::new();
    let xhead = spine_parts(x, &mut xargs);
    assert(refs_view(xargs@) =~= spine_args(x@));
    let mut fargs: Vec<&Expr> = Vec::new();
    let fhead = spine_parts(f, &mut fargs);
    assert(refs_view(fargs@) =~= spine_args(f@));
    match (fhead, xhead) {
        (Expr::IndElim(i), Expr::IndConstr(k, j)) => {
            let at = *k as usize;
            assert(spine_head(f@) == Term::IndElim(i@));
            assert(spine_head(x@) == Term::IndConstr(*k, j@));
            assert(i@.constrs.len() == i.constrs.len());
            assert(j@.constrs.len() == j.constrs.len());
            if at < i.constrs.len() && at < j.constrs.len() && xargs.len() <= 0xffff {
                let mut domains: Vec<&Expr> = Vec::new();
                let _ = pi_parts(&i.arity, &mut domains);
                assert(refs_view(domains@) =~= pi_domains(*i@.arity));
                assert(j@.constrs[at as int] == j.constrs[at as int]@);
                let keep = fargs.len() - domains.len();
                let base = build_spine_prefix(fhead.clone(), &fargs, keep);
                let first: usize = if i.sm {
                    1
                } else {
                    2
                };
                let minor = fargs[first + at];
                let mut tail = clone_refs(&xargs);
                match rec_args_exec(&base, &j.constrs[at], &mut tail, 0) {
                    Ok(()) => Some(Ok(build_spine(minor.clone(), &tail))),
                    Err(e) => Some(Err(e)),
                }
            } else {
                None
            }
        },
        _ => None,
    }
}

/// The weak-head normal form of `e`: its head laid bare by the two
/// reduction rules, with `fuel` bounding how deeply the steps nest.
pub fn whnf(e: Expr, fuel: u64) -> (r: Result<Expr, KernelError>)
    ensures
        result_view(r) == weak_head(e@, fuel as nat),
    decreases fuel,
{
    if fuel == 0 {
        return Err(KernelError::OutOfFuel);
    }
    match e {
        Expr::App(f, x) => {
            let f1 = match whnf(*f, fuel - 1) {
                Ok(v) => v,
                Err(e) => {
                    return Err(e);
                },
            };
            match f1 {
                Expr::Lam(_, body) => match body.subst(&x) {
                    Some(b) => whnf(b, fuel - 1),
                    None => Err(KernelError::IndexOverflow),
                },
                f1 => {
                    if is_pending_elim(&f1) {
                        let x1 = match whnf(*x, fuel - 1) {
                            Ok(v) => v,
                            Err(e) => {
                                return Err(e);
                            },
                        };
                        match iota(&f1, &x1) {
                            Some(Ok(reduct)) => whnf(reduct, fuel - 1),
                            Some(Err(e)) => Err(e),
                            None => Ok(Expr::App(Box::new(f1), Box::new(x1))),
                        }
                    } else {
                        Ok(Expr::App(Box::new(f1), x))
                    }
                },
            }
        },
        other => Ok(other),
    }
}

/// The weak-head normal form of `e` where `fuel` suffices to find it, and
/// `e` itself where not.
pub fn whnf_or_self(e: &Expr, fuel: u64) -> (r: Expr)
    ensures
        r@ == normal_or_self(e@, fuel as nat),
{
    match whnf(e.clone(), fuel) {
        Ok(n) => n,
        Err(_) => e.clone(),
    }
}

} // verus!
