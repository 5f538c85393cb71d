//! The checks on the shape of constructor types, and the synthesis of the
//! type of a recursor from the declaration of its family.

use vstd::prelude::*;
use crate::error::KernelError;
use crate::expr::Edit;
use crate::expr::Expr;
use crate::expr::Ind;
use crate::expr::option_view;
use crate::expr::rewrite_expr;
use crate::judgment::add_minors;
use crate::judgment::constr_shape;
use crate::judgment::elim_conclusion;
use crate::judgment::elim_type;
use crate::judgment::minor_premise;
use crate::judgment::minor_premise_end;
use crate::judgment::minor_premise_recs;
use crate::judgment::motive_end;
use crate::judgment::rec_hypothesis;
use crate::judgment::referenced;
use crate::judgment::strict_positive;
use crate::reduce::result_view;
use crate::shape::apply_bvars;
use crate::shape::build_pis;
use crate::shape::lemma_app_bvars_overflow;
use crate::shape::pi_parts;
use crate::shape::refs_view;
use crate::term::LEVEL;
use crate::term::LEVEL_Z;
use crate::term::Rewrite;
use crate::term::Term;
use crate::term::has_bvar;
use crate::term::lemma_has_bvar_beyond;
use crate::term::lemma_rewrite_beyond;
use crate::term::max_index;
use crate::term::pi_domains;
use crate::term::raise;
use crate::term::rewrite;
use crate::term::rewrite_ind;

verus! {

/// Raising by more than any index can hold fails wherever it meets an
/// index to raise, by however much it is.
pub proof fn lemma_raise_saturates(t: Term, depth: nat, by1: nat, by2: nat)
    requires
        by1 > max_index(),
        by2 > max_index(),
    ensures
        raise(t, depth, by1) == raise(t, depth, by2),
    decreases t,
{
    match t {
        Term::Lam(a, b) | Term::Pi(a, b) => {
            lemma_raise_saturates(*a, depth, by1, by2);
            lemma_raise_saturates(*b, depth + 1, by1, by2);
        },
        Term::App(a, b) => {
            lemma_raise_saturates(*a, depth, by1, by2);
            lemma_raise_saturates(*b, depth, by1, by2);
        },
        Term::Ind(i) | Term::IndConstr(_, i) | Term::IndElim(i) => {
            lemma_raise_saturates(*i.arity, depth, by1, by2);
            assert forall|k: int| 0 <= k < i.constrs.len() implies rewrite(
                #[trigger] i.constrs[k],
                depth + 1,
                Rewrite::Raise(by1),
            ) == rewrite(i.constrs[k], depth + 1, Rewrite::Raise(by2)) by {
                lemma_raise_saturates(i.constrs[k], depth + 1, by1, by2);
            }
            let r1 = rewrite_ind(i, depth, Rewrite::Raise(by1));
            let r2 = rewrite_ind(i, depth, Rewrite::Raise(by2));
            if r1 is Some {
                assert(r2 is Some);
                assert(r1.unwrap().constrs =~= r2.unwrap().constrs);
            } else {
                assert(r2 is None);
            }
        },
        _ => {},
    }
}

/// `e` with every index from `depth` on raised by `by`, for a depth and an
/// amount of any size.
pub fn raise_at(e: &Expr, depth: u128, by: u128) -> (r: Option<Expr>)
    ensures
        option_view(r) == raise(e@, depth as nat, by as nat),
{
    if depth > 0xffff {
        proof {
            lemma_rewrite_beyond(e@, depth as nat, Rewrite::Raise(by as nat));
        }
        Some(e.clone())
    } else if by > 0x10000 {
        proof {
            lemma_raise_saturates(e@, depth as nat, by as nat, 0x10000);
        }
        rewrite_expr(e, depth as u16, &Edit::Raise(0x10000))
    } else {
        rewrite_expr(e, depth as u16, &Edit::Raise(by as u32))
    }
}

/// Whether index `n` occurs free in `e`, for an index of any size.
pub fn has_bvar_at(e: &Expr, n: usize) -> (r: bool)
    ensures
        r == has_bvar(e@, n as nat),
{
    if n > 0xffff {
        proof {
            lemma_has_bvar_beyond(e@, n as nat);
        }
        false
    } else {
        e.has_bvar(n as u16)
    }
}

/// Whether the variable `v` is one of the arguments of the chain of
/// applications `t`.
pub fn is_referenced(t: &Expr, v: u16) -> (r: bool)
    ensures
        r == referenced(t@, v as nat),
    decreases t,
{
    match t {
        Expr::App(f, x) => {
            let here = match &**x {
                Expr::BVar(n) => {
                    assert(x@ == Term::BVar(*n));
                    *n == v
                },
                _ => {
                    assert(!(x@ is BVar));
                    false
                },
            };
            here || is_referenced(f, v)
        },
        _ => false,
    }
}

/// Whether the family, which is index `depth`, occurs in `e` in strictly
/// positive places only.
pub fn check_strict_positive(e: &Expr, depth: u16) -> (r: Result<(), KernelError>)
    ensures
        r == strict_positive(e@, depth as nat),
    decreases e,
{
    match e {
        Expr::BVar(v) => {
            if *v == depth {
                Ok(())
            } else {
                Err(KernelError::NotStrictlyPositive)
            }
        },
        Expr::App(l, x) => {
            if x.has_bvar(depth) {
                Err(KernelError::NotStrictlyPositive)
            } else {
                check_strict_positive(l, depth)
            }
        },
        Expr::Pi(l, x) => {
            if l.has_bvar(depth) {
                Err(KernelError::NotStrictlyPositive)
            } else if depth == u16::MAX {
                Err(KernelError::IndexOverflow)
            } else {
                check_strict_positive(x, depth + 1)
            }
        },
        _ => Err(KernelError::NotStrictlyPositive),
    }
}

/// The number of arguments of a constructor whose type `c` is well
/// shaped, the family being index `d`; the reason where it is not.
pub fn check_constr_shape(c: &Expr, d: u16) -> (r: Result<u16, KernelError>)
    ensures
        match constr_shape(c@, d as nat) {
            Ok(n) => r == Ok::<u16, KernelError>(n as u16) && n <= max_index(),
            Err(e) => r == Err::<u16, KernelError>(e),
        },
    decreases c,
{
    match c {
        Expr::BVar(v) => {
            if *v == d {
                Ok(d)
            } else {
                Err(KernelError::InvalidConstructor)
            }
        },
        Expr::App(l, x) => {
            if x.has_bvar(d) {
                Err(KernelError::InvalidConstructor)
            } else {
                match check_constr_shape(l, d) {
                    Ok(_) => Ok(d),
                    Err(e) => Err(e),
                }
            }
        },
        Expr::Pi(l, x) => {
            if l.has_bvar(d) {
                if x.has_bvar(0) {
                    return Err(KernelError::DependentRecursiveParameter);
                }
                match check_strict_positive(l, d) {
                    Ok(()) => {},
                    Err(e) => {
                        return Err(e);
                    },
                }
            }
            if d == u16::MAX {
                Err(KernelError::IndexOverflow)
            } else {
                check_constr_shape(x, d + 1)
            }
        },
        _ => Err(KernelError::InvalidConstructor),
    }
}

fn family(i: &Ind) -> (r: Expr)
    ensures
        r@ == Term::Ind(i@),
{
    Expr::Ind(i.clone())
}

fn conclusion(i: &Ind, up: usize, d: usize) -> (r: Option<Expr>)
    requires
        up <= 1,
    ensures
        option_view(r) == elim_conclusion(i@, up as nat, d as nat),
{
    let c = i.constrs.len();
    let by: u128 = up as u128 + 1 + c as u128 + d as u128;
    let fam = family(i);
    let raised = match raise_at(&fam, 0, by) {
        Some(v) => v,
        None => {
            return None;
        },
    };
    if d > 0x10000 {
        proof {
            lemma_app_bvars_overflow(raised@, 0, d as nat);
        }
        return None;
    }
    let major = match apply_bvars(raised, 0, d as u32) {
        Some(v) => v,
        None => {
            return None;
        },
    };
    let motive_at: u128 = 1 + d as u128 + c as u128;
    if motive_at > 0xffff {
        return None;
    }
    let motive = Expr::BVar(motive_at as u16);
    assert(motive@ == Term::BVar(motive_at as u16));
    let out = match apply_bvars(motive, 0, d as u32 + 1) {
        Some(v) => v,
        None => {
            return None;
        },
    };
    Some(Expr::Pi(Box::new(major), Box::new(out)))
}

fn end_of_motive(i: &Ind, up: usize, d: usize) -> (r: Option<Expr>)
    requires
        up <= 1,
    ensures
        option_view(r) == motive_end(i@, up as nat, d as nat),
{
    let fam = family(i);
    let raised = match raise_at(&fam, 0, up as u128 + d as u128) {
        Some(v) => v,
        None => {
            return None;
        },
    };
    if d > 0x10000 {
        proof {
            lemma_app_bvars_overflow(raised@, 0, d as nat);
        }
        return None;
    }
    let v = match apply_bvars(raised, 0, d as u32) {
        Some(v) => v,
        None => {
            return None;
        },
    };
    if i.sm {
        let zero = Expr::FVar(LEVEL_Z);
        assert(zero@ == Term::FVar(LEVEL_Z));
        Some(Expr::Pi(Box::new(v), Box::new(Expr::sort(zero))))
    } else if d >= 0xffff {
        None
    } else {
        let level = Expr::BVar((1 + d) as u16);
        assert(level@ == Term::BVar((1 + d) as u16));
        Some(Expr::Pi(Box::new(v), Box::new(Expr::sort(level))))
    }
}

fn hypothesis(l: &Expr, var: usize) -> (r: Option<Expr>)
    ensures
        option_view(r) == rec_hypothesis(l@, var as nat),
{
    let mut domains: Vec<&Expr> = Vec::new();
    let body = pi_parts(l, &mut domains);
    assert(refs_view(domains@) =~= pi_domains(l@));
    let n = domains.len();
    let at: u128 = n as u128 + var as u128;
    if at > 0xffff {
        return None;
    }
    let head = Expr::BVar(at as u16);
    assert(head@ == Term::BVar(at as u16));
    let a = match apply_bvars(head, 0, n as u32) {
        Some(v) => v,
        None => {
            return None;
        },
    };
    Some(build_pis(&domains, Expr::App(Box::new(body.clone()), Box::new(a))))
}

fn recs_end(c: &Expr, constr: &Expr, u: usize, i: usize, d: usize, rec: usize) -> (r: Result<
    Expr,
    KernelError,
>)
    requires
        u <= 1,
        rec <= d,
    ensures
        result_view(r) == minor_premise_end(c@, constr@, u as nat, i as nat, d as nat, rec as nat),
{
    let c1 = match raise_at(c, d as u128 + 1, u as u128) {
        Some(v) => v,
        None => {
            return Err(KernelError::IndexOverflow);
        },
    };
    let c2 = match raise_at(&c1, d as u128, i as u128) {
        Some(v) => v,
        None => {
            return Err(KernelError::IndexOverflow);
        },
    };
    let c3 = match raise_at(&c2, 0, rec as u128) {
        Some(v) => v,
        None => {
            return Err(KernelError::IndexOverflow);
        },
    };
    let by: u128 = u as u128 + 1 + i as u128 + d as u128 + rec as u128;
    let k1 = match raise_at(constr, 0, by) {
        Some(v) => v,
        None => {
            return Err(KernelError::IndexOverflow);
        },
    };
    if d > 0x10000 || rec > 0x10000 {
        proof {
            if d >= 1 {
                lemma_app_bvars_overflow(k1@, rec as nat, d as nat);
            }
        }
        return Err(KernelError::IndexOverflow);
    }
    match apply_bvars(k1, rec as u32, d as u32) {
        Some(arg) => Ok(Expr::App(Box::new(c3), Box::new(arg))),
        None => Err(KernelError::IndexOverflow),
    }
}

/// What the case for a constructor ends in, after the binders for the
/// constructor's arguments.
fn case_end(
    c: &Expr,
    constr: &Expr,
    u: usize,
    i: usize,
    max_d: usize,
    d: usize,
    rec: usize,
) -> (r: Result<Expr, KernelError>)
    requires
        u <= 1,
        rec <= d,
    ensures
        result_view(r) == minor_premise_recs(
            c@,
            constr@,
            u as nat,
            i as nat,
            max_d as nat,
            d as nat,
            rec as nat,
        ),
    decreases c,
{
    match c {
        Expr::Pi(l, c2) => {
            if d >= max_d {
                return Err(KernelError::InvalidConstructor);
            }
            if has_bvar_at(l, d) {
                let l1 = match raise_at(l, d as u128 + 1, u as u128) {
                    Some(v) => v,
                    None => {
                        return Err(KernelError::IndexOverflow);
                    },
                };
                let l2 = match raise_at(&l1, d as u128, i as u128) {
                    Some(v) => v,
                    None => {
                        return Err(KernelError::IndexOverflow);
                    },
                };
                let l3 = match raise_at(&l2, 0, rec as u128 + (max_d - d) as u128) {
                    Some(v) => v,
                    None => {
                        return Err(KernelError::IndexOverflow);
                    },
                };
                let l4 = match hypothesis(&l3, rec + (max_d - 1 - d)) {
                    Some(v) => v,
                    None => {
                        return Err(KernelError::IndexOverflow);
                    },
                };
                match case_end(c2, constr, u, i, max_d, d + 1, rec + 1) {
                    Ok(rest) => Ok(Expr::Pi(Box::new(l4), Box::new(rest))),
                    Err(e) => Err(e),
                }
            } else {
                case_end(c2, constr, u, i, max_d, d + 1, rec)
            }
        },
        Expr::BVar(_) => recs_end(c, constr, u, i, d, rec),
        Expr::App(_, _) => recs_end(c, constr, u, i, d, rec),
        _ => Err(KernelError::InvalidConstructor),
    }
}

/// The case of the recursor of `i` for its constructor `k`.
fn case_type(i: &Ind, up: usize, k: usize) -> (r: Result<Expr, KernelError>)
    requires
        up <= 1,
        k < i.constrs.len(),
        k <= 0xffff,
    ensures
        result_view(r) == minor_premise(i@, up as nat, k as nat),
{
    let fam = family(i);
    assert(i@.constrs[k as int] == i.constrs[k as int]@);
    let m1 = match i.constrs[k].subst(&fam) {
        Some(v) => v,
        None => {
            return Err(KernelError::IndexOverflow);
        },
    };
    let m2 = match raise_at(&m1, 0, up as u128 + 1 + k as u128) {
        Some(v) => v,
        None => {
            return Err(KernelError::IndexOverflow);
        },
    };
    let mut domains: Vec<&Expr> = Vec::new();
    let _ = pi_parts(&m2, &mut domains);
    assert(refs_view(domains@) =~= pi_domains(m2@));
    let constr = Expr::IndConstr(k as u16, i.clone());
    assert(constr@ == Term::IndConstr(k as u16, i@));
    match case_end(&i.constrs[k], &constr, up, k, domains.len(), 0, 0) {
        Ok(recs) => Ok(build_pis(&domains, recs)),
        Err(e) => Err(e),
    }
}

/// The type of the recursor of `i`.
#[verifier::loop_isolation(false)]
pub fn recursor_type(i: &Ind) -> (r: Result<Expr, KernelError>)
    ensures
        result_view(r) == elim_type(i@),
{
    let up: usize = if i.sm {
        0
    } else {
        1
    };
    let c = i.constrs.len();
    assert(i@.constrs.len() == c);
    if c > 0xffff {
        return Err(KernelError::TooManyConstructors);
    }
    let a1 = match raise_at(&i.arity, 0, up as u128 + 1 + c as u128) {
        Some(v) => v,
        None => {
            return Err(KernelError::IndexOverflow);
        },
    };
    let mut domains: Vec<&Expr> = Vec::new();
    let _ = pi_parts(&a1, &mut domains);
    assert(refs_view(domains@) =~= pi_domains(a1@));
    let end = match conclusion(i, up, domains.len()) {
        Some(v) => v,
        None => {
            return Err(KernelError::IndexOverflow);
        },
    };
    let mut t = build_pis(&domains, end);
    let ghost t1 = t@;
    let mut k: usize = c;
    while k > 0
        invariant
            k <= c,
            c == i.constrs.len(),
            c <= 0xffff,
            up <= 1,
            add_minors(i@, up as nat, c as nat, t1) == add_minors(i@, up as nat, k as nat, t@),
        decreases k,
    {
        match case_type(i, up, k - 1) {
            Ok(m) => {
                t = Expr::Pi(Box::new(m), Box::new(t));
            },
            Err(e) => {
                return Err(e);
            },
        }
        k -= 1;
    }
    let a2 = match raise_at(&i.arity, 0, up as u128) {
        Some(v) => v,
        None => {
            return Err(KernelError::IndexOverflow);
        },
    };
    let mut domains2: Vec<&Expr> = Vec::new();
    let _ = pi_parts(&a2, &mut domains2);
    assert(refs_view(domains2@) =~= pi_domains(a2@));
    let end2 = match end_of_motive(i, up, domains2.len()) {
        Some(v) => v,
        None => {
            return Err(KernelError::IndexOverflow);
        },
    };
    let motive = build_pis(&domains2, end2);
    let ghost cases = t@;
    let ghost motive_type = motive@;
    let with_motive = Expr::Pi(Box::new(motive), Box::new(t));
    assert(with_motive@ == crate::term::pi(motive_type, cases));
    if i.sm {
        Ok(with_motive)
    } else {
        let level = Expr::FVar(LEVEL);
        assert(level@ == Term::FVar(LEVEL));
        Ok(Expr::Pi(Box::new(level), Box::new(with_motive)))
    }
}

} // verus!
