//! Reduction one step at a time, and the proof that the weak-head normal
//! form is what the steps lead to.

use vstd::prelude::*;
use crate::error::KernelError;
use crate::laws::lemma_weak_head_monotone;
use crate::reduce::iota_applies;
use crate::reduce::iota_reduct;
use crate::reduce::pending_elim;
use crate::reduce::weak_head;
use crate::term::Term;
use crate::term::app;
use crate::term::subst;

verus! {

/// One step of reduction at the head of `t`: in the function of an
/// application as long as that can take a step; then, where the function
/// is an abstraction, the argument put into its body; where it is a
/// recursor that waits for its last argument, a step in that argument and,
/// once that is a constructor applied to arguments, the recursor's case
/// for it. `Ok(None)` where no step applies: `t` is weak-head normal.
pub open spec fn head_step(t: Term) -> Result<Option<Term>, KernelError>
    decreases t,
{
    match t {
        Term::App(f, x) => match head_step(*f) {
            Err(e) => Err(e),
            Ok(Some(f1)) => Ok(Some(app(f1, *x))),
            Ok(None) => match *f {
                Term::Lam(_, body) => match subst(*body, *x) {
                    Some(b) => Ok(Some(b)),
                    None => Err(KernelError::IndexOverflow),
                },
                _ => if pending_elim(*f) is Some {
                    match head_step(*x) {
                        Err(e) => Err(e),
                        Ok(Some(x1)) => Ok(Some(app(*f, x1))),
                        Ok(None) => if iota_applies(*f, *x) {
                            match iota_reduct(*f, *x) {
                                Ok(r) => Ok(Some(r)),
                                Err(e) => Err(e),
                            }
                        } else {
                            Ok(None)
                        },
                    }
                } else {
                    Ok(None)
                },
            },
        },
        _ => Ok(None),
    }
}

/// Whether no step applies at the head of `t`.
pub open spec fn head_normal(t: Term) -> bool {
    head_step(t) == Ok::<Option<Term>, KernelError>(None)
}

/// Whether `n` steps lead from `t` to `r`.
pub open spec fn steps_to(t: Term, r: Term, n: nat) -> bool
    decreases n,
{
    if n == 0 {
        t == r
    } else {
        match head_step(t) {
            Ok(Some(t1)) => steps_to(t1, r, (n - 1) as nat),
            _ => false,
        }
    }
}

/// Steps follow one another.
pub proof fn lemma_steps_transitive(a: Term, b: Term, c: Term, n: nat, m: nat)
    requires
        steps_to(a, b, n),
        steps_to(b, c, m),
    ensures
        steps_to(a, c, n + m),
    decreases n,
{
    if n > 0 {
        let a1 = head_step(a)->Ok_0->Some_0;
        lemma_steps_transitive(a1, b, c, (n - 1) as nat, m);
    }
}

/// The steps of a function are steps of its application.
pub proof fn lemma_steps_in_function(f: Term, g: Term, x: Term, n: nat)
    requires
        steps_to(f, g, n),
    ensures
        steps_to(app(f, x), app(g, x), n),
    decreases n,
{
    if n > 0 {
        let f1 = head_step(f)->Ok_0->Some_0;
        lemma_steps_in_function(f1, g, x, (n - 1) as nat);
    }
}

/// The steps of the last argument of a recursor are steps of the
/// application.
pub proof fn lemma_steps_in_argument(f: Term, x: Term, y: Term, n: nat)
    requires
        head_normal(f),
        !(f is Lam),
        pending_elim(f) is Some,
        steps_to(x, y, n),
    ensures
        steps_to(app(f, x), app(f, y), n),
    decreases n,
{
    if n > 0 {
        let x1 = head_step(x)->Ok_0->Some_0;
        lemma_steps_in_argument(f, x1, y, (n - 1) as nat);
    }
}

/// What the weak-head normal form of `t` is, steps of reduction lead to
/// from `t`, and no step applies to it. The number of the steps is
/// returned.
pub proof fn lemma_weak_head_is_reached(t: Term, fuel: nat) -> (n: nat)
    requires
        weak_head(t, fuel) is Ok,
    ensures
        steps_to(t, weak_head(t, fuel)->Ok_0, n),
        head_normal(weak_head(t, fuel)->Ok_0),
    decreases fuel,
{
    let f = (fuel - 1) as nat;
    match t {
        Term::App(g, x) => {
            let n1 = lemma_weak_head_is_reached(*g, f);
            let g1 = weak_head(*g, f)->Ok_0;
            lemma_steps_in_function(*g, g1, *x, n1);
            match g1 {
                Term::Lam(_, body) => {
                    let b = subst(*body, *x)->Some_0;
                    let n2 = lemma_weak_head_is_reached(b, f);
                    let r = weak_head(b, f)->Ok_0;
                    assert(steps_to(app(g1, *x), r, n2 + 1));
                    lemma_steps_transitive(t, app(g1, *x), r, n1, n2 + 1);
                    n1 + n2 + 1
                },
                _ => {
                    if pending_elim(g1) is Some {
                        let n2 = lemma_weak_head_is_reached(*x, f);
                        let x1 = weak_head(*x, f)->Ok_0;
                        lemma_steps_in_argument(g1, *x, x1, n2);
                        lemma_steps_transitive(t, app(g1, *x), app(g1, x1), n1, n2);
                        if iota_applies(g1, x1) {
                            let reduct = iota_reduct(g1, x1)->Ok_0;
                            let n3 = lemma_weak_head_is_reached(reduct, f);
                            let r = weak_head(reduct, f)->Ok_0;
                            assert(steps_to(app(g1, x1), r, n3 + 1));
                            lemma_steps_transitive(t, app(g1, x1), r, n1 + n2, n3 + 1);
                            n1 + n2 + n3 + 1
                        } else {
                            n1 + n2
                        }
                    } else {
                        n1
                    }
                },
            }
        },
        _ => 0,
    }
}

/// The greater of two numbers.
pub open spec fn later(a: nat, b: nat) -> nat {
    if a >= b {
        a
    } else {
        b
    }
}

/// A term to which no step applies is its own weak-head normal form, with
/// the budget that is returned.
pub proof fn lemma_normal_is_own_weak_head(t: Term) -> (fuel: nat)
    requires
        head_normal(t),
    ensures
        fuel >= 1,
        weak_head(t, fuel) == Ok::<Term, KernelError>(t),
    decreases t,
{
    match t {
        Term::App(g, x) => {
            let fg = lemma_normal_is_own_weak_head(*g);
            if pending_elim(*g) is Some {
                let fx = lemma_normal_is_own_weak_head(*x);
                let top = later(fg, fx);
                lemma_weak_head_monotone(*g, fg, top);
                lemma_weak_head_monotone(*x, fx, top);
                top + 1
            } else {
                fg + 1
            }
        },
        _ => 1,
    }
}

/// With whatever budget a term to which no step applies has a weak-head
/// normal form, it is the term itself.
pub proof fn lemma_normal_weak_head_any(t: Term, fuel: nat)
    requires
        head_normal(t),
        weak_head(t, fuel) is Ok,
    ensures
        weak_head(t, fuel) == Ok::<Term, KernelError>(t),
{
    let own = lemma_normal_is_own_weak_head(t);
    if own <= fuel {
        lemma_weak_head_monotone(t, own, fuel);
    } else {
        lemma_weak_head_monotone(t, fuel, own);
    }
}

/// A term that takes a step has the weak-head normal form that it has
/// after the step, with the budget that is returned.
pub proof fn lemma_step_is_absorbed(t: Term, t1: Term, fuel: nat) -> (more: nat)
    requires
        head_step(t) == Ok::<Option<Term>, KernelError>(Some(t1)),
        weak_head(t1, fuel) is Ok,
    ensures
        weak_head(t, more) == weak_head(t1, fuel),
    decreases t,
{
    let f = (fuel - 1) as nat;
    match t {
        Term::App(g, x) => {
            match head_step(*g) {
                Ok(Some(g1)) => {
                    let m1 = lemma_step_is_absorbed(*g, g1, f);
                    let top = later(m1, f);
                    lemma_weak_head_monotone(*g, m1, top);
                    let h = weak_head(g1, f)->Ok_0;
                    match h {
                        Term::Lam(_, body) => {
                            let b = subst(*body, *x)->Some_0;
                            lemma_weak_head_monotone(b, f, top);
                        },
                        _ => {
                            if pending_elim(h) is Some {
                                lemma_weak_head_monotone(*x, f, top);
                                let x1 = weak_head(*x, f)->Ok_0;
                                if iota_applies(h, x1) {
                                    lemma_weak_head_monotone(iota_reduct(h, x1)->Ok_0, f, top);
                                }
                            }
                        },
                    }
                    top + 1
                },
                _ => {
                    match *g {
                        Term::Lam(_, body) => {
                            assert(weak_head(*g, fuel) == Ok::<Term, KernelError>(*g));
                            fuel + 1
                        },
                        _ => {
                            match head_step(*x) {
                                Ok(Some(x1)) => {
                                    lemma_normal_weak_head_any(*g, f);
                                    let m1 = lemma_step_is_absorbed(*x, x1, f);
                                    let top = later(m1, f);
                                    lemma_weak_head_monotone(*g, f, top);
                                    lemma_weak_head_monotone(*x, m1, top);
                                    let y = weak_head(x1, f)->Ok_0;
                                    if iota_applies(*g, y) {
                                        lemma_weak_head_monotone(iota_reduct(*g, y)->Ok_0, f, top);
                                    }
                                    top + 1
                                },
                                _ => {
                                    let fg = lemma_normal_is_own_weak_head(*g);
                                    let fx = lemma_normal_is_own_weak_head(*x);
                                    let top = later(later(fg, fx), fuel);
                                    lemma_weak_head_monotone(*g, fg, top);
                                    lemma_weak_head_monotone(*x, fx, top);
                                    lemma_weak_head_monotone(t1, fuel, top);
                                    top + 1
                                },
                            }
                        },
                    }
                },
            }
        },
        _ => 0,
    }
}

/// Where steps of reduction lead from `t` to a term to which no step
/// applies, that term is the weak-head normal form of `t`, found with the
/// budget that is returned.
pub proof fn lemma_reached_is_weak_head(t: Term, r: Term, n: nat) -> (fuel: nat)
    requires
        steps_to(t, r, n),
        head_normal(r),
    ensures
        weak_head(t, fuel) == Ok::<Term, KernelError>(r),
    decreases n,
{
    if n == 0 {
        lemma_normal_is_own_weak_head(r)
    } else {
        let t1 = head_step(t)->Ok_0->Some_0;
        let f1 = lemma_reached_is_weak_head(t1, r, (n - 1) as nat);
        lemma_step_is_absorbed(t, t1, f1)
    }
}

} // verus!
