//! What holds of the kernel's functions taken together.

use vstd::prelude::*;
use crate::env::State;
use crate::error::KernelError;
use crate::judgment::app_arg;
use crate::judgment::app_fun;
use crate::judgment::def_eq;
use crate::judgment::find_atom;
use crate::judgment::ind_check;
use crate::judgment::ind_def_eq;
use crate::judgment::level_eq;
use crate::judgment::level_term;
use crate::judgment::structural_eq;
use crate::judgment::type_of;
use crate::level::LevelTerm;
use crate::level::MAX_ATOMS;
use crate::level::apply;
use crate::level::atoms_below;
use crate::level::levels_agree;
use crate::level::normal_form;
use crate::reduce::iota_applies;
use crate::reduce::iota_reduct;
use crate::reduce::normal_or_self;
use crate::reduce::pending_elim;
use crate::reduce::weak_head;
use crate::term::BUILTINS;
use crate::term::Inductive;
use crate::term::LEVEL_IMAX;
use crate::term::LEVEL_MAX;
use crate::term::LEVEL_S;
use crate::term::LEVEL_Z;
use crate::term::Rewrite;
use crate::term::Term;
use crate::term::app;
use crate::term::has_bvar;
use crate::term::ind_has_bvar;
use crate::term::is_app_of;
use crate::term::lam;
use crate::term::lower;
use crate::term::max_index;
use crate::term::raise;
use crate::term::rewrite;
use crate::term::rewrite_ind;
use crate::term::subst;
use crate::valuation::eval;
use crate::valuation::lemma_levels_agree_sound;

verus! {

/// Every term is definitionally equal to itself, under any binders and
/// with any budget.
pub proof fn lemma_def_eq_reflexive(env: Seq<Term>, ctx: Seq<Term>, e: Term, fuel: nat)
    ensures
        def_eq(env, ctx, e, e, fuel),
    decreases fuel, 0nat,
{
    if fuel > 0 {
        let f = (fuel - 1) as nat;
        lemma_structural_eq_reflexive(env, ctx, normal_or_self(e, f), f);
    }
}

/// Every term agrees with itself part by part.
pub proof fn lemma_structural_eq_reflexive(env: Seq<Term>, ctx: Seq<Term>, t: Term, fuel: nat)
    ensures
        structural_eq(env, ctx, t, t, fuel),
    decreases fuel, 2nat,
{
    match t {
        Term::Pi(a, b) | Term::Lam(a, b) => {
            lemma_def_eq_reflexive(env, ctx, *a, fuel);
            lemma_def_eq_reflexive(env, ctx.push(*a), *b, fuel);
        },
        Term::App(a, b) => {
            lemma_def_eq_reflexive(env, ctx, *a, fuel);
            lemma_def_eq_reflexive(env, ctx, *b, fuel);
        },
        Term::Ind(i) | Term::IndConstr(_, i) | Term::IndElim(i) => {
            lemma_ind_def_eq_reflexive(env, ctx, i, fuel);
        },
        _ => {},
    }
}

/// Every inductive family is definitionally equal to itself.
pub proof fn lemma_ind_def_eq_reflexive(env: Seq<Term>, ctx: Seq<Term>, i: Inductive, fuel: nat)
    ensures
        ind_def_eq(env, ctx, i, i, fuel),
    decreases fuel, 1nat,
{
    lemma_def_eq_reflexive(env, ctx, *i.arity, fuel);
    assert forall|k: int| 0 <= k < i.constrs.len() implies def_eq(
        env,
        ctx.push(*i.arity),
        #[trigger] i.constrs[k],
        i.constrs[k],
        fuel,
    ) by {
        lemma_def_eq_reflexive(env, ctx.push(*i.arity), i.constrs[k], fuel);
    }
}

/// A weak-head normal form that a budget suffices to find is found with
/// every greater budget too.
pub proof fn lemma_weak_head_monotone(t: Term, fuel: nat, more: nat)
    requires
        weak_head(t, fuel) is Ok,
        fuel <= more,
    ensures
        weak_head(t, more) == weak_head(t, fuel),
    decreases fuel,
{
    if fuel > 0 {
        let f = (fuel - 1) as nat;
        let m = (more - 1) as nat;
        match t {
            Term::App(g, x) => {
                lemma_weak_head_monotone(*g, f, m);
                let g1 = weak_head(*g, f)->Ok_0;
                match g1 {
                    Term::Lam(_, body) => {
                        let b = subst(*body, *x)->Some_0;
                        lemma_weak_head_monotone(b, f, m);
                    },
                    _ => {
                        if pending_elim(g1) is Some {
                            lemma_weak_head_monotone(*x, f, m);
                            let x1 = weak_head(*x, f)->Ok_0;
                            if iota_applies(g1, x1) {
                                let r = iota_reduct(g1, x1)->Ok_0;
                                lemma_weak_head_monotone(r, f, m);
                            }
                        }
                    },
                }
            },
            _ => {},
        }
    }
}

/// A weak-head normal form is its own weak-head normal form.
pub proof fn lemma_weak_head_idempotent(t: Term, fuel: nat)
    requires
        weak_head(t, fuel) is Ok,
    ensures
        weak_head(weak_head(t, fuel)->Ok_0, fuel) == weak_head(t, fuel),
    decreases fuel,
{
    if fuel > 0 {
        let f = (fuel - 1) as nat;
        match t {
            Term::App(g, x) => {
                lemma_weak_head_idempotent(*g, f);
                let g1 = weak_head(*g, f)->Ok_0;
                match g1 {
                    Term::Lam(_, body) => {
                        let b = subst(*body, *x)->Some_0;
                        lemma_weak_head_idempotent(b, f);
                        lemma_weak_head_monotone(weak_head(b, f)->Ok_0, f, fuel);
                    },
                    _ => {
                        if pending_elim(g1) is Some {
                            lemma_weak_head_idempotent(*x, f);
                            let x1 = weak_head(*x, f)->Ok_0;
                            if iota_applies(g1, x1) {
                                let r = iota_reduct(g1, x1)->Ok_0;
                                lemma_weak_head_idempotent(r, f);
                                lemma_weak_head_monotone(weak_head(r, f)->Ok_0, f, fuel);
                            }
                        }
                    },
                }
            },
            _ => {},
        }
    }
}

/// Normalizing a second time gives a term that is definitionally equal to
/// the result of the first time: it gives the same term.
pub proof fn lemma_normalizing_twice(
    env: Seq<Term>,
    ctx: Seq<Term>,
    t: Term,
    fuel: nat,
    budget: nat,
)
    requires
        weak_head(t, fuel) is Ok,
    ensures
        weak_head(weak_head(t, fuel)->Ok_0, fuel) is Ok,
        def_eq(
            env,
            ctx,
            weak_head(weak_head(t, fuel)->Ok_0, fuel)->Ok_0,
            weak_head(t, fuel)->Ok_0,
            budget,
        ),
{
    lemma_weak_head_idempotent(t, fuel);
    lemma_def_eq_reflexive(env, ctx, weak_head(t, fuel)->Ok_0, budget);
}

/// Adding a constant to a well-formed environment and then truncating to
/// the length it had gives back the environment as it was: the same
/// constants under the same names, and the same budget.
pub proof fn lemma_add_then_truncate(
    before: State,
    added: State,
    after: State,
    name: Seq<char>,
    ty: Term,
    outcome: Result<(), KernelError>,
)
    requires
        before.wf(),
        before.types().len() <= u32::MAX,
        added.types() == before.types().push(ty),
        added.names() == before.names().push(name),
        added.budget() == before.budget(),
        after.budget() == added.budget(),
        before.types().len() >= BUILTINS ==> outcome is Ok,
        BUILTINS <= before.types().len() <= added.types().len() ==> after.types()
            == added.types().take(before.types().len() as int),
        BUILTINS <= before.types().len() <= added.types().len() ==> after.names()
            == added.names().take(before.types().len() as int),
    ensures
        outcome is Ok,
        after.types() == before.types(),
        after.names() == before.names(),
        after.budget() == before.budget(),
{
    assert(before.types().push(ty).take(before.types().len() as int) =~= before.types());
    assert(before.names().push(name).take(before.names().len() as int) =~= before.names());
}

/// An atom that is found among the atoms is one of them.
pub proof fn lemma_find_atom_bound(
    env: Seq<Term>,
    ctx: Seq<Term>,
    atoms: Seq<Term>,
    e: Term,
    from: nat,
    fuel: nat,
)
    requires
        find_atom(env, ctx, atoms, e, from, fuel) is Some,
    ensures
        from <= find_atom(env, ctx, atoms, e, from, fuel).unwrap() < atoms.len(),
    decreases atoms.len() - from,
{
    if from < atoms.len() && !def_eq(env, ctx, atoms[from as int], e, fuel) {
        lemma_find_atom_bound(env, ctx, atoms, e, from + 1, fuel);
    }
}

/// Reading an expression as a level never gives more than 16 atoms, keeps
/// the atoms that were there, and gives a level over the atoms it gives.
pub proof fn lemma_level_term_atoms(
    env: Seq<Term>,
    ctx: Seq<Term>,
    atoms: Seq<Term>,
    e: Term,
    fuel: nat,
)
    requires
        atoms.len() <= MAX_ATOMS,
        level_term(env, ctx, atoms, e, fuel) is Some,
    ensures
        atoms.len() <= level_term(env, ctx, atoms, e, fuel).unwrap().1.len() <= MAX_ATOMS,
        atoms_below(
            level_term(env, ctx, atoms, e, fuel).unwrap().0,
            level_term(env, ctx, atoms, e, fuel).unwrap().1.len(),
        ),
    decreases fuel,
{
    let f = (fuel - 1) as nat;
    let e1 = normal_or_self(e, f);
    if e1 == Term::FVar(LEVEL_Z) {
    } else if is_app_of(e1, LEVEL_S) {
        lemma_level_term_atoms(env, ctx, atoms, app_arg(e1), f);
    } else if e1 is App && (is_app_of(app_fun(e1), LEVEL_MAX) || is_app_of(app_fun(e1), LEVEL_IMAX)) {
        lemma_level_term_atoms(env, ctx, atoms, app_arg(app_fun(e1)), f);
        let first = level_term(env, ctx, atoms, app_arg(app_fun(e1)), f).unwrap();
        lemma_level_term_atoms(env, ctx, first.1, app_arg(e1), f);
        let second = level_term(env, ctx, first.1, app_arg(e1), f).unwrap();
        lemma_atoms_below_more(first.0, first.1.len(), second.1.len());
    } else {
        if find_atom(env, ctx, atoms, e1, 0, f) is Some {
            lemma_find_atom_bound(env, ctx, atoms, e1, 0, f);
        }
    }
}

/// A level over some atoms is a level over more atoms.
pub proof fn lemma_atoms_below_more(t: LevelTerm, vars: nat, more: nat)
    requires
        atoms_below(t, vars),
        vars <= more,
    ensures
        atoms_below(t, more),
    decreases t,
{
    match t {
        LevelTerm::Succ(a) => {
            lemma_atoms_below_more(*a, vars, more);
        },
        LevelTerm::Max(a, b) | LevelTerm::IMax(a, b) => {
            lemma_atoms_below_more(*a, vars, more);
            lemma_atoms_below_more(*b, vars, more);
        },
        _ => {},
    }
}

/// Where definitional equality holds of two expressions because they are
/// equal as levels, the levels that they are read as come to the same
/// number, whatever numbers their atoms are given.
pub proof fn lemma_level_eq_sound(
    env: Seq<Term>,
    ctx: Seq<Term>,
    l: Term,
    r: Term,
    fuel: nat,
    v: spec_fn(u8) -> nat,
)
    requires
        level_eq(env, ctx, l, r, fuel),
    ensures
        level_term(env, ctx, Seq::empty(), l, fuel) is Some,
        level_term(
            env,
            ctx,
            level_term(env, ctx, Seq::empty(), l, fuel).unwrap().1,
            r,
            fuel,
        ) is Some,
        eval(level_term(env, ctx, Seq::empty(), l, fuel).unwrap().0, v) == eval(
            level_term(
                env,
                ctx,
                level_term(env, ctx, Seq::empty(), l, fuel).unwrap().1,
                r,
                fuel,
            ).unwrap().0,
            v,
        ),
{
    let first = level_term(env, ctx, Seq::empty(), l, fuel).unwrap();
    let second = level_term(env, ctx, first.1, r, fuel).unwrap();
    lemma_levels_agree_sound(first.0, second.0, second.1.len() as u8, v);
}

/// With more than 16 atoms no two levels are found equal.
pub proof fn lemma_too_many_atoms(l: LevelTerm, r: LevelTerm, vars: u8)
    requires
        vars > MAX_ATOMS,
    ensures
        !levels_agree(l, r, vars),
{
}

/// The type of a universe above the levels has a type itself, as long as
/// it lies two below the top.
pub proof fn lemma_universe_types_have_types(env: Seq<Term>, ctx: Seq<Term>, k: u16, fuel: nat)
    requires
        k + 2 <= u16::MAX,
        fuel > 0,
    ensures
        type_of(env, ctx, Term::SortOmega(k), fuel) == Ok::<Term, KernelError>(
            Term::SortOmega((k + 1) as u16),
        ),
        type_of(env, ctx, Term::SortOmega((k + 1) as u16), fuel) is Ok,
{
}

/// The universe at the top has no type: its successor does not fit in 16
/// bits, and the answer is an error, never another universe.
pub proof fn lemma_top_universe_overflows(env: Seq<Term>, ctx: Seq<Term>, fuel: nat)
    ensures
        type_of(env, ctx, Term::SortOmega(u16::MAX), fuel) is Err,
        fuel > 0 ==> type_of(env, ctx, Term::SortOmega(u16::MAX), fuel) == Err::<
            Term,
            KernelError,
        >(KernelError::LevelOverflow),
{
}

/// An inductive family with more constructors than 16 bits can number is
/// never accepted, and neither the family, nor a constructor of it, nor its
/// recursor has a type.
pub proof fn lemma_too_many_constructors(
    env: Seq<Term>,
    ctx: Seq<Term>,
    i: Inductive,
    k: u16,
    fuel: nat,
)
    requires
        i.constrs.len() > max_index(),
    ensures
        ind_check(env, ctx, i, fuel) is Err,
        type_of(env, ctx, Term::Ind(i), fuel) is Err,
        type_of(env, ctx, Term::IndConstr(k, i), fuel) is Err,
        type_of(env, ctx, Term::IndElim(i), fuel) is Err,
{
    if fuel > 0 {
        let f = (fuel - 1) as nat;
        assert(ind_check(env, ctx, i, f) is Err);
    }
}

/// Whether one of the indices from `depth` up to `depth + by` occurs free
/// in `t`.
pub open spec fn occurs_between(t: Term, depth: nat, by: nat) -> bool {
    exists|k: nat| depth <= k < depth + by && #[trigger] has_bvar(t, k)
}

/// Whether one of the indices from `depth` up to `depth + by` occurs free
/// in the declaration `i`.
pub open spec fn ind_occurs_between(i: Inductive, depth: nat, by: nat) -> bool {
    exists|k: nat| depth <= k < depth + by && #[trigger] ind_has_bvar(i, k)
}

/// Lowering fails on exactly those terms in which an index occurs that it
/// would have to remove.
pub proof fn lemma_lower_fails_where_index_occurs(t: Term, depth: nat, by: nat)
    ensures
        lower(t, depth, by) is None <==> occurs_between(t, depth, by),
    decreases t,
{
    match t {
        Term::BVar(n) => {
            if depth <= n && n < depth + by {
                assert(has_bvar(t, n as nat));
            }
        },
        Term::Lam(a, b) | Term::Pi(a, b) => {
            lemma_lower_fails_where_index_occurs(*a, depth, by);
            lemma_lower_fails_where_index_occurs(*b, depth + 1, by);
            if occurs_between(*a, depth, by) {
                let k = choose|k: nat| depth <= k < depth + by && #[trigger] has_bvar(*a, k);
                assert(has_bvar(t, k));
            }
            if occurs_between(*b, depth + 1, by) {
                let k = choose|k: nat| depth + 1 <= k < depth + 1 + by && #[trigger] has_bvar(*b, k);
                assert(has_bvar(*b, ((k - 1) as nat) + 1));
                assert(has_bvar(t, (k - 1) as nat));
            }
            if occurs_between(t, depth, by) {
                let k = choose|k: nat| depth <= k < depth + by && #[trigger] has_bvar(t, k);
                if !has_bvar(*a, k) {
                    assert(has_bvar(*b, k + 1));
                }
            }
        },
        Term::App(a, b) => {
            lemma_lower_fails_where_index_occurs(*a, depth, by);
            lemma_lower_fails_where_index_occurs(*b, depth, by);
            if occurs_between(*a, depth, by) {
                let k = choose|k: nat| depth <= k < depth + by && #[trigger] has_bvar(*a, k);
                assert(has_bvar(t, k));
            }
            if occurs_between(*b, depth, by) {
                let k = choose|k: nat| depth <= k < depth + by && #[trigger] has_bvar(*b, k);
                assert(has_bvar(t, k));
            }
            if occurs_between(t, depth, by) {
                let k = choose|k: nat| depth <= k < depth + by && #[trigger] has_bvar(t, k);
                assert(has_bvar(*a, k) || has_bvar(*b, k));
            }
        },
        Term::Ind(i) | Term::IndConstr(_, i) | Term::IndElim(i) => {
            lemma_lower_ind_fails_where_index_occurs(i, depth, by);
            if ind_occurs_between(i, depth, by) {
                let k = choose|k: nat| depth <= k < depth + by && #[trigger] ind_has_bvar(i, k);
                assert(has_bvar(t, k));
            }
            if occurs_between(t, depth, by) {
                let k = choose|k: nat| depth <= k < depth + by && #[trigger] has_bvar(t, k);
                assert(ind_has_bvar(i, k));
            }
        },
        _ => {},
    }
}

/// Lowering fails on exactly those declarations in which an index occurs
/// that it would have to remove.
pub proof fn lemma_lower_ind_fails_where_index_occurs(i: Inductive, depth: nat, by: nat)
    ensures
        rewrite_ind(i, depth, Rewrite::Lower(by)) is None <==> ind_occurs_between(i, depth, by),
    decreases i,
{
    let op = Rewrite::Lower(by);
    lemma_lower_fails_where_index_occurs(*i.arity, depth, by);
    assert forall|j: int| 0 <= j < i.constrs.len() implies (rewrite(
        #[trigger] i.constrs[j],
        depth + 1,
        op,
    ) is None <==> occurs_between(i.constrs[j], depth + 1, by)) by {
        lemma_lower_fails_where_index_occurs(i.constrs[j], depth + 1, by);
    }
    if occurs_between(*i.arity, depth, by) {
        let k = choose|k: nat| depth <= k < depth + by && #[trigger] has_bvar(*i.arity, k);
        assert(ind_has_bvar(i, k));
    }
    if rewrite(*i.arity, depth, op) is Some && rewrite_ind(i, depth, op) is None {
        let j = choose|j: int|
            0 <= j < i.constrs.len() && !(rewrite(#[trigger] i.constrs[j], depth + 1, op) is Some);
        assert(occurs_between(i.constrs[j], depth + 1, by));
        let k = choose|k: nat|
            depth + 1 <= k < depth + 1 + by && #[trigger] has_bvar(i.constrs[j], k);
        assert(has_bvar(i.constrs[j], ((k - 1) as nat) + 1));
        assert(ind_has_bvar(i, (k - 1) as nat));
    }
    if ind_occurs_between(i, depth, by) {
        let k = choose|k: nat| depth <= k < depth + by && #[trigger] ind_has_bvar(i, k);
        if !has_bvar(*i.arity, k) {
            let j = choose|j: int|
                0 <= j < i.constrs.len() && has_bvar(#[trigger] i.constrs[j], k + 1);
            assert(occurs_between(i.constrs[j], depth + 1, by));
            assert(rewrite(i.constrs[j], depth + 1, op) is None);
        }
    }
}

/// An index occurs free in a term exactly where lowering by one at that
/// index fails.
pub proof fn lemma_has_bvar_is_lower_failing(t: Term, n: nat)
    ensures
        has_bvar(t, n) <==> lower(t, n, 1) is None,
{
    lemma_lower_fails_where_index_occurs(t, n, 1);
    if occurs_between(t, n, 1) {
        let k = choose|k: nat| n <= k < n + 1 && #[trigger] has_bvar(t, k);
        assert(k == n);
    }
}

/// Substituting into a term that was raised over the index that is
/// substituted for gives the term back, whatever is put in.
pub proof fn lemma_subst_after_raise(t: Term, depth: nat, new: Term, shift: nat)
    requires
        raise(t, depth, 1) is Some,
    ensures
        rewrite(raise(t, depth, 1).unwrap(), depth, Rewrite::Subst(new, shift)) == Some(t),
    decreases t,
{
    match t {
        Term::Lam(a, b) | Term::Pi(a, b) => {
            lemma_subst_after_raise(*a, depth, new, shift);
            lemma_subst_after_raise(*b, depth + 1, new, shift);
        },
        Term::App(a, b) => {
            lemma_subst_after_raise(*a, depth, new, shift);
            lemma_subst_after_raise(*b, depth, new, shift);
        },
        Term::Ind(i) | Term::IndConstr(_, i) | Term::IndElim(i) => {
            lemma_subst_after_raise_ind(i, depth, new, shift);
        },
        _ => {},
    }
}

/// Substituting into a declaration that was raised over the index that is
/// substituted for gives the declaration back.
pub proof fn lemma_subst_after_raise_ind(i: Inductive, depth: nat, new: Term, shift: nat)
    requires
        rewrite_ind(i, depth, Rewrite::Raise(1)) is Some,
    ensures
        rewrite_ind(
            rewrite_ind(i, depth, Rewrite::Raise(1)).unwrap(),
            depth,
            Rewrite::Subst(new, shift),
        ) == Some(i),
    decreases i,
{
    let r = rewrite_ind(i, depth, Rewrite::Raise(1)).unwrap();
    let op = Rewrite::Subst(new, shift);
    lemma_subst_after_raise(*i.arity, depth, new, shift);
    assert forall|k: int| 0 <= k < r.constrs.len() implies rewrite(
        #[trigger] r.constrs[k],
        depth + 1,
        op,
    ) == Some(i.constrs[k]) by {
        assert(rewrite(i.constrs[k], depth + 1, Rewrite::Raise(1)) is Some);
        lemma_subst_after_raise(i.constrs[k], depth + 1, new, shift);
    }
    assert(rewrite_ind(r, depth, op).unwrap().constrs =~= i.constrs);
}

/// A function that does not use its argument gives, applied to any
/// argument, what its body gives.
pub proof fn lemma_constant_function(domain: Term, body: Term, x: Term, fuel: nat)
    requires
        raise(body, 0, 1) is Some,
        fuel >= 2,
    ensures
        weak_head(app(lam(domain, raise(body, 0, 1).unwrap()), x), fuel) == weak_head(
            body,
            (fuel - 1) as nat,
        ),
{
    lemma_subst_after_raise(body, 0, x, 0);
    let f = lam(domain, raise(body, 0, 1).unwrap());
    assert(weak_head(f, (fuel - 1) as nat) == Ok::<Term, KernelError>(f));
}

/// The comparison of levels does not mind which level comes first.
pub proof fn lemma_levels_agree_symmetric(l: LevelTerm, r: LevelTerm, vars: u8)
    requires
        levels_agree(l, r, vars),
    ensures
        levels_agree(r, l, vars),
{
    let ln = normal_form(l).unwrap();
    let rn = normal_form(r).unwrap();
    assert forall|s: u32| s < (1u32 << (vars as u32)) implies {
        &&& (#[trigger] apply(rn, vars, s)) is Some
        &&& apply(rn, vars, s) == apply(ln, vars, s)
    } by {
        assert(apply(ln, vars, s) is Some);
    }
}

/// Two levels that are found equal to a third are found equal to each
/// other.
pub proof fn lemma_levels_agree_transitive(a: LevelTerm, b: LevelTerm, c: LevelTerm, vars: u8)
    requires
        levels_agree(a, b, vars),
        levels_agree(b, c, vars),
    ensures
        levels_agree(a, c, vars),
{
    let an = normal_form(a).unwrap();
    let bn = normal_form(b).unwrap();
    let cn = normal_form(c).unwrap();
    assert forall|s: u32| s < (1u32 << (vars as u32)) implies {
        &&& (#[trigger] apply(an, vars, s)) is Some
        &&& apply(an, vars, s) == apply(cn, vars, s)
    } by {
        assert(apply(an, vars, s) is Some);
        assert(apply(bn, vars, s) is Some);
    }
}

} // verus!
