//! Type inference, definitional equality and the acceptance of inductive
//! families, computed on expressions.

use vstd::prelude::*;
use crate::env::State;
use crate::error::KernelError;
use crate::expr::Expr;
use crate::expr::Ind;
use crate::inductive::check_constr_shape;
use crate::inductive::is_referenced;
use crate::inductive::raise_at;
use crate::inductive::recursor_type;
use crate::judgment::LevelKind;
use crate::judgment::Universe;
use crate::judgment::app_arg;
use crate::judgment::app_fun;
use crate::judgment::arity_level;
use crate::judgment::as_level;
use crate::judgment::check_constr;
use crate::judgment::check_constrs;
use crate::judgment::def_eq;
use crate::judgment::find_atom;
use crate::judgment::ind_check;
use crate::judgment::ind_def_eq;
use crate::judgment::into_univ;
use crate::judgment::is_level;
use crate::judgment::kind_max;
use crate::judgment::level_eq;
use crate::judgment::level_kind;
use crate::judgment::level_term;
use crate::judgment::pi_sort;
use crate::judgment::singleton;
use crate::judgment::sort_level;
use crate::judgment::sort_of;
use crate::judgment::structural_eq;
use crate::judgment::type_of;
use crate::judgment::uip;
use crate::level::LevelTerm;
use crate::level::MAX_ATOMS;
use crate::level::levels_equal;
use crate::reduce::result_view;
use crate::reduce::whnf;
use crate::reduce::whnf_or_self;
use crate::shape::pi_parts;
use crate::shape::terms_of;
use crate::term::LEVEL_IMAX;
use crate::term::LEVEL_MAX;
use crate::term::LEVEL_S;
use crate::term::LEVEL_Z;
use crate::term::SORT;
use crate::term::Term;
use crate::term::is_app_of;
use crate::term::pi_domains;

verus! {

/// The binders that an expression stands under, innermost first.
pub enum Binders<'a> {
    Empty,
    Bound(&'a Expr, &'a Binders<'a>),
}

/// The types of the binders, outermost first.
pub open spec fn binders_view<'a>(b: Binders<'a>) -> Seq<Term>
    decreases b,
{
    match b {
        Binders::Empty => Seq::empty(),
        Binders::Bound(e, rest) => binders_view(*rest).push(e@),
    }
}

impl<'a> View for Binders<'a> {
    type V = Seq<Term>;

    open spec fn view(&self) -> Seq<Term> {
        binders_view(*self)
    }
}

impl<'a> Binders<'a> {
    /// The type of the binder that index `n` refers to, where there is one.
    pub fn lookup(&self, n: u16) -> (r: Option<&'a Expr>)
        ensures
            match r {
                Some(e) => n < self@.len() && e@ == self@[self@.len() - 1 - n],
                None => n >= self@.len(),
            },
        decreases self,
    {
        match self {
            Binders::Empty => None,
            Binders::Bound(e, rest) => {
                if n == 0 {
                    Some(*e)
                } else {
                    rest.lookup(n - 1)
                }
            },
        }
    }
}

/// A universe: `Sort` of a level, or one of the universes above all those.
#[derive(Debug)]
pub enum Univ {
    Sort(Box<Expr>),
    SortOmega(u16),
}

impl View for Univ {
    type V = Universe;

    open spec fn view(&self) -> Universe {
        match self {
            Univ::Sort(level) => Universe::Sort(level@),
            Univ::SortOmega(n) => Universe::SortOmega(*n),
        }
    }
}

impl Univ {
    /// The level of a `Sort`; a universe above those is handed back.
    pub fn into_level(self) -> (r: Result<Expr, Univ>)
        ensures
            self matches Univ::Sort(level) ==> r == Ok::<Expr, Univ>(*level),
            self is SortOmega ==> r == Err::<Expr, Univ>(self),
    {
        match self {
            Univ::Sort(level) => Ok(*level),
            Univ::SortOmega(n) => Err(Univ::SortOmega(n)),
        }
    }
}

/// Whether `e` is the constant with this index.
pub fn is_const(e: &Expr, index: u32) -> (r: bool)
    ensures
        r == (e@ == Term::FVar(index)),
{
    match e {
        Expr::FVar(x) => *x == index,
        _ => false,
    }
}

/// Whether `e` is the constant with this index applied to one argument.
pub fn is_app_of_const(e: &Expr, index: u32) -> (r: bool)
    ensures
        r == is_app_of(e@, index),
{
    match e {
        Expr::App(f, _) => is_const(f, index),
        _ => false,
    }
}

impl Expr {
    /// The universe that the expression is, where it is written as one; the
    /// expression itself where not.
    pub fn into_univ(self) -> (r: Result<Univ, Expr>)
        ensures
            match into_univ(self@) {
                Some(u) => r is Ok && r.unwrap()@ == u,
                None => r == Err::<Univ, Expr>(self),
            },
    {
        match self {
            Expr::App(l, r) => {
                if is_const(&l, SORT) {
                    Ok(Univ::Sort(r))
                } else {
                    Err(Expr::App(l, r))
                }
            },
            Expr::SortOmega(n) => Ok(Univ::SortOmega(n)),
            other => Err(other),
        }
    }

    /// The level of the expression, where it is `Sort` of a level; the
    /// expression itself where not.
    pub fn into_level(self) -> (r: Result<Expr, Expr>)
        ensures
            match as_level(self@) {
                Some(level) => r is Ok && r.unwrap()@ == level,
                None => r == Err::<Expr, Expr>(self),
            },
    {
        match self {
            Expr::App(l, r) => {
                if is_const(&l, SORT) {
                    Ok(*r)
                } else {
                    Err(Expr::App(l, r))
                }
            },
            other => Err(other),
        }
    }

    /// The level of the expression, where it is `Sort` of a level.
    pub fn as_level(&self) -> (r: Option<&Expr>)
        ensures
            match as_level(self@) {
                Some(level) => r is Some && r.unwrap()@ == level,
                None => r is None,
            },
    {
        match self {
            Expr::App(l, r) => {
                if is_const(l, SORT) {
                    Some(r)
                } else {
                    None
                }
            },
            _ => None,
        }
    }

    /// The universe that the expression is, or the error that it is none.
    pub fn expect_univ(self) -> (r: Result<Univ, KernelError>)
        ensures
            match into_univ(self@) {
                Some(u) => r is Ok && r.unwrap()@ == u,
                None => r == Err::<Univ, KernelError>(KernelError::NotASort),
            },
    {
        match self.into_univ() {
            Ok(u) => Ok(u),
            Err(_) => Err(KernelError::NotASort),
        }
    }
}

fn fun_of(e: &Expr) -> (r: &Expr)
    ensures
        r@ == app_fun(e@),
{
    match e {
        Expr::App(f, _) => f,
        _ => e,
    }
}

fn arg_of(e: &Expr) -> (r: &Expr)
    ensures
        r@ == app_arg(e@),
{
    match e {
        Expr::App(_, x) => x,
        _ => e,
    }
}

fn is_app(e: &Expr) -> (r: bool)
    ensures
        r == (e@ is App),
{
    match e {
        Expr::App(_, _) => true,
        _ => false,
    }
}

/// Whether `e` is headed by one of the four formers of levels.
pub fn is_level_expr(e: &Expr) -> (r: bool)
    ensures
        r == is_level(e@),
{
    is_const(e, LEVEL_Z) || is_app_of_const(e, LEVEL_S) || (is_app(e) && (is_app_of_const(
        fun_of(e),
        LEVEL_MAX,
    ) || is_app_of_const(fun_of(e), LEVEL_IMAX)))
}

fn later_kind(a: LevelKind, b: LevelKind) -> (r: LevelKind)
    ensures
        r == kind_max(a, b),
{
    match (a, b) {
        (LevelKind::AlwaysNonzero, _) => LevelKind::AlwaysNonzero,
        (_, LevelKind::AlwaysNonzero) => LevelKind::AlwaysNonzero,
        (LevelKind::SometimesZero, _) => LevelKind::SometimesZero,
        (_, LevelKind::SometimesZero) => LevelKind::SometimesZero,
        _ => LevelKind::AlwaysZero,
    }
}

/// Whether the level `e` is zero for every value of its atoms, for none, or
/// for some.
pub fn kind_of_level(e: &Expr, fuel: u64) -> (r: Result<LevelKind, KernelError>)
    ensures
        r == level_kind(e@, fuel as nat),
    decreases fuel,
{
    if fuel == 0 {
        return Err(KernelError::OutOfFuel);
    }
    let f = fuel - 1;
    let e1 = match whnf(e.clone(), f) {
        Ok(v) => v,
        Err(x) => {
            return Err(x);
        },
    };
    if is_const(&e1, LEVEL_Z) {
        Ok(LevelKind::AlwaysZero)
    } else if is_app_of_const(&e1, LEVEL_S) {
        Ok(LevelKind::AlwaysNonzero)
    } else if is_app(&e1) && is_app_of_const(fun_of(&e1), LEVEL_MAX) {
        let a = match kind_of_level(arg_of(fun_of(&e1)), f) {
            Ok(v) => v,
            Err(x) => {
                return Err(x);
            },
        };
        match kind_of_level(arg_of(&e1), f) {
            Ok(b) => Ok(later_kind(a, b)),
            Err(x) => Err(x),
        }
    } else if is_app(&e1) && is_app_of_const(fun_of(&e1), LEVEL_IMAX) {
        kind_of_level(arg_of(&e1), f)
    } else {
        Ok(LevelKind::SometimesZero)
    }
}

fn sort_of_pi(lu: Univ, ru: Univ) -> (r: Expr)
    ensures
        r@ == pi_sort(lu@, ru@),
{
    match (lu, ru) {
        (Univ::Sort(l), Univ::Sort(r)) => match r.lower(0, 1) {
            Some(r1) => {
                let imax = Expr::FVar(LEVEL_IMAX);
                assert(imax@ == Term::FVar(LEVEL_IMAX));
                Expr::sort(Expr::app(Expr::app(imax, *l), r1))
            },
            None => Expr::SortOmega(0),
        },
        (Univ::SortOmega(a), Univ::Sort(_)) => Expr::SortOmega(a),
        (Univ::Sort(_), Univ::SortOmega(b)) => Expr::SortOmega(b),
        (Univ::SortOmega(a), Univ::SortOmega(b)) => Expr::SortOmega(
            if a >= b {
                a
            } else {
                b
            },
        ),
    }
}

fn level_of_sort(univ: &Expr, fuel: u64) -> (r: Option<Expr>)
    ensures
        crate::expr::option_view(r) == sort_level(univ@, fuel as nat),
{
    let n = whnf_or_self(univ, fuel);
    match n {
        Expr::App(f, lv) => {
            let head = whnf_or_self(&f, fuel);
            if is_const(&head, SORT) {
                Some(*lv)
            } else {
                None
            }
        },
        _ => None,
    }
}

/// The type of `e` under the binders `ctx`.
#[verifier::rlimit(100)]
pub fn type_in(st: &State, ctx: &Binders, e: &Expr, fuel: u64) -> (r: Result<Expr, KernelError>)
    ensures
        result_view(r) == type_of(st.types(), ctx@, e@, fuel as nat),
    decreases fuel, 0nat, 0nat,
{
    if fuel == 0 {
        return Err(KernelError::OutOfFuel);
    }
    let f = fuel - 1;
    match e {
        Expr::FVar(x) => match st.lookup(*x) {
            Some(t) => Ok(t.clone()),
            None => Err(KernelError::UnboundVariable),
        },
        Expr::BVar(n) => match ctx.lookup(*n) {
            Some(t) => match raise_at(t, 0, *n as u128 + 1) {
                Some(t1) => Ok(t1),
                None => Err(KernelError::IndexOverflow),
            },
            None => Err(KernelError::UnboundVariable),
        },
        Expr::SortOmega(k) => {
            if *k < u16::MAX {
                Ok(Expr::SortOmega(*k + 1))
            } else {
                Err(KernelError::LevelOverflow)
            }
        },
        Expr::Lam(l, body) => {
            match sort_in(st, ctx, l, f) {
                Ok(_) => {},
                Err(x) => {
                    return Err(x);
                },
            }
            let inner = Binders::Bound(&**l, ctx);
            match type_in(st, &inner, body, f) {
                Ok(t) => Ok(Expr::Pi(Box::new((**l).clone()), Box::new(t))),
                Err(x) => Err(x),
            }
        },
        Expr::Pi(l, body) => {
            let lu = match sort_in(st, ctx, l, f) {
                Ok(u) => u,
                Err(x) => {
                    return Err(x);
                },
            };
            let inner = Binders::Bound(&**l, ctx);
            match sort_in(st, &inner, body, f) {
                Ok(ru) => Ok(sort_of_pi(lu, ru)),
                Err(x) => Err(x),
            }
        },
        Expr::App(l, x) => {
            let lt = match type_in(st, ctx, l, f) {
                Ok(t) => t,
                Err(x) => {
                    return Err(x);
                },
            };
            let head = match whnf(lt, f) {
                Ok(t) => t,
                Err(x) => {
                    return Err(x);
                },
            };
            match head {
                Expr::Pi(f_in, f_out) => {
                    let xt = match type_in(st, ctx, x, f) {
                        Ok(t) => t,
                        Err(x) => {
                            return Err(x);
                        },
                    };
                    if def_eq_in(st, ctx, &f_in, &xt, f) {
                        match f_out.subst(x) {
                            Some(t) => Ok(t),
                            None => Err(KernelError::IndexOverflow),
                        }
                    } else {
                        Err(KernelError::TypeMismatch)
                    }
                },
                _ => Err(KernelError::NotAFunction),
            }
        },
        Expr::Ind(i) => match check_ind(st, ctx, i, f) {
            Ok(()) => Ok((*i.arity).clone()),
            Err(x) => Err(x),
        },
        Expr::IndConstr(n, i) => match check_ind(st, ctx, i, f) {
            Ok(()) => {
                let at = *n as usize;
                if at < i.constrs.len() {
                    let fam = Expr::Ind(i.clone());
                    assert(fam@ == Term::Ind(i@));
                    assert(i@.constrs[at as int] == i.constrs[at as int]@);
                    match i.constrs[at].subst(&fam) {
                        Some(t) => Ok(t),
                        None => Err(KernelError::IndexOverflow),
                    }
                } else {
                    Err(KernelError::NoSuchConstructor)
                }
            },
            Err(x) => Err(x),
        },
        Expr::IndElim(i) => match check_ind(st, ctx, i, f) {
            Ok(()) => recursor_type(i),
            Err(x) => Err(x),
        },
    }
}

/// The universe that `e` lives in under the binders `ctx`.
pub fn sort_in(st: &State, ctx: &Binders, e: &Expr, fuel: u64) -> (r: Result<Univ, KernelError>)
    ensures
        match sort_of(st.types(), ctx@, e@, fuel as nat) {
            Ok(u) => r is Ok && r.unwrap()@ == u,
            Err(x) => r == Err::<Univ, KernelError>(x),
        },
    decreases fuel, 1nat, 0nat,
{
    match type_in(st, ctx, e, fuel) {
        Ok(t) => t.expect_univ(),
        Err(x) => Err(x),
    }
}

/// Whether `l` and `r` are definitionally equal under the binders `ctx`.
pub fn def_eq_in(st: &State, ctx: &Binders, l: &Expr, r: &Expr, fuel: u64) -> (eq: bool)
    ensures
        eq == def_eq(st.types(), ctx@, l@, r@, fuel as nat),
    decreases fuel, 0nat, 0nat,
{
    if fuel == 0 {
        return l.same(r);
    }
    let f = fuel - 1;
    let l1 = whnf_or_self(l, f);
    let r1 = whnf_or_self(r, f);
    structural_eq_in(st, ctx, &l1, &r1, f) || level_eq_in(st, ctx, &l1, &r1, f) || uip_in(
        st,
        ctx,
        &l1,
        &r1,
        f,
    )
}

fn structural_eq_in(st: &State, ctx: &Binders, l: &Expr, r: &Expr, fuel: u64) -> (eq: bool)
    ensures
        eq == structural_eq(st.types(), ctx@, l@, r@, fuel as nat),
    decreases fuel, 2nat, 0nat,
{
    match (l, r) {
        (Expr::FVar(a), Expr::FVar(b)) => *a == *b,
        (Expr::BVar(a), Expr::BVar(b)) => *a == *b,
        (Expr::SortOmega(a), Expr::SortOmega(b)) => *a == *b,
        (Expr::Pi(a, b), Expr::Pi(c, d)) => {
            if !def_eq_in(st, ctx, a, c, fuel) {
                return false;
            }
            let inner = Binders::Bound(&**a, ctx);
            def_eq_in(st, &inner, b, d, fuel)
        },
        (Expr::Lam(a, b), Expr::Lam(c, d)) => {
            if !def_eq_in(st, ctx, a, c, fuel) {
                return false;
            }
            let inner = Binders::Bound(&**a, ctx);
            def_eq_in(st, &inner, b, d, fuel)
        },
        (Expr::App(a, b), Expr::App(c, d)) => def_eq_in(st, ctx, a, c, fuel) && def_eq_in(
            st,
            ctx,
            b,
            d,
            fuel,
        ),
        (Expr::Ind(a), Expr::Ind(b)) => ind_def_eq_in(st, ctx, a, b, fuel),
        (Expr::IndConstr(n, a), Expr::IndConstr(m, b)) => *n == *m && ind_def_eq_in(
            st,
            ctx,
            a,
            b,
            fuel,
        ),
        (Expr::IndElim(a), Expr::IndElim(b)) => ind_def_eq_in(st, ctx, a, b, fuel),
        _ => false,
    }
}

#[verifier::loop_isolation(false)]
fn ind_def_eq_in(st: &State, ctx: &Binders, a: &Ind, b: &Ind, fuel: u64) -> (eq: bool)
    ensures
        eq == ind_def_eq(st.types(), ctx@, a@, b@, fuel as nat),
    decreases fuel, 1nat, 0nat,
{
    if a.constrs.len() != b.constrs.len() {
        assert(a@.constrs.len() != b@.constrs.len());
        return false;
    }
    if !def_eq_in(st, ctx, &a.arity, &b.arity, fuel) {
        return false;
    }
    let inner = Binders::Bound(&*a.arity, ctx);
    let mut k: usize = 0;
    while k < a.constrs.len()
        invariant
            k <= a.constrs.len(),
            forall|j: int|
                0 <= j < k ==> def_eq(
                    st.types(),
                    inner@,
                    #[trigger] a@.constrs[j],
                    b@.constrs[j],
                    fuel as nat,
                ),
        decreases a.constrs.len() - k,
    {
        assert(a@.constrs[k as int] == a.constrs[k as int]@);
        assert(b@.constrs[k as int] == b.constrs[k as int]@);
        if !def_eq_in(st, &inner, &a.constrs[k], &b.constrs[k], fuel) {
            return false;
        }
        k += 1;
    }
    true
}

#[verifier::loop_isolation(false)]
fn find_atom_in(
    st: &State,
    ctx: &Binders,
    atoms: &Vec<Expr>,
    e: &Expr,
    fuel: u64,
) -> (r: Option<usize>)
    ensures
        match find_atom(st.types(), ctx@, terms_of(atoms@), e@, 0, fuel as nat) {
            Some(at) => r == Some(at as usize) && at < atoms.len(),
            None => r is None,
        },
    decreases fuel, 1nat, 0nat,
{
    let mut k: usize = 0;
    while k < atoms.len()
        invariant
            k <= atoms.len(),
            find_atom(st.types(), ctx@, terms_of(atoms@), e@, 0, fuel as nat) == find_atom(
                st.types(),
                ctx@,
                terms_of(atoms@),
                e@,
                k as nat,
                fuel as nat,
            ),
        decreases atoms.len() - k,
    {
        if def_eq_in(st, ctx, &atoms[k], e, fuel) {
            return Some(k);
        }
        k += 1;
    }
    None
}

fn level_term_in(
    st: &State,
    ctx: &Binders,
    atoms: &mut Vec<Expr>,
    e: &Expr,
    fuel: u64,
) -> (r: Option<LevelTerm>)
    requires
        old(atoms).len() <= MAX_ATOMS,
    ensures
        match level_term(st.types(), ctx@, terms_of(old(atoms)@), e@, fuel as nat) {
            Some((t, a)) => r == Some(t) && terms_of(final(atoms)@) == a && final(atoms).len()
                <= MAX_ATOMS,
            None => r is None,
        },
    decreases fuel, 0nat, 0nat,
{
    if fuel == 0 {
        return None;
    }
    let f = fuel - 1;
    let e1 = whnf_or_self(e, f);
    if is_const(&e1, LEVEL_Z) {
        Some(LevelTerm::Zero)
    } else if is_app_of_const(&e1, LEVEL_S) {
        match level_term_in(st, ctx, atoms, arg_of(&e1), f) {
            Some(t) => Some(LevelTerm::Succ(Box::new(t))),
            None => None,
        }
    } else if is_app(&e1) && is_app_of_const(fun_of(&e1), LEVEL_MAX) {
        let t1 = match level_term_in(st, ctx, atoms, arg_of(fun_of(&e1)), f) {
            Some(t) => t,
            None => {
                return None;
            },
        };
        match level_term_in(st, ctx, atoms, arg_of(&e1), f) {
            Some(t2) => Some(LevelTerm::Max(Box::new(t1), Box::new(t2))),
            None => None,
        }
    } else if is_app(&e1) && is_app_of_const(fun_of(&e1), LEVEL_IMAX) {
        let t1 = match level_term_in(st, ctx, atoms, arg_of(fun_of(&e1)), f) {
            Some(t) => t,
            None => {
                return None;
            },
        };
        match level_term_in(st, ctx, atoms, arg_of(&e1), f) {
            Some(t2) => Some(LevelTerm::IMax(Box::new(t1), Box::new(t2))),
            None => None,
        }
    } else {
        match find_atom_in(st, ctx, atoms, &e1, f) {
            Some(at) => Some(LevelTerm::Var(at as u8)),
            None => {
                if atoms.len() >= MAX_ATOMS as usize {
                    None
                } else {
                    let at = atoms.len() as u8;
                    let ghost before = atoms@;
                    atoms.push(e1);
                    assert(terms_of(atoms@) =~= terms_of(before).push(e1@));
                    Some(LevelTerm::Var(at))
                }
            },
        }
    }
}

fn level_eq_in(st: &State, ctx: &Binders, l: &Expr, r: &Expr, fuel: u64) -> (eq: bool)
    ensures
        eq == level_eq(st.types(), ctx@, l@, r@, fuel as nat),
    decreases fuel, 1nat, 0nat,
{
    if !is_level_expr(l) && !is_level_expr(r) {
        return false;
    }
    let mut atoms: Vec<Expr> = Vec::new();
    assert(terms_of(atoms@) =~= Seq::<Term>::empty());
    let lt = match level_term_in(st, ctx, &mut atoms, l, fuel) {
        Some(t) => t,
        None => {
            return false;
        },
    };
    let rt = match level_term_in(st, ctx, &mut atoms, r, fuel) {
        Some(t) => t,
        None => {
            return false;
        },
    };
    levels_equal(&lt, &rt, atoms.len() as u8)
}

fn uip_in(st: &State, ctx: &Binders, l: &Expr, r: &Expr, fuel: u64) -> (eq: bool)
    ensures
        eq == uip(st.types(), ctx@, l@, r@, fuel as nat),
    decreases fuel, 1nat, 0nat,
{
    if is_const(l, LEVEL_Z) || is_app_of_const(l, LEVEL_S) || is_const(r, LEVEL_Z)
        || is_app_of_const(r, LEVEL_S) {
        return false;
    }
    let lt = match type_in(st, ctx, l, fuel) {
        Ok(t) => t,
        Err(_) => {
            return false;
        },
    };
    let ls = match type_in(st, ctx, &lt, fuel) {
        Ok(t) => t,
        Err(_) => {
            return false;
        },
    };
    match whnf_or_self(&ls, fuel).into_univ() {
        Ok(Univ::Sort(level)) => {
            let zero = Expr::FVar(LEVEL_Z);
            assert(zero@ == Term::FVar(LEVEL_Z));
            if !def_eq_in(st, ctx, &level, &zero, fuel) {
                return false;
            }
            match type_in(st, ctx, r, fuel) {
                Ok(rt) => def_eq_in(st, ctx, &lt, &rt, fuel),
                Err(_) => false,
            }
        },
        _ => false,
    }
}

fn arity_level_in(st: &State, ctx: &Binders, a: &Expr, d: u16, fuel: u64) -> (r: Result<
    Expr,
    KernelError,
>)
    ensures
        result_view(r) == arity_level(st.types(), ctx@, a@, d as nat, fuel as nat),
    decreases fuel, 2nat, pi_domains(a@).len(),
{
    match a.as_level() {
        Some(e) => match e.lower(0, d) {
            Some(e1) => Ok(e1),
            None => Err(KernelError::LevelDependsOnIndices),
        },
        None => match a {
            Expr::Pi(l, rest) => {
                match sort_in(st, ctx, l, fuel) {
                    Ok(_) => {},
                    Err(x) => {
                        return Err(x);
                    },
                }
                if d == u16::MAX {
                    return Err(KernelError::IndexOverflow);
                }
                let inner = Binders::Bound(&**l, ctx);
                arity_level_in(st, &inner, rest, d + 1, fuel)
            },
            _ => Err(KernelError::InvalidArity),
        },
    }
}

fn singleton_in(
    st: &State,
    ctx: &Binders,
    res: &Expr,
    c: &Expr,
    d: u16,
    max_d: u16,
    level: Expr,
    fuel: u64,
) -> (r: Result<Expr, KernelError>)
    ensures
        result_view(r) == singleton(
            st.types(),
            ctx@,
            res@,
            c@,
            d as nat,
            max_d as nat,
            level@,
            fuel as nat,
        ),
    decreases fuel, 2nat, pi_domains(c@).len(),
{
    match c {
        Expr::Pi(l, c2) => {
            let lu = match sort_in(st, ctx, l, fuel) {
                Ok(u) => u,
                Err(x) => {
                    return Err(x);
                },
            };
            if d >= max_d {
                return Err(KernelError::InvalidConstructor);
            }
            let inner = Binders::Bound(&**l, ctx);
            if is_referenced(res, max_d - 1 - d) {
                singleton_in(st, &inner, res, c2, d + 1, max_d, level, fuel)
            } else {
                match lu {
                    Univ::Sort(ll) => match ll.lower(0, d) {
                        Some(ll1) => {
                            let max = Expr::FVar(LEVEL_MAX);
                            assert(max@ == Term::FVar(LEVEL_MAX));
                            let more = Expr::app(Expr::app(max, ll1), level);
                            singleton_in(st, &inner, res, c2, d + 1, max_d, more, fuel)
                        },
                        None => Err(KernelError::SingletonElimination),
                    },
                    Univ::SortOmega(_) => Err(KernelError::SingletonElimination),
                }
            }
        },
        _ => Ok(level),
    }
}

fn check_constr_in(
    st: &State,
    ctx: &Binders,
    i: &Ind,
    c: &Expr,
    base_level: &Expr,
    kind: LevelKind,
    fuel: u64,
) -> (r: Result<(), KernelError>)
    ensures
        r == check_constr(st.types(), ctx@, i@, c@, base_level@, kind, fuel as nat),
    decreases fuel, 3nat, 0nat,
{
    let univ = match type_in(st, ctx, c, fuel) {
        Ok(t) => t,
        Err(x) => {
            return Err(x);
        },
    };
    let base_univ = Expr::sort(base_level.clone());
    if !def_eq_in(st, ctx, &base_univ, &univ, fuel) {
        return Err(KernelError::ConstructorSort);
    }
    let max_d = match check_constr_shape(c, 0) {
        Ok(n) => n,
        Err(x) => {
            return Err(x);
        },
    };
    let settled = match kind {
        LevelKind::AlwaysZero => i.sm,
        LevelKind::AlwaysNonzero => true,
        LevelKind::SometimesZero => false,
    };
    if settled {
        return Ok(());
    }
    assert(i@.constrs.len() == i.constrs.len());
    if i.constrs.len() > 1 {
        return Err(KernelError::MultipleConstructors);
    }
    let level = match level_of_sort(&univ, fuel) {
        Some(v) => v,
        None => {
            return Err(KernelError::NotASort);
        },
    };
    let mut domains: Vec<&Expr> = Vec::new();
    let res = pi_parts(c, &mut domains);
    let level2 = match singleton_in(st, ctx, res, c, 0, max_d, level, fuel) {
        Ok(v) => v,
        Err(x) => {
            return Err(x);
        },
    };
    if def_eq_in(st, ctx, base_level, &level2, fuel) {
        Ok(())
    } else {
        Err(KernelError::SingletonElimination)
    }
}

/// Whether the inductive family `i` is accepted under the binders `ctx`.
#[verifier::loop_isolation(false)]
pub fn check_ind(st: &State, ctx: &Binders, i: &Ind, fuel: u64) -> (r: Result<(), KernelError>)
    ensures
        r == ind_check(st.types(), ctx@, i@, fuel as nat),
    decreases fuel, 5nat, 0nat,
{
    let base_level = match arity_level_in(st, ctx, &i.arity, 0, fuel) {
        Ok(v) => v,
        Err(x) => {
            return Err(x);
        },
    };
    let kind = match kind_of_level(&base_level, fuel) {
        Ok(v) => v,
        Err(x) => {
            return Err(x);
        },
    };
    let small_ok = match kind {
        LevelKind::AlwaysZero => true,
        _ => !i.sm,
    };
    if !small_ok {
        return Err(KernelError::SmallElimination);
    }
    let level1 = match base_level.raise(0, 1) {
        Some(v) => v,
        None => {
            return Err(KernelError::IndexOverflow);
        },
    };
    assert(i@.constrs.len() == i.constrs.len());
    if i.constrs.len() > 0xffff {
        return Err(KernelError::TooManyConstructors);
    }
    match sort_in(st, ctx, &i.arity, fuel) {
        Ok(_) => {},
        Err(x) => {
            return Err(x);
        },
    }
    let inner = Binders::Bound(&*i.arity, ctx);
    let mut k: usize = 0;
    while k < i.constrs.len()
        invariant
            k <= i.constrs.len(),
            check_constrs(st.types(), inner@, i@, level1@, kind, 0, fuel as nat) == check_constrs(
                st.types(),
                inner@,
                i@,
                level1@,
                kind,
                k as nat,
                fuel as nat,
            ),
        decreases i.constrs.len() - k,
    {
        assert(i@.constrs[k as int] == i.constrs[k as int]@);
        match check_constr_in(st, &inner, i, &i.constrs[k], &level1, kind, fuel) {
            Ok(()) => {},
            Err(x) => {
                return Err(x);
            },
        }
        k += 1;
    }
    Ok(())
}

} // verus!
