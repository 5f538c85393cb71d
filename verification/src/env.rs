//! The environment: the named constants that expressions refer to, each
//! with its type, and the budget that bounds every check.

use vstd::prelude::*;
use crate::check::Binders;
use crate::check::def_eq_in;
use crate::check::type_in;
use crate::error::KernelError;
use crate::expr::Expr;
use crate::judgment::def_eq;
use crate::judgment::type_of;
use crate::reduce::result_view;
use crate::reduce::weak_head;
use crate::reduce::whnf;
use crate::term::BUILTINS;
use crate::term::LEVEL;
use crate::term::LEVEL_S;
use crate::term::LEVEL_Z;
use crate::term::Term;
use crate::term::app;
use crate::term::pi;
use crate::term::sort;

verus! {

/// How deeply the steps of a check may nest in a new environment.
pub const DEFAULT_FUEL: u64 = 4096;

/// The types of the six constants that every environment starts with:
/// `Level`, `Z`, `S`, `max`, `imax` and `Sort`.
pub open spec fn builtin_types() -> Seq<Term> {
    let level = Term::FVar(LEVEL);
    seq![
        sort(app(Term::FVar(LEVEL_S), Term::FVar(LEVEL_Z))),
        level,
        pi(level, level),
        pi(level, pi(level, level)),
        pi(level, pi(level, level)),
        pi(level, sort(app(Term::FVar(LEVEL_S), Term::BVar(0)))),
    ]
}

/// An environment: constants in the order in which they were added, the
/// first six being the built-in ones.
pub struct State {
    defs: Vec<(String, Expr)>,
    fuel: u64,
}

fn constant(index: u32) -> (r: Expr)
    ensures
        r@ == Term::FVar(index),
{
    Expr::FVar(index)
}

fn variable(index: u16) -> (r: Expr)
    ensures
        r@ == Term::BVar(index),
{
    Expr::BVar(index)
}

impl State {
    /// Whether the environment starts with the six built-in constants,
    /// each with its type.
    pub open spec fn wf(&self) -> bool {
        &&& self.types().len() >= BUILTINS
        &&& self.types().len() == self.names().len()
        &&& self.types().take(BUILTINS as int) == builtin_types()
    }

    /// The types of the constants, by index.
    pub closed spec fn types(&self) -> Seq<Term> {
        Seq::new(self.defs.len() as nat, |k: int| self.defs[k].1@)
    }

    /// The names of the constants, by index.
    pub closed spec fn names(&self) -> Seq<Seq<char>> {
        Seq::new(self.defs.len() as nat, |k: int| self.defs[k].0@)
    }

    /// How deeply the steps of a check may nest.
    pub closed spec fn budget(&self) -> nat {
        self.fuel as nat
    }

    /// The environment of the six built-in constants, under the names given.
    pub fn new(builtin_names: [&str; 6]) -> (st: State)
        ensures
            st.types() == builtin_types(),
            st.names() == Seq::new(6, |k: int| builtin_names[k]@),
            st.budget() == DEFAULT_FUEL,
            st.wf(),
    {
        let mut defs: Vec<(String, Expr)> = Vec::new();
        defs.push(
            (builtin_names[0].to_owned(), Expr::sort(Expr::app(constant(LEVEL_S), constant(LEVEL_Z)))),
        );
        defs.push((builtin_names[1].to_owned(), constant(LEVEL)));
        defs.push((builtin_names[2].to_owned(), Expr::pi(constant(LEVEL), constant(LEVEL))));
        defs.push(
            (
                builtin_names[3].to_owned(),
                Expr::pi(constant(LEVEL), Expr::pi(constant(LEVEL), constant(LEVEL))),
            ),
        );
        defs.push(
            (
                builtin_names[4].to_owned(),
                Expr::pi(constant(LEVEL), Expr::pi(constant(LEVEL), constant(LEVEL))),
            ),
        );
        defs.push(
            (
                builtin_names[5].to_owned(),
                Expr::pi(constant(LEVEL), Expr::sort(Expr::app(constant(LEVEL_S), variable(0)))),
            ),
        );
        let st = State { defs, fuel: DEFAULT_FUEL };
        assert(st.types() =~= builtin_types());
        assert(st.names() =~= Seq::new(6, |k: int| builtin_names[k]@));
        assert(st.types().take(BUILTINS as int) =~= builtin_types());
        st
    }

    /// Adds a constant and gives its index. Nothing is checked of the type:
    /// that is the caller's to have done.
    pub fn add(&mut self, name: &str, ty: Expr) -> (index: u32)
        requires
            old(self).types().len() <= u32::MAX,
        ensures
            final(self).types() == old(self).types().push(ty@),
            final(self).names() == old(self).names().push(name@),
            final(self).budget() == old(self).budget(),
            index == old(self).types().len(),
            old(self).wf() ==> final(self).wf(),
    {
        let index = self.defs.len() as u32;
        self.defs.push((name.to_owned(), ty));
        assert(self.types() =~= old(self).types().push(ty@));
        assert(self.names() =~= old(self).names().push(name@));
        assert(old(self).wf() ==> self.types().take(BUILTINS as int) =~= old(self).types().take(
            BUILTINS as int,
        ));
        index
    }

    /// Cuts the environment down to its first `len` constants. Fewer than
    /// the built-in ones is an error, and then nothing changes; more than
    /// there are changes nothing either.
    pub fn truncate(&mut self, len: u32) -> (r: Result<(), KernelError>)
        ensures
            final(self).budget() == old(self).budget(),
            len < BUILTINS ==> r == Err::<(), KernelError>(KernelError::TruncatePastConstants),
            len < BUILTINS ==> final(self).types() == old(self).types(),
            len < BUILTINS ==> final(self).names() == old(self).names(),
            len >= BUILTINS ==> r is Ok,
            BUILTINS <= len <= old(self).types().len() ==> final(self).types() == old(self).types().take(
                len as int,
            ),
            BUILTINS <= len <= old(self).types().len() ==> final(self).names() == old(self).names().take(
                len as int,
            ),
            len > old(self).types().len() ==> final(self).types() == old(self).types(),
            len > old(self).types().len() ==> final(self).names() == old(self).names(),
            old(self).wf() ==> final(self).wf(),
    {
        if len <= 5 {
            return Err(KernelError::TruncatePastConstants);
        }
        self.defs.truncate(len as usize);
        proof {
            if len <= old(self).defs.len() {
                assert(self.types() =~= old(self).types().take(len as int));
                assert(self.names() =~= old(self).names().take(len as int));
                assert(self.types().take(BUILTINS as int) =~= old(self).types().take(
                    BUILTINS as int,
                ));
            } else {
                assert(self.types() =~= old(self).types());
                assert(self.names() =~= old(self).names());
            }
        }
        Ok(())
    }

    /// The type of `value`, or the rule that `value` breaks. The
    /// environment is left as it is.
    pub fn type_of(&mut self, value: &Expr) -> (r: Result<Expr, KernelError>)
        ensures
            result_view(r) == type_of(old(self).types(), Seq::empty(), value@, old(self).budget()),
            final(self).types() == old(self).types(),
            final(self).names() == old(self).names(),
            final(self).budget() == old(self).budget(),
    {
        let ctx = Binders::Empty;
        type_in(self, &ctx, value, self.fuel)
    }

    /// The name under which the constant `fvar` was added.
    pub fn name_of(&self, fvar: u32) -> (name: &str)
        requires
            fvar < self.names().len(),
        ensures
            name@ == self.names()[fvar as int],
    {
        self.defs[fvar as usize].0.as_str()
    }

    /// The number of constants.
    pub fn len(&self) -> (n: usize)
        ensures
            n == self.types().len(),
            n == self.names().len(),
    {
        self.defs.len()
    }

    /// The type of the constant `fvar`, where there is one.
    pub fn lookup(&self, fvar: u32) -> (r: Option<&Expr>)
        ensures
            match r {
                Some(t) => fvar < self.types().len() && t@ == self.types()[fvar as int],
                None => fvar >= self.types().len(),
            },
    {
        if (fvar as usize) < self.defs.len() {
            Some(&self.defs[fvar as usize].1)
        } else {
            None
        }
    }

    /// How deeply the steps of a check may nest.
    pub fn fuel(&self) -> (fuel: u64)
        ensures
            fuel == self.budget(),
    {
        self.fuel
    }

    /// Sets how deeply the steps of a check may nest.
    pub fn set_fuel(&mut self, fuel: u64)
        ensures
            final(self).budget() == fuel,
            final(self).types() == old(self).types(),
            final(self).names() == old(self).names(),
    {
        self.fuel = fuel;
    }

    /// Whether `lhs` and `rhs`, closed expressions over the constants, are
    /// definitionally equal.
    pub fn def_eq(&self, lhs: &Expr, rhs: &Expr) -> (r: bool)
        ensures
            r == def_eq(self.types(), Seq::empty(), lhs@, rhs@, self.budget()),
    {
        let ctx = Binders::Empty;
        def_eq_in(self, &ctx, lhs, rhs, self.fuel)
    }

    /// The weak-head normal form of `e`.
    pub fn whnf(&self, e: &Expr) -> (r: Result<Expr, KernelError>)
        ensures
            result_view(r) == weak_head(e@, self.budget()),
    {
        whnf(e.clone(), self.fuel)
    }
}

} // verus!
