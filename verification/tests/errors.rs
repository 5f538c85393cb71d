use kernel::check::Univ;
use kernel::env::State;
use kernel::error::KernelError;
use kernel::expr::Expr;
use kernel::expr::Ind;

fn state() -> State {
    State::new(["Level", "Z", "S", "max", "imax", "Sort"])
}

fn level() -> Expr {
    Expr::FVar(0)
}

fn zero_level() -> Expr {
    Expr::FVar(1)
}

fn succ_level(l: Expr) -> Expr {
    Expr::app(Expr::FVar(2), l)
}

fn sort_zero() -> Expr {
    Expr::sort(zero_level())
}

fn sort_one() -> Expr {
    Expr::sort(succ_level(zero_level()))
}

fn family(arity: Expr, constrs: Vec<Expr>, sm: bool) -> Expr {
    Expr::Ind(Ind { arity: Box::new(arity), constrs, sm })
}

fn nat_decl() -> Ind {
    Ind {
        arity: Box::new(sort_one()),
        constrs: vec![Expr::BVar(0), Expr::pi(Expr::BVar(0), Expr::BVar(1))],
        sm: false,
    }
}

fn assert_same(found: &Expr, expected: &Expr) {
    assert!(found.same(expected), "found {:?}, expected {:?}", found, expected);
}

fn error_of(e: &Expr) -> Option<KernelError> {
    state().type_of(e).err()
}

#[test]
fn argument_of_the_wrong_type_is_a_mismatch() {
    let e = Expr::app(Expr::FVar(2), level());
    assert_eq!(error_of(&e), Some(KernelError::TypeMismatch));
}

#[test]
fn application_of_a_constant_that_is_no_function() {
    let e = Expr::app(zero_level(), zero_level());
    assert_eq!(error_of(&e), Some(KernelError::NotAFunction));
}

#[test]
fn binder_over_what_is_no_type() {
    let e = Expr::lam(zero_level(), Expr::BVar(0));
    assert_eq!(error_of(&e), Some(KernelError::NotASort));
    let p = Expr::pi(level(), Expr::BVar(0));
    assert_eq!(error_of(&p), Some(KernelError::NotASort));
}

#[test]
fn variable_without_a_binder() {
    assert_eq!(error_of(&Expr::BVar(0)), Some(KernelError::UnboundVariable));
    assert_eq!(error_of(&Expr::lam(level(), Expr::BVar(1))), Some(KernelError::UnboundVariable));
    assert_eq!(error_of(&Expr::FVar(6)), Some(KernelError::UnboundVariable));
}

#[test]
fn arity_that_ends_in_no_sort() {
    assert_eq!(error_of(&family(zero_level(), vec![], false)), Some(KernelError::InvalidArity));
    let under_binder = Expr::pi(level(), level());
    assert_eq!(error_of(&family(under_binder, vec![], false)), Some(KernelError::InvalidArity));
}

#[test]
fn arity_whose_level_is_an_index() {
    let arity = Expr::pi(level(), Expr::sort(Expr::BVar(0)));
    assert_eq!(
        error_of(&family(arity, vec![], false)),
        Some(KernelError::LevelDependsOnIndices)
    );
}

#[test]
fn small_elimination_of_what_is_no_proposition() {
    assert_eq!(
        error_of(&family(sort_one(), vec![Expr::BVar(0)], true)),
        Some(KernelError::SmallElimination)
    );
}

#[test]
fn constructor_index_past_the_constructors() {
    assert_eq!(
        error_of(&Expr::IndConstr(2, nat_decl())),
        Some(KernelError::NoSuchConstructor)
    );
    assert!(state().type_of(&Expr::IndConstr(1, nat_decl())).is_ok());
}

#[test]
fn constructor_in_another_sort() {
    let c = Expr::pi(sort_one(), Expr::BVar(1));
    assert_eq!(error_of(&family(sort_one(), vec![c], false)), Some(KernelError::ConstructorSort));
}

#[test]
fn two_constructors_of_a_proposition_with_large_elimination() {
    let decl = family(sort_zero(), vec![Expr::BVar(0), Expr::BVar(0)], false);
    assert_eq!(error_of(&decl), Some(KernelError::MultipleConstructors));
    let small = family(sort_zero(), vec![Expr::BVar(0), Expr::BVar(0)], true);
    assert_same(&state().type_of(&small).unwrap(), &sort_zero());
}

#[test]
fn lone_constructor_of_a_proposition_with_large_elimination() {
    let decl = family(sort_zero(), vec![Expr::BVar(0)], false);
    assert_same(&state().type_of(&decl).unwrap(), &sort_zero());
}

#[test]
fn family_in_a_universe_that_is_never_zero_may_hide_arguments() {
    let mut st = state();
    let u = Expr::FVar(st.add("u", level()));
    let a = Expr::FVar(st.add("A", sort_one()));
    let arity = Expr::sort(Expr::app(Expr::app(Expr::FVar(3), u), succ_level(zero_level())));
    let hidden = Expr::Ind(Ind {
        arity: Box::new(arity.clone()),
        constrs: vec![Expr::pi(a, Expr::BVar(1))],
        sm: false,
    });
    assert_same(&st.type_of(&hidden).unwrap(), &arity);
}

#[test]
fn hidden_argument_forbids_singleton_elimination() {
    let mut st = state();
    let u = Expr::FVar(st.add("u", level()));
    let a = Expr::FVar(st.add("A", sort_one()));
    let hidden = Expr::Ind(Ind {
        arity: Box::new(Expr::sort(u)),
        constrs: vec![Expr::pi(a, Expr::BVar(1))],
        sm: false,
    });
    assert_eq!(st.type_of(&hidden).err(), Some(KernelError::SingletonElimination));
}

#[test]
fn hidden_proof_allows_singleton_elimination() {
    let mut st = state();
    let u = Expr::FVar(st.add("u", level()));
    let p = Expr::FVar(st.add("P", sort_zero()));
    let arity = Expr::sort(u);
    let decl = Expr::Ind(Ind {
        arity: Box::new(arity.clone()),
        constrs: vec![Expr::pi(p, Expr::BVar(1))],
        sm: false,
    });
    assert_same(&st.type_of(&decl).unwrap(), &arity);
}

#[test]
fn two_constructors_in_a_universe_that_may_be_zero() {
    let mut st = state();
    let u = Expr::FVar(st.add("u", level()));
    let decl = Expr::Ind(Ind {
        arity: Box::new(Expr::sort(u)),
        constrs: vec![Expr::BVar(0), Expr::BVar(0)],
        sm: false,
    });
    assert_eq!(st.type_of(&decl).err(), Some(KernelError::MultipleConstructors));
}

#[test]
fn constructor_that_ends_in_something_else() {
    let decl = family(sort_one(), vec![level()], false);
    assert_eq!(error_of(&decl), Some(KernelError::InvalidConstructor));
    let wrong_end = family(sort_one(), vec![Expr::pi(Expr::BVar(0), level())], false);
    assert_eq!(error_of(&wrong_end), Some(KernelError::InvalidConstructor));
}

#[test]
fn later_type_that_depends_on_a_recursive_argument() {
    let depends = Expr::app(Expr::lam(Expr::BVar(1), level()), Expr::BVar(0));
    let c = Expr::pi(Expr::BVar(0), Expr::pi(depends, Expr::BVar(2)));
    assert_eq!(
        error_of(&family(sort_one(), vec![c], false)),
        Some(KernelError::DependentRecursiveParameter)
    );
}

#[test]
fn family_under_a_function_argument_is_accepted() {
    let branching = Expr::pi(Expr::pi(level(), Expr::BVar(1)), Expr::BVar(1));
    let decl = family(sort_one(), vec![Expr::BVar(0), branching], false);
    assert_same(&state().type_of(&decl).unwrap(), &sort_one());
}

#[test]
fn family_as_argument_of_its_own_argument_is_rejected() {
    let c = Expr::pi(Expr::pi(Expr::pi(Expr::BVar(0), level()), Expr::BVar(1)), Expr::BVar(1));
    assert_eq!(
        error_of(&family(sort_one(), vec![c], false)),
        Some(KernelError::NotStrictlyPositive)
    );
}

#[test]
fn index_that_leaves_sixteen_bits() {
    let st = state();
    let e = Expr::app(
        Expr::lam(level(), Expr::lam(level(), Expr::BVar(1))),
        Expr::BVar(65535),
    );
    assert_eq!(st.whnf(&e).err(), Some(KernelError::IndexOverflow));
}

#[test]
fn no_fuel_at_all() {
    let mut st = state();
    st.set_fuel(0);
    assert_eq!(st.type_of(&level()).err(), Some(KernelError::OutOfFuel));
    assert_eq!(st.whnf(&level()).err(), Some(KernelError::OutOfFuel));
    assert!(st.def_eq(&level(), &level()));
    assert!(!st.def_eq(&level(), &zero_level()));
}

#[test]
fn endless_reduction_runs_out_of_fuel() {
    let mut st = state();
    st.set_fuel(64);
    let half = Expr::lam(level(), Expr::app(Expr::BVar(0), Expr::BVar(0)));
    let omega = Expr::app(half.clone(), half);
    assert_eq!(st.whnf(&omega).err(), Some(KernelError::OutOfFuel));
    assert!(st.def_eq(&omega, &omega));
    assert_eq!(st.type_of(&omega).err(), Some(KernelError::NotAFunction));
}

#[test]
fn deep_expression_needs_fuel() {
    let mut st = state();
    let mut e = zero_level();
    for _ in 0..40 {
        e = succ_level(e);
    }
    st.set_fuel(30);
    assert_eq!(st.type_of(&e).err(), Some(KernelError::OutOfFuel));
    st.set_fuel(60);
    assert_same(&st.type_of(&e).unwrap(), &level());
}

#[test]
fn beta_reduction_substitutes_the_argument() {
    let st = state();
    let e = Expr::app(Expr::lam(level(), succ_level(Expr::BVar(0))), zero_level());
    assert_same(&st.whnf(&e).unwrap(), &succ_level(zero_level()));
}

#[test]
fn weak_head_normal_form_leaves_arguments_alone() {
    let st = state();
    let redex = Expr::app(Expr::lam(level(), Expr::BVar(0)), zero_level());
    let e = Expr::app(Expr::FVar(2), redex.clone());
    assert_same(&st.whnf(&e).unwrap(), &e);
    let under = Expr::lam(level(), redex);
    assert_same(&st.whnf(&under).unwrap(), &under);
}

#[test]
fn normalizing_twice_is_normalizing_once() {
    let st = state();
    let id = Expr::lam(level(), Expr::BVar(0));
    let e = Expr::app(Expr::app(Expr::lam(Expr::pi(level(), level()), Expr::BVar(0)), id), zero_level());
    let once = st.whnf(&e).unwrap();
    let twice = st.whnf(&once).unwrap();
    assert_same(&twice, &once);
    assert_same(&once, &zero_level());
    assert!(st.def_eq(&twice, &once));
}

#[test]
fn definitional_equality_sees_through_reduction() {
    let st = state();
    let e = Expr::app(Expr::lam(level(), succ_level(Expr::BVar(0))), zero_level());
    assert!(st.def_eq(&e, &succ_level(zero_level())));
    assert!(st.def_eq(&succ_level(zero_level()), &e));
    assert!(!st.def_eq(&e, &zero_level()));
}

#[test]
fn definitional_equality_is_reflexive_on_samples() {
    let st = state();
    let samples = vec![
        level(),
        Expr::BVar(3),
        Expr::SortOmega(2),
        Expr::lam(level(), Expr::BVar(0)),
        Expr::pi(level(), Expr::sort(Expr::BVar(0))),
        Expr::app(Expr::FVar(3), Expr::FVar(9)),
        Expr::Ind(nat_decl()),
        Expr::IndConstr(7, nat_decl()),
        Expr::IndElim(nat_decl()),
    ];
    for e in &samples {
        assert!(st.def_eq(e, e), "{:?}", e);
    }
}

#[test]
fn eta_is_not_applied() {
    let mut st = state();
    let f = Expr::FVar(st.add("f", Expr::pi(level(), level())));
    let expanded = Expr::lam(level(), Expr::app(f.clone(), Expr::BVar(0)));
    assert!(!st.def_eq(&f, &expanded));
}

#[test]
fn function_types_land_in_imax() {
    let mut st = state();
    let t = st.type_of(&Expr::pi(level(), level())).unwrap();
    let one = succ_level(zero_level());
    let expected = Expr::sort(Expr::app(Expr::app(Expr::FVar(4), one.clone()), one));
    assert_same(&t, &expected);
}

#[test]
fn function_type_into_a_universe_of_its_argument() {
    let mut st = state();
    let t = st.type_of(&Expr::pi(level(), Expr::sort(Expr::BVar(0)))).unwrap();
    assert_same(&t, &Expr::SortOmega(0));
    let above = st.type_of(&Expr::pi(Expr::SortOmega(3), Expr::SortOmega(1))).unwrap();
    assert_same(&above, &Expr::SortOmega(4));
    let mixed = st.type_of(&Expr::pi(level(), Expr::SortOmega(5))).unwrap();
    assert_same(&mixed, &Expr::SortOmega(6));
}

#[test]
fn universe_of_an_expression() {
    match sort_one().into_univ() {
        Ok(Univ::Sort(l)) => assert_same(&l, &succ_level(zero_level())),
        other => panic!("{:?}", other),
    }
    match Expr::SortOmega(4).into_univ() {
        Ok(Univ::SortOmega(4)) => {}
        other => panic!("{:?}", other),
    }
    assert!(level().into_univ().is_err());
    assert_eq!(level().expect_univ().err(), Some(KernelError::NotASort));
    assert_same(&sort_zero().into_level().unwrap(), &zero_level());
    assert!(Expr::SortOmega(1).into_level().is_err());
    assert!(sort_zero().as_level().unwrap().same(&zero_level()));
    assert!(zero_level().as_level().is_none());
}

#[test]
fn level_of_a_universe() {
    let u = Univ::Sort(Box::new(zero_level()));
    assert_same(&u.into_level().unwrap(), &zero_level());
    match Univ::SortOmega(3).into_level() {
        Err(Univ::SortOmega(3)) => {}
        other => panic!("{:?}", other),
    }
}
