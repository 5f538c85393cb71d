use kernel::env::State;
use kernel::expr::Expr;
use kernel::expr::Ind;

fn state() -> State {
    State::new(["Level", "Z", "S", "max", "imax", "Sort"])
}

fn level() -> Expr {
    Expr::FVar(0)
}

fn zero_level() -> Expr {
    Expr::FVar(1)
}

fn succ_level(l: Expr) -> Expr {
    Expr::app(Expr::FVar(2), l)
}

fn max_level(a: Expr, b: Expr) -> Expr {
    Expr::app(Expr::app(Expr::FVar(3), a), b)
}

fn naturals() -> Ind {
    Ind {
        arity: Box::new(Expr::sort(succ_level(zero_level()))),
        constrs: vec![Expr::BVar(0), Expr::pi(Expr::BVar(0), Expr::BVar(1))],
        sm: false,
    }
}

fn body_type(st: &mut State, domain: &Expr, body: &Expr) -> Expr {
    match st.type_of(&Expr::lam(domain.clone(), body.clone())).unwrap() {
        Expr::Pi(_, t) => *t,
        other => panic!("{:?}", other),
    }
}

fn closed_samples() -> Vec<Expr> {
    vec![
        level(),
        zero_level(),
        succ_level(zero_level()),
        Expr::sort(zero_level()),
        Expr::sort(succ_level(zero_level())),
        Expr::pi(level(), level()),
        Expr::lam(level(), Expr::BVar(0)),
        Expr::lam(level(), Expr::sort(Expr::BVar(0))),
        Expr::app(Expr::lam(level(), Expr::BVar(0)), zero_level()),
        Expr::Ind(naturals()),
        Expr::IndConstr(0, naturals()),
        Expr::IndConstr(1, naturals()),
        Expr::app(Expr::IndConstr(1, naturals()), Expr::IndConstr(0, naturals())),
        Expr::IndElim(naturals()),
        Expr::SortOmega(0),
        max_level(zero_level(), succ_level(zero_level())),
    ]
}

#[test]
fn types_of_samples_have_types() {
    let mut st = state();
    for e in closed_samples() {
        let t = st.type_of(&e).unwrap();
        assert!(st.type_of(&t).is_ok(), "{:?}", e);
    }
}

#[test]
fn type_of_the_universe_below_the_top_has_no_type() {
    let mut st = state();
    let t = st.type_of(&Expr::SortOmega(u16::MAX - 1)).unwrap();
    assert_eq!(t, Expr::SortOmega(u16::MAX));
    assert!(st.type_of(&t).is_err());
}

#[test]
fn substitution_keeps_the_type() {
    let mut st = state();
    let domain = level();
    let bodies = vec![
        Expr::BVar(0),
        succ_level(Expr::BVar(0)),
        Expr::sort(Expr::BVar(0)),
        Expr::sort(max_level(Expr::BVar(0), succ_level(Expr::BVar(0)))),
        Expr::lam(Expr::sort(Expr::BVar(0)), Expr::BVar(0)),
    ];
    let arguments = vec![zero_level(), succ_level(zero_level())];
    for b in &bodies {
        let bt = body_type(&mut st, &domain, b);
        for a in &arguments {
            let found = st.type_of(&b.subst(a).unwrap()).unwrap();
            let expected = bt.subst(a).unwrap();
            assert!(st.def_eq(&found, &expected), "{:?} with {:?}", b, a);
        }
    }
}

#[test]
fn a_new_binder_keeps_the_type() {
    let mut st = state();
    let domain = level();
    let bodies = vec![
        Expr::BVar(0),
        succ_level(Expr::BVar(0)),
        Expr::sort(Expr::BVar(0)),
        Expr::lam(Expr::sort(Expr::BVar(0)), Expr::BVar(0)),
    ];
    for b in &bodies {
        let bt = body_type(&mut st, &domain, b);
        let raised = b.raise(0, 1).unwrap();
        let under = Expr::lam(domain.clone(), Expr::lam(Expr::sort(zero_level()), raised));
        let expected = Expr::pi(
            domain.clone(),
            Expr::pi(Expr::sort(zero_level()), bt.raise(0, 1).unwrap()),
        );
        assert_eq!(st.type_of(&under).unwrap(), expected, "{:?}", b);
    }
}

#[test]
fn definitional_equality_goes_both_ways_on_samples() {
    let st = state();
    let samples = closed_samples();
    for a in &samples {
        assert!(st.def_eq(a, a), "{:?}", a);
        for b in &samples {
            assert_eq!(st.def_eq(a, b), st.def_eq(b, a), "{:?} and {:?}", a, b);
        }
    }
}

#[test]
fn definitional_equality_chains_on_samples() {
    let st = state();
    let one = succ_level(zero_level());
    let a = Expr::app(Expr::lam(level(), succ_level(Expr::BVar(0))), zero_level());
    let b = max_level(one.clone(), zero_level());
    let c = max_level(zero_level(), one.clone());
    assert!(st.def_eq(&a, &one));
    assert!(st.def_eq(&one, &b));
    assert!(st.def_eq(&b, &c));
    assert!(st.def_eq(&a, &b));
    assert!(st.def_eq(&a, &c));
}

#[test]
fn equal_expressions_compare_equal() {
    let a = Expr::Ind(naturals());
    assert_eq!(a, a.clone());
    assert_eq!(naturals(), naturals());
    assert!(a != Expr::IndElim(naturals()));
    assert!(Expr::BVar(1) != Expr::BVar(2));
}

#[test]
fn proofs_are_equal_whichever_comes_first() {
    let mut st = state();
    let family = Expr::lam(level(), Expr::sort(Expr::BVar(0)));
    let f = Expr::FVar(st.add("F", Expr::pi(level(), Expr::app(family, Expr::BVar(0)))));
    let plain = Expr::app(f, zero_level());
    let wrapped = Expr::app(Expr::lam(Expr::sort(zero_level()), Expr::BVar(0)), plain.clone());
    assert_eq!(st.type_of(&wrapped).unwrap(), Expr::sort(zero_level()));
    let a = Expr::FVar(st.add("a", wrapped));
    let b = Expr::FVar(st.add("b", plain));
    assert!(st.def_eq(&a, &b));
    assert!(st.def_eq(&b, &a));
}
