use kernel::env::State;
use kernel::error::KernelError;
use kernel::expr::Expr;
use kernel::expr::Ind;

fn state() -> State {
    State::new(["Level", "Z", "S", "max", "imax", "Sort"])
}

fn level() -> Expr {
    Expr::FVar(0)
}

fn zero_level() -> Expr {
    Expr::FVar(1)
}

fn succ_level(l: Expr) -> Expr {
    Expr::app(Expr::FVar(2), l)
}

fn max_level(a: Expr, b: Expr) -> Expr {
    Expr::app(Expr::app(Expr::FVar(3), a), b)
}

fn imax_level(a: Expr, b: Expr) -> Expr {
    Expr::app(Expr::app(Expr::FVar(4), a), b)
}

fn nat_decl() -> Ind {
    Ind {
        arity: Box::new(Expr::sort(succ_level(zero_level()))),
        constrs: vec![Expr::BVar(0), Expr::pi(Expr::BVar(0), Expr::BVar(1))],
        sm: false,
    }
}

fn nat_type() -> Expr {
    Expr::Ind(nat_decl())
}

fn nat_zero() -> Expr {
    Expr::IndConstr(0, nat_decl())
}

fn nat_succ() -> Expr {
    Expr::IndConstr(1, nat_decl())
}

fn true_decl() -> Ind {
    Ind { arity: Box::new(Expr::sort(zero_level())), constrs: vec![Expr::BVar(0)], sm: true }
}

fn assert_same(found: &Expr, expected: &Expr) {
    assert!(found.same(expected), "found {:?}, expected {:?}", found, expected);
}

#[test]
fn identity_function_has_the_polymorphic_type() {
    let mut st = state();
    let id = Expr::lam(
        level(),
        Expr::lam(Expr::sort(Expr::BVar(0)), Expr::lam(Expr::BVar(0), Expr::BVar(0))),
    );
    let expected = Expr::pi(
        level(),
        Expr::pi(Expr::sort(Expr::BVar(0)), Expr::pi(Expr::BVar(0), Expr::BVar(1))),
    );
    let found = st.type_of(&id).unwrap();
    assert_same(&found, &expected);
}

#[test]
fn naturals_family_has_its_arity() {
    let mut st = state();
    let found = st.type_of(&nat_type()).unwrap();
    assert_same(&found, &Expr::sort(succ_level(zero_level())));
}

#[test]
fn naturals_constructors_have_their_types() {
    let mut st = state();
    let zero_type = st.type_of(&nat_zero()).unwrap();
    assert_same(&zero_type, &nat_type());
    let succ_type = st.type_of(&nat_succ()).unwrap();
    assert_same(&succ_type, &Expr::pi(nat_type(), nat_type()));
}

#[test]
fn naturals_recursor_has_the_induction_principle() {
    let mut st = state();
    let found = st.type_of(&Expr::IndElim(nat_decl())).unwrap();
    let motive = Expr::pi(nat_type(), Expr::sort(Expr::BVar(1)));
    let base_case = Expr::app(Expr::BVar(0), nat_zero());
    let step_case = Expr::pi(
        nat_type(),
        Expr::pi(
            Expr::app(Expr::BVar(2), Expr::BVar(0)),
            Expr::app(Expr::BVar(3), Expr::app(nat_succ(), Expr::BVar(1))),
        ),
    );
    let conclusion = Expr::pi(nat_type(), Expr::app(Expr::BVar(3), Expr::BVar(0)));
    let expected = Expr::pi(
        level(),
        Expr::pi(motive, Expr::pi(base_case, Expr::pi(step_case, conclusion))),
    );
    assert_same(&found, &expected);
}

#[test]
fn recursor_type_has_a_type() {
    let mut st = state();
    let found = st.type_of(&Expr::IndElim(nat_decl())).unwrap();
    assert!(st.type_of(&found).is_ok());
}

fn recursor_on(st: &mut State, major: Expr) -> (Expr, Expr, Expr) {
    let l = Expr::FVar(st.add("l", level()));
    let p = Expr::FVar(st.add("P", Expr::pi(nat_type(), Expr::sort(l.clone()))));
    let pz = Expr::FVar(st.add("pz", Expr::app(p.clone(), nat_zero())));
    let ps = Expr::FVar(st.add(
        "ps",
        Expr::pi(
            nat_type(),
            Expr::pi(
                Expr::app(p.clone(), Expr::BVar(0)),
                Expr::app(p.clone(), Expr::app(nat_succ(), Expr::BVar(1))),
            ),
        ),
    ));
    let base = Expr::app(
        Expr::app(Expr::app(Expr::app(Expr::IndElim(nat_decl()), l), p), pz.clone()),
        ps.clone(),
    );
    (Expr::app(base.clone(), major), base, ps)
}

#[test]
fn recursor_on_successor_reduces_to_the_step_case() {
    let mut st = state();
    let one = Expr::app(nat_succ(), nat_zero());
    let (e, base, ps) = recursor_on(&mut st, one);
    let found = st.whnf(&e).unwrap();
    let expected = Expr::app(Expr::app(ps, nat_zero()), Expr::app(base, nat_zero()));
    assert_same(&found, &expected);
}

#[test]
fn recursor_on_zero_reduces_to_the_base_case() {
    let mut st = state();
    let (e, _, _) = recursor_on(&mut st, nat_zero());
    let found = st.whnf(&e).unwrap();
    assert_same(&found, &Expr::FVar(8));
}

#[test]
fn recursor_application_is_well_typed() {
    let mut st = state();
    let one = Expr::app(nat_succ(), nat_zero());
    let (e, _, _) = recursor_on(&mut st, one.clone());
    let found = st.type_of(&e).unwrap();
    assert!(st.def_eq(&found, &Expr::app(Expr::FVar(7), one)));
}

#[test]
fn recursor_application_equals_its_reduct() {
    let mut st = state();
    let one = Expr::app(nat_succ(), nat_zero());
    let (e, _, ps) = recursor_on(&mut st, one);
    let reduct = Expr::app(Expr::app(ps, nat_zero()), Expr::FVar(8));
    assert!(st.def_eq(&e, &reduct));
    assert!(st.def_eq(&reduct, &e));
}

#[test]
fn proofs_of_a_proposition_are_equal() {
    let mut st = state();
    let truth = Expr::Ind(true_decl());
    assert_same(&st.type_of(&truth).unwrap(), &Expr::sort(zero_level()));
    let a = Expr::FVar(st.add("a", truth.clone()));
    let b = Expr::FVar(st.add("b", truth.clone()));
    assert!(st.def_eq(&a, &b));
    assert!(st.def_eq(&a, &Expr::IndConstr(0, true_decl())));
}

#[test]
fn inhabitants_of_a_type_are_not_equal_for_free() {
    let mut st = state();
    let a = Expr::FVar(st.add("a", nat_type()));
    let b = Expr::FVar(st.add("b", nat_type()));
    assert!(!st.def_eq(&a, &b));
    assert!(!st.def_eq(&nat_zero(), &Expr::app(nat_succ(), nat_zero())));
}

#[test]
fn negative_occurrence_is_rejected() {
    let mut st = state();
    let bad = Ind {
        arity: Box::new(Expr::sort(succ_level(zero_level()))),
        constrs: vec![Expr::pi(Expr::pi(Expr::BVar(0), Expr::BVar(1)), Expr::BVar(1))],
        sm: false,
    };
    assert_eq!(st.type_of(&Expr::Ind(bad)).err(), Some(KernelError::NotStrictlyPositive));
}

#[test]
fn universes_differ_by_level() {
    let st = state();
    assert!(!st.def_eq(&Expr::sort(zero_level()), &Expr::sort(succ_level(zero_level()))));
}

#[test]
fn max_of_zero_and_zero_is_zero() {
    let st = state();
    let l = Expr::sort(max_level(zero_level(), zero_level()));
    assert!(st.def_eq(&l, &Expr::sort(zero_level())));
}

#[test]
fn imax_with_zero_is_zero() {
    let mut st = state();
    let l = Expr::FVar(st.add("l", level()));
    let s = Expr::sort(imax_level(l, zero_level()));
    assert!(st.def_eq(&s, &Expr::sort(zero_level())));
    let t = Expr::sort(imax_level(succ_level(succ_level(zero_level())), zero_level()));
    assert!(st.def_eq(&t, &Expr::sort(zero_level())));
}

#[test]
fn top_universe_has_no_successor() {
    let mut st = state();
    assert_eq!(st.type_of(&Expr::SortOmega(u16::MAX)).err(), Some(KernelError::LevelOverflow));
    assert_same(&st.type_of(&Expr::SortOmega(7)).unwrap(), &Expr::SortOmega(8));
}

#[test]
fn too_many_constructors_are_rejected() {
    let mut st = state();
    let mut constrs = Vec::new();
    for _ in 0..65536 {
        constrs.push(Expr::BVar(0));
    }
    let big = Ind { arity: Box::new(Expr::sort(succ_level(zero_level()))), constrs, sm: false };
    assert_eq!(st.type_of(&Expr::Ind(big)).err(), Some(KernelError::TooManyConstructors));
}

fn max_chain(atoms: &[Expr]) -> Expr {
    let mut e = atoms[0].clone();
    for a in &atoms[1..] {
        e = max_level(a.clone(), e);
    }
    e
}

fn level_atoms(st: &mut State, count: usize) -> Vec<Expr> {
    let mut atoms = Vec::new();
    for _ in 0..count {
        atoms.push(Expr::FVar(st.add("u", level())));
    }
    atoms
}

#[test]
fn seventeen_atoms_are_too_many() {
    let mut st = state();
    let atoms = level_atoms(&mut st, 17);
    let mut reversed = Vec::new();
    for a in atoms.iter().rev() {
        reversed.push(a.clone());
    }
    assert!(!st.def_eq(&max_chain(&atoms), &max_chain(&reversed)));
}

#[test]
fn five_atoms_are_compared() {
    let mut st = state();
    let atoms = level_atoms(&mut st, 5);
    let mut reversed = Vec::new();
    for a in atoms.iter().rev() {
        reversed.push(a.clone());
    }
    assert!(st.def_eq(&max_chain(&atoms), &max_chain(&reversed)));
    assert!(!st.def_eq(&max_chain(&atoms), &max_chain(&atoms[1..])));
}
