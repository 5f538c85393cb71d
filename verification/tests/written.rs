use kernel::env::State;
use kernel::expr::Expr;
use kernel::expr::Ind;

fn state() -> State {
    State::new(["Level", "Z", "S", "max", "imax", "Sort"])
}

fn written(e: &Expr) -> String {
    state().display(e).into_iter().collect()
}

fn level() -> Expr {
    Expr::FVar(0)
}

fn one() -> Expr {
    Expr::app(Expr::FVar(2), Expr::FVar(1))
}

fn naturals() -> Ind {
    Ind {
        arity: Box::new(Expr::sort(one())),
        constrs: vec![Expr::BVar(0), Expr::pi(Expr::BVar(0), Expr::BVar(1))],
        sm: false,
    }
}

#[test]
fn constants_are_written_by_name() {
    assert_eq!(written(&Expr::FVar(0)), "Level");
    assert_eq!(written(&Expr::FVar(4)), "imax");
    let named = State::new(["a", "b", "c", "d", "e", "f"]);
    let text: String = named.display(&Expr::FVar(2)).into_iter().collect();
    assert_eq!(text, "c");
}

#[test]
fn constant_without_a_name_is_written_by_index() {
    assert_eq!(written(&Expr::FVar(99)), "#99");
    assert_eq!(written(&Expr::FVar(6)), "#6");
}

#[test]
fn variables_are_written_by_index() {
    assert_eq!(written(&Expr::BVar(0)), "_0");
    assert_eq!(written(&Expr::BVar(7)), "_7");
    assert_eq!(written(&Expr::BVar(65535)), "_65535");
    assert_eq!(written(&Expr::BVar(1020)), "_1020");
}

#[test]
fn top_universes_are_written_with_their_number() {
    assert_eq!(written(&Expr::SortOmega(0)), "Sortω");
    assert_eq!(written(&Expr::SortOmega(3)), "Sortω3");
    assert_eq!(written(&Expr::SortOmega(120)), "Sortω120");
}

#[test]
fn binders_are_written_with_their_domain() {
    assert_eq!(written(&Expr::lam(level(), Expr::BVar(0))), "λ _: Level, _0");
    assert_eq!(written(&Expr::pi(level(), level())), "∀ _: Level, Level");
    let nested = Expr::pi(Expr::pi(level(), level()), level());
    assert_eq!(written(&nested), "∀ _: (∀ _: Level, Level), Level");
    let applied = Expr::lam(Expr::sort(Expr::BVar(0)), Expr::BVar(0));
    assert_eq!(written(&applied), "λ _: (Sort _0), _0");
}

#[test]
fn applications_are_written_with_brackets_where_needed() {
    assert_eq!(written(&one()), "S Z");
    assert_eq!(written(&Expr::app(Expr::FVar(2), one())), "S (S Z)");
    assert_eq!(written(&Expr::app(Expr::app(Expr::FVar(3), one()), Expr::FVar(1))), "max (S Z) Z");
    let redex = Expr::app(Expr::lam(level(), Expr::BVar(0)), Expr::FVar(1));
    assert_eq!(written(&redex), "(λ _: Level, _0) Z");
}

#[test]
fn families_are_written_with_their_constructors() {
    assert_eq!(written(&Expr::Ind(naturals())), "Ind(_: Sort (S Z), _0, ∀ _: _0, _1)");
    assert_eq!(
        written(&Expr::IndConstr(1, naturals())),
        "Ind:constr1(_: Sort (S Z), _0, ∀ _: _0, _1)"
    );
    assert_eq!(
        written(&Expr::IndConstr(0, naturals())),
        "Ind:constr(_: Sort (S Z), _0, ∀ _: _0, _1)"
    );
    let truth = Ind {
        arity: Box::new(Expr::sort(Expr::FVar(1))),
        constrs: vec![Expr::BVar(0)],
        sm: true,
    };
    assert_eq!(written(&Expr::IndElim(truth)), "Ind:elim(small, _: Sort Z, _0)");
    let empty = Ind { arity: Box::new(Expr::sort(Expr::FVar(1))), constrs: vec![], sm: false };
    assert_eq!(written(&Expr::Ind(empty)), "Ind(_: Sort Z)");
}
