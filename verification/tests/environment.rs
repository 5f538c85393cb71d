use kernel::env::State;
use kernel::env::DEFAULT_FUEL;
use kernel::error::KernelError;
use kernel::expr::Expr;

fn state() -> State {
    State::new(["Level", "Z", "S", "max", "imax", "Sort"])
}

fn level() -> Expr {
    Expr::FVar(0)
}

fn assert_same(found: &Expr, expected: &Expr) {
    assert!(found.same(expected), "found {:?}, expected {:?}", found, expected);
}

#[test]
fn new_environment_has_the_six_constants() {
    let st = state();
    assert_eq!(st.len(), 6);
    assert_eq!(st.name_of(0), "Level");
    assert_eq!(st.name_of(1), "Z");
    assert_eq!(st.name_of(2), "S");
    assert_eq!(st.name_of(3), "max");
    assert_eq!(st.name_of(4), "imax");
    assert_eq!(st.name_of(5), "Sort");
    assert_eq!(st.fuel(), DEFAULT_FUEL);
}

#[test]
fn names_are_as_given() {
    let st = State::new(["a", "b", "c", "d", "e", "f"]);
    assert_eq!(st.name_of(3), "d");
    assert_eq!(st.name_of(5), "f");
}

#[test]
fn built_in_constants_have_their_types() {
    let mut st = state();
    let sort_one = Expr::sort(Expr::app(Expr::FVar(2), Expr::FVar(1)));
    assert_same(&st.type_of(&Expr::FVar(0)).unwrap(), &sort_one);
    assert_same(&st.type_of(&Expr::FVar(1)).unwrap(), &level());
    assert_same(&st.type_of(&Expr::FVar(2)).unwrap(), &Expr::pi(level(), level()));
    let binary = Expr::pi(level(), Expr::pi(level(), level()));
    assert_same(&st.type_of(&Expr::FVar(3)).unwrap(), &binary);
    assert_same(&st.type_of(&Expr::FVar(4)).unwrap(), &binary);
    let sort_type = Expr::pi(level(), Expr::sort(Expr::app(Expr::FVar(2), Expr::BVar(0))));
    assert_same(&st.type_of(&Expr::FVar(5)).unwrap(), &sort_type);
}

#[test]
fn types_of_the_built_in_constants_have_types() {
    let mut st = state();
    for k in 0..6 {
        let t = st.type_of(&Expr::FVar(k)).unwrap();
        assert!(st.type_of(&t).is_ok());
    }
}

#[test]
fn add_gives_the_next_index() {
    let mut st = state();
    assert_eq!(st.add("u", level()), 6);
    assert_eq!(st.add("v", level()), 7);
    assert_eq!(st.len(), 8);
    assert_eq!(st.name_of(6), "u");
    assert_eq!(st.name_of(7), "v");
    assert_same(&st.type_of(&Expr::FVar(7)).unwrap(), &level());
    assert_same(st.lookup(6).unwrap(), &level());
    assert!(st.lookup(8).is_none());
}

#[test]
fn truncate_forgets_the_later_constants() {
    let mut st = state();
    st.add("u", level());
    st.add("v", level());
    assert_eq!(st.truncate(7), Ok(()));
    assert_eq!(st.len(), 7);
    assert_eq!(st.name_of(6), "u");
    assert_eq!(st.type_of(&Expr::FVar(7)).err(), Some(KernelError::UnboundVariable));
}

#[test]
fn truncate_after_add_restores_the_environment() {
    let mut st = state();
    st.add("u", level());
    let before = st.len();
    st.add("v", Expr::FVar(6));
    assert_eq!(st.truncate(before as u32), Ok(()));
    assert_eq!(st.len(), before);
    assert_eq!(st.name_of(6), "u");
    assert_same(st.lookup(6).unwrap(), &level());
    assert_eq!(st.fuel(), DEFAULT_FUEL);
}

#[test]
fn truncate_to_the_built_in_constants_is_accepted() {
    let mut st = state();
    st.add("u", level());
    assert_eq!(st.truncate(6), Ok(()));
    assert_eq!(st.len(), 6);
}

#[test]
fn truncate_below_the_built_in_constants_is_refused() {
    let mut st = state();
    st.add("u", level());
    assert_eq!(st.truncate(5), Err(KernelError::TruncatePastConstants));
    assert_eq!(st.truncate(0), Err(KernelError::TruncatePastConstants));
    assert_eq!(st.len(), 7);
}

#[test]
fn truncate_beyond_the_end_changes_nothing() {
    let mut st = state();
    st.add("u", level());
    assert_eq!(st.truncate(100), Ok(()));
    assert_eq!(st.len(), 7);
}

#[test]
fn type_of_leaves_the_environment_alone() {
    let mut st = state();
    st.add("u", level());
    let _ = st.type_of(&Expr::app(Expr::FVar(2), Expr::FVar(6)));
    assert_eq!(st.len(), 7);
    assert_eq!(st.name_of(6), "u");
}

#[test]
fn fuel_can_be_set() {
    let mut st = state();
    st.set_fuel(3);
    assert_eq!(st.fuel(), 3);
    assert_eq!(st.len(), 6);
}

#[test]
fn messages_name_the_rule() {
    assert_eq!(KernelError::TruncatePastConstants.message(), "cannot truncate past constants");
    assert_eq!(KernelError::NotStrictlyPositive.message(), "not strictly positive");
    assert_eq!(KernelError::TypeMismatch.message(), "type mismatch");
    assert_eq!(KernelError::LevelOverflow.message(), "universe level overflow");
}
