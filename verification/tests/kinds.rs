use kernel::check::is_level_expr;
use kernel::check::kind_of_level;
use kernel::error::KernelError;
use kernel::expr::Expr;
use kernel::judgment::LevelKind;

fn zero_level() -> Expr {
    Expr::FVar(1)
}

fn succ_level(l: Expr) -> Expr {
    Expr::app(Expr::FVar(2), l)
}

fn max_level(a: Expr, b: Expr) -> Expr {
    Expr::app(Expr::app(Expr::FVar(3), a), b)
}

fn imax_level(a: Expr, b: Expr) -> Expr {
    Expr::app(Expr::app(Expr::FVar(4), a), b)
}

fn atom() -> Expr {
    Expr::FVar(6)
}

#[test]
fn zero_is_always_zero() {
    assert_eq!(kind_of_level(&zero_level(), 10), Ok(LevelKind::AlwaysZero));
}

#[test]
fn successor_is_never_zero() {
    assert_eq!(kind_of_level(&succ_level(atom()), 10), Ok(LevelKind::AlwaysNonzero));
}

#[test]
fn atom_is_sometimes_zero() {
    assert_eq!(kind_of_level(&atom(), 10), Ok(LevelKind::SometimesZero));
    assert_eq!(kind_of_level(&Expr::BVar(0), 10), Ok(LevelKind::SometimesZero));
}

#[test]
fn max_takes_the_later_kind() {
    let never = max_level(atom(), succ_level(zero_level()));
    assert_eq!(kind_of_level(&never, 10), Ok(LevelKind::AlwaysNonzero));
    let sometimes = max_level(zero_level(), atom());
    assert_eq!(kind_of_level(&sometimes, 10), Ok(LevelKind::SometimesZero));
    let always = max_level(zero_level(), zero_level());
    assert_eq!(kind_of_level(&always, 10), Ok(LevelKind::AlwaysZero));
}

#[test]
fn imax_takes_the_kind_of_its_second_level() {
    let sometimes = imax_level(succ_level(zero_level()), atom());
    assert_eq!(kind_of_level(&sometimes, 10), Ok(LevelKind::SometimesZero));
    let always = imax_level(succ_level(zero_level()), zero_level());
    assert_eq!(kind_of_level(&always, 10), Ok(LevelKind::AlwaysZero));
    let never = imax_level(atom(), succ_level(atom()));
    assert_eq!(kind_of_level(&never, 10), Ok(LevelKind::AlwaysNonzero));
}

#[test]
fn kind_is_read_off_the_normal_form() {
    let redex = Expr::app(Expr::lam(Expr::FVar(0), succ_level(Expr::BVar(0))), atom());
    assert_eq!(kind_of_level(&redex, 10), Ok(LevelKind::AlwaysNonzero));
    assert_eq!(kind_of_level(&redex, 2), Err(KernelError::OutOfFuel));
    assert_eq!(kind_of_level(&redex, 0), Err(KernelError::OutOfFuel));
}

#[test]
fn levels_are_known_by_their_head() {
    assert!(is_level_expr(&zero_level()));
    assert!(is_level_expr(&succ_level(atom())));
    assert!(is_level_expr(&max_level(atom(), atom())));
    assert!(is_level_expr(&imax_level(atom(), atom())));
    assert!(!is_level_expr(&atom()));
    assert!(!is_level_expr(&Expr::app(Expr::FVar(3), atom())));
    assert!(!is_level_expr(&Expr::sort(zero_level())));
}
