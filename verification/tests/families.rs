use kernel::env::State;
use kernel::expr::Expr;
use kernel::expr::Ind;

fn state() -> State {
    State::new(["Level", "Z", "S", "max", "imax", "Sort"])
}

fn level() -> Expr {
    Expr::FVar(0)
}

fn zero_level() -> Expr {
    Expr::FVar(1)
}

fn sort_one() -> Expr {
    Expr::sort(Expr::app(Expr::FVar(2), zero_level()))
}

fn apply(f: Expr, args: Vec<Expr>) -> Expr {
    let mut e = f;
    for a in args {
        e = Expr::app(e, a);
    }
    e
}

fn naturals() -> Ind {
    Ind {
        arity: Box::new(sort_one()),
        constrs: vec![Expr::BVar(0), Expr::pi(Expr::BVar(0), Expr::BVar(1))],
        sm: false,
    }
}

fn nat_type() -> Expr {
    Expr::Ind(naturals())
}

fn nat_zero() -> Expr {
    Expr::IndConstr(0, naturals())
}

fn nat_succ(n: Expr) -> Expr {
    Expr::app(Expr::IndConstr(1, naturals()), n)
}

/// Lists with their length as index: the empty one, and one more element.
fn vectors() -> Ind {
    Ind {
        arity: Box::new(Expr::pi(nat_type(), sort_one())),
        constrs: vec![
            Expr::app(Expr::BVar(0), nat_zero()),
            Expr::pi(
                nat_type(),
                Expr::pi(
                    Expr::app(Expr::BVar(1), Expr::BVar(0)),
                    Expr::app(Expr::BVar(2), nat_succ(Expr::BVar(1))),
                ),
            ),
        ],
        sm: false,
    }
}

/// Trees that branch once for each natural number.
fn trees() -> Ind {
    Ind {
        arity: Box::new(sort_one()),
        constrs: vec![Expr::BVar(0), Expr::pi(Expr::pi(nat_type(), Expr::BVar(1)), Expr::BVar(1))],
        sm: false,
    }
}

/// Trees with two branches at each node.
fn binary_trees() -> Ind {
    Ind {
        arity: Box::new(sort_one()),
        constrs: vec![Expr::BVar(0), Expr::pi(Expr::BVar(0), Expr::pi(Expr::BVar(1), Expr::BVar(2)))],
        sm: false,
    }
}

/// The elements that are accessible under the relation `below`: those all
/// of whose predecessors are.
fn accessible(below: &Expr) -> Ind {
    let predecessors = Expr::pi(
        nat_type(),
        Expr::pi(
            apply(below.clone(), vec![Expr::BVar(0), Expr::BVar(1)]),
            Expr::app(Expr::BVar(3), Expr::BVar(1)),
        ),
    );
    Ind {
        arity: Box::new(Expr::pi(nat_type(), Expr::sort(zero_level()))),
        constrs: vec![Expr::pi(
            nat_type(),
            Expr::pi(predecessors, Expr::app(Expr::BVar(2), Expr::BVar(1))),
        )],
        sm: false,
    }
}

/// The recursor of `decl` applied to a universe, a motive and cases that
/// are new constants of the types that the recursor asks for.
fn recursor_with_cases(st: &mut State, decl: &Ind, universe: Expr) -> (Expr, Vec<Expr>) {
    let mut head = Expr::app(Expr::IndElim(decl.clone()), universe);
    let mut constants = Vec::new();
    for k in 0..decl.constrs.len() + 1 {
        let t = st.type_of(&head).unwrap();
        let domain = match st.whnf(&t).unwrap() {
            Expr::Pi(domain, _) => *domain,
            other => panic!("{:?}", other),
        };
        assert!(st.type_of(&domain).is_ok(), "argument {} of the recursor", k);
        let c = Expr::FVar(st.add("case", domain));
        constants.push(c.clone());
        head = Expr::app(head, c);
    }
    (head, constants)
}

fn assert_reduces_in_type(st: &mut State, redex: &Expr) -> Expr {
    let before = st.type_of(redex).unwrap();
    let reduct = st.whnf(redex).unwrap();
    assert!(reduct != *redex, "no reduction of {:?}", redex);
    let after = st.type_of(&reduct).unwrap();
    assert!(st.def_eq(&before, &after), "{:?} against {:?}", before, after);
    reduct
}

#[test]
fn recursor_types_have_types() {
    let mut st = state();
    let below = Expr::FVar(st.add(
        "below",
        Expr::pi(nat_type(), Expr::pi(nat_type(), Expr::sort(zero_level()))),
    ));
    for decl in [naturals(), vectors(), trees(), binary_trees(), accessible(&below)] {
        assert!(st.type_of(&Expr::Ind(decl.clone())).is_ok());
        for k in 0..decl.constrs.len() {
            let t = st.type_of(&Expr::IndConstr(k as u16, decl.clone())).unwrap();
            assert!(st.type_of(&t).is_ok());
        }
        let r = st.type_of(&Expr::IndElim(decl.clone())).unwrap();
        assert!(st.type_of(&r).is_ok(), "{:?}", st.type_of(&r));
    }
}

#[test]
fn recursor_of_vectors_has_the_induction_principle() {
    let mut st = state();
    let found = st.type_of(&Expr::IndElim(vectors())).unwrap();
    let family = Expr::Ind(vectors());
    let motive = Expr::pi(
        nat_type(),
        Expr::pi(Expr::app(family.clone(), Expr::BVar(0)), Expr::sort(Expr::BVar(2))),
    );
    let nil_case = apply(Expr::BVar(0), vec![nat_zero(), Expr::IndConstr(0, vectors())]);
    let cons_case = Expr::pi(
        nat_type(),
        Expr::pi(
            Expr::app(family.clone(), Expr::BVar(0)),
            Expr::pi(
                apply(Expr::BVar(3), vec![Expr::BVar(1), Expr::BVar(0)]),
                apply(
                    Expr::BVar(4),
                    vec![
                        nat_succ(Expr::BVar(2)),
                        apply(Expr::IndConstr(1, vectors()), vec![Expr::BVar(2), Expr::BVar(1)]),
                    ],
                ),
            ),
        ),
    );
    let conclusion = Expr::pi(
        nat_type(),
        Expr::pi(
            Expr::app(family, Expr::BVar(0)),
            apply(Expr::BVar(4), vec![Expr::BVar(1), Expr::BVar(0)]),
        ),
    );
    let expected = Expr::pi(
        level(),
        Expr::pi(motive, Expr::pi(nil_case, Expr::pi(cons_case, conclusion))),
    );
    assert_eq!(found, expected);
}

#[test]
fn recursor_of_trees_has_the_induction_principle() {
    let mut st = state();
    let found = st.type_of(&Expr::IndElim(trees())).unwrap();
    let family = Expr::Ind(trees());
    let motive = Expr::pi(family.clone(), Expr::sort(Expr::BVar(1)));
    let leaf_case = Expr::app(Expr::BVar(0), Expr::IndConstr(0, trees()));
    let node_case = Expr::pi(
        Expr::pi(nat_type(), family.clone()),
        Expr::pi(
            Expr::pi(nat_type(), Expr::app(Expr::BVar(3), Expr::app(Expr::BVar(1), Expr::BVar(0)))),
            Expr::app(Expr::BVar(3), Expr::app(Expr::IndConstr(1, trees()), Expr::BVar(1))),
        ),
    );
    let conclusion = Expr::pi(family, Expr::app(Expr::BVar(3), Expr::BVar(0)));
    let expected = Expr::pi(
        level(),
        Expr::pi(motive, Expr::pi(leaf_case, Expr::pi(node_case, conclusion))),
    );
    assert_eq!(found, expected);
}

#[test]
fn reduction_on_a_vector_keeps_the_type() {
    let mut st = state();
    let l = Expr::FVar(st.add("l", level()));
    let (rec, cases) = recursor_with_cases(&mut st, &vectors(), l);
    let nil = Expr::IndConstr(0, vectors());
    let one = apply(Expr::IndConstr(1, vectors()), vec![nat_zero(), nil.clone()]);
    let on_nil = apply(rec.clone(), vec![nat_zero(), nil.clone()]);
    assert_eq!(assert_reduces_in_type(&mut st, &on_nil), cases[1]);
    let on_one = apply(rec.clone(), vec![nat_succ(nat_zero()), one]);
    let reduct = assert_reduces_in_type(&mut st, &on_one);
    let expected = apply(cases[2].clone(), vec![nat_zero(), nil, on_nil]);
    assert_eq!(reduct, expected);
}

#[test]
fn reduction_on_a_vector_under_binders_keeps_the_indices() {
    let mut st = state();
    let l = Expr::FVar(st.add("l", level()));
    let (rec, cases) = recursor_with_cases(&mut st, &vectors(), l);
    let family = Expr::Ind(vectors());
    let cons = apply(Expr::IndConstr(1, vectors()), vec![Expr::BVar(1), Expr::BVar(0)]);
    let redex = apply(rec.clone(), vec![nat_succ(Expr::BVar(1)), cons]);
    let inner = apply(rec.clone(), vec![Expr::BVar(1), Expr::BVar(0)]);
    let reduct = apply(cases[2].clone(), vec![Expr::BVar(1), Expr::BVar(0), inner]);
    let close = |body: Expr| {
        Expr::lam(nat_type(), Expr::lam(Expr::app(family.clone(), Expr::BVar(0)), body))
    };
    let before = st.type_of(&close(redex.clone())).unwrap();
    let after = st.type_of(&close(reduct.clone())).unwrap();
    assert!(st.def_eq(&before, &after));
    assert!(st.def_eq(&close(redex.clone()), &close(reduct.clone())));
    assert_eq!(st.whnf(&redex).unwrap(), reduct);
}

#[test]
fn reduction_on_a_tree_keeps_the_type() {
    let mut st = state();
    let l = Expr::FVar(st.add("l", level()));
    let (rec, cases) = recursor_with_cases(&mut st, &trees(), l);
    let leaf = Expr::IndConstr(0, trees());
    let branches = Expr::lam(nat_type(), leaf.clone());
    let node = Expr::app(Expr::IndConstr(1, trees()), branches.clone());
    let on_leaf = Expr::app(rec.clone(), leaf);
    assert_eq!(assert_reduces_in_type(&mut st, &on_leaf), cases[1]);
    let on_node = Expr::app(rec.clone(), node);
    let reduct = assert_reduces_in_type(&mut st, &on_node);
    let calls = Expr::lam(nat_type(), Expr::app(rec, Expr::app(branches.clone(), Expr::BVar(0))));
    let expected = apply(cases[2].clone(), vec![branches, calls]);
    assert_eq!(reduct, expected);
}

#[test]
fn reduction_on_a_binary_tree_keeps_the_type() {
    let mut st = state();
    let l = Expr::FVar(st.add("l", level()));
    let (rec, cases) = recursor_with_cases(&mut st, &binary_trees(), l);
    let leaf = Expr::IndConstr(0, binary_trees());
    let left = apply(Expr::IndConstr(1, binary_trees()), vec![leaf.clone(), leaf.clone()]);
    let node = apply(Expr::IndConstr(1, binary_trees()), vec![left.clone(), leaf.clone()]);
    let reduct = assert_reduces_in_type(&mut st, &Expr::app(rec.clone(), node));
    let expected = apply(
        cases[2].clone(),
        vec![left.clone(), leaf.clone(), Expr::app(rec.clone(), left), Expr::app(rec, leaf)],
    );
    assert_eq!(reduct, expected);
}

#[test]
fn reduction_on_an_accessibility_proof_keeps_the_type() {
    let mut st = state();
    let below = Expr::FVar(st.add(
        "below",
        Expr::pi(nat_type(), Expr::pi(nat_type(), Expr::sort(zero_level()))),
    ));
    let decl = accessible(&below);
    let family = Expr::Ind(decl.clone());
    let l = Expr::FVar(st.add("l", level()));
    let (rec, cases) = recursor_with_cases(&mut st, &decl, l);
    let x = Expr::FVar(st.add("x", nat_type()));
    let predecessors = Expr::pi(
        nat_type(),
        Expr::pi(
            apply(below.clone(), vec![Expr::BVar(0), x.clone()]),
            Expr::app(family, Expr::BVar(1)),
        ),
    );
    assert!(st.type_of(&predecessors).is_ok());
    let f = Expr::FVar(st.add("f", predecessors));
    let proof = apply(Expr::IndConstr(0, decl), vec![x.clone(), f.clone()]);
    let redex = apply(rec.clone(), vec![x.clone(), proof]);
    let reduct = assert_reduces_in_type(&mut st, &redex);
    let calls = Expr::lam(
        nat_type(),
        Expr::lam(
            apply(below, vec![Expr::BVar(0), x.clone()]),
            apply(
                rec,
                vec![Expr::BVar(1), apply(f.clone(), vec![Expr::BVar(1), Expr::BVar(0)])],
            ),
        ),
    );
    assert_eq!(reduct, apply(cases[1].clone(), vec![x, f, calls]));
}

#[test]
fn reduction_under_binders_on_an_accessibility_proof_keeps_the_indices() {
    let mut st = state();
    let below = Expr::FVar(st.add(
        "below",
        Expr::pi(nat_type(), Expr::pi(nat_type(), Expr::sort(zero_level()))),
    ));
    let decl = accessible(&below);
    let family = Expr::Ind(decl.clone());
    let l = Expr::FVar(st.add("l", level()));
    let (rec, cases) = recursor_with_cases(&mut st, &decl, l);
    let predecessors = Expr::pi(
        nat_type(),
        Expr::pi(
            apply(below.clone(), vec![Expr::BVar(0), Expr::BVar(1)]),
            Expr::app(family, Expr::BVar(1)),
        ),
    );
    let close = |body: Expr| Expr::lam(nat_type(), Expr::lam(predecessors.clone(), body));
    let proof = apply(Expr::IndConstr(0, decl), vec![Expr::BVar(1), Expr::BVar(0)]);
    let redex = apply(rec.clone(), vec![Expr::BVar(1), proof]);
    let calls = Expr::lam(
        nat_type(),
        Expr::lam(
            apply(below, vec![Expr::BVar(0), Expr::BVar(2)]),
            apply(
                rec,
                vec![Expr::BVar(1), apply(Expr::BVar(2), vec![Expr::BVar(1), Expr::BVar(0)])],
            ),
        ),
    );
    let reduct = apply(cases[1].clone(), vec![Expr::BVar(1), Expr::BVar(0), calls]);
    assert_eq!(st.whnf(&redex).unwrap(), reduct);
    let before = st.type_of(&close(redex)).unwrap();
    let after = st.type_of(&close(reduct)).unwrap();
    assert!(st.def_eq(&before, &after));
}
