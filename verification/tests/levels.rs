use kernel::level::apply_case;
use kernel::level::atoms_are_below;
use kernel::level::levels_equal;
use kernel::level::normalize;
use kernel::level::LevelTerm;

fn var(a: u8) -> LevelTerm {
    LevelTerm::Var(a)
}

fn zero() -> LevelTerm {
    LevelTerm::Zero
}

fn succ(a: LevelTerm) -> LevelTerm {
    LevelTerm::Succ(Box::new(a))
}

fn max(a: LevelTerm, b: LevelTerm) -> LevelTerm {
    LevelTerm::Max(Box::new(a), Box::new(b))
}

fn imax(a: LevelTerm, b: LevelTerm) -> LevelTerm {
    LevelTerm::IMax(Box::new(a), Box::new(b))
}

fn value(t: &LevelTerm, v: &[u32]) -> u32 {
    match t {
        LevelTerm::Var(a) => v[*a as usize],
        LevelTerm::Zero => 0,
        LevelTerm::Succ(a) => value(a, v) + 1,
        LevelTerm::Max(a, b) => value(a, v).max(value(b, v)),
        LevelTerm::IMax(a, b) => {
            if value(b, v) == 0 {
                0
            } else {
                value(a, v).max(value(b, v))
            }
        }
    }
}

fn equal_on_samples(l: &LevelTerm, r: &LevelTerm) -> bool {
    for x in 0..4 {
        for y in 0..4 {
            for z in 0..4 {
                if value(l, &[x, y, z]) != value(r, &[x, y, z]) {
                    return false;
                }
            }
        }
    }
    true
}

fn sample_terms() -> Vec<LevelTerm> {
    vec![
        zero(),
        var(0),
        var(1),
        succ(zero()),
        succ(var(0)),
        max(var(0), var(1)),
        max(var(1), var(0)),
        imax(var(0), var(1)),
        imax(var(1), var(0)),
        imax(var(0), zero()),
        imax(succ(var(0)), succ(var(1))),
        max(succ(var(0)), succ(var(1))),
        succ(max(var(0), var(1))),
        succ(imax(var(0), var(1))),
        imax(var(0), max(var(1), var(2))),
        max(imax(var(0), var(1)), imax(var(0), var(2))),
        imax(var(0), imax(var(1), var(2))),
        max(imax(var(0), var(2)), imax(var(1), var(2))),
        imax(succ(succ(var(2))), var(0)),
        max(var(0), succ(succ(zero()))),
        max(succ(var(0)), succ(succ(zero()))),
        imax(var(2), succ(var(2))),
        succ(var(2)),
    ]
}

#[test]
fn comparison_agrees_with_the_values_on_samples() {
    let terms = sample_terms();
    for l in &terms {
        for r in &terms {
            let found = levels_equal(l, r, 3);
            assert_eq!(found, equal_on_samples(l, r), "{:?} against {:?}", l, r);
        }
    }
}

#[test]
fn max_does_not_mind_the_order() {
    assert!(levels_equal(&max(var(0), var(1)), &max(var(1), var(0)), 2));
}

#[test]
fn imax_minds_the_order() {
    assert!(!levels_equal(&imax(var(0), var(1)), &imax(var(1), var(0)), 2));
}

#[test]
fn imax_of_anything_with_zero_is_zero() {
    assert!(levels_equal(&imax(succ(var(0)), zero()), &zero(), 1));
}

#[test]
fn imax_with_a_successor_is_max() {
    let l = imax(var(0), succ(var(1)));
    let r = max(var(0), succ(var(1)));
    assert!(levels_equal(&l, &r, 2));
}

#[test]
fn successor_goes_into_max() {
    let l = succ(max(var(0), var(1)));
    let r = max(succ(var(0)), succ(var(1)));
    assert!(levels_equal(&l, &r, 2));
}

#[test]
fn successor_does_not_go_into_imax() {
    let l = succ(imax(var(0), var(1)));
    let r = imax(succ(var(0)), succ(var(1)));
    assert!(!levels_equal(&l, &r, 2));
}

#[test]
fn atoms_differ() {
    assert!(!levels_equal(&var(0), &var(1), 2));
    assert!(levels_equal(&var(1), &var(1), 2));
    assert!(!levels_equal(&var(0), &succ(var(0)), 1));
    assert!(!levels_equal(&var(0), &zero(), 1));
}

#[test]
fn atom_out_of_range_is_never_equal() {
    assert!(!levels_equal(&var(3), &var(3), 3));
    assert!(levels_equal(&var(3), &var(3), 4));
    assert!(!atoms_are_below(&max(var(0), var(3)), 3));
    assert!(atoms_are_below(&max(var(0), var(3)), 4));
}

#[test]
fn more_than_sixteen_atoms_are_never_equal() {
    assert!(!levels_equal(&zero(), &zero(), 17));
    assert!(levels_equal(&zero(), &zero(), 16));
}

fn max_of_all(count: u8, reversed: bool) -> LevelTerm {
    let mut t = if reversed { var(count - 1) } else { var(0) };
    for k in 1..count {
        let a = if reversed { count - 1 - k } else { k };
        t = max(var(a), t);
    }
    t
}

#[test]
fn sixteen_atoms_are_compared_in_every_case() {
    assert!(levels_equal(&max_of_all(16, false), &max_of_all(16, true), 16));
    assert!(!levels_equal(&max_of_all(16, false), &max_of_all(15, false), 16));
}

#[test]
fn normal_form_of_an_atom() {
    let n = normalize(&var(4)).unwrap();
    assert_eq!(n.len(), 1);
    assert_eq!(n[0].base, 0);
    assert_eq!(n[0].chain.len(), 1);
    assert_eq!(n[0].chain[0].atom, 4);
    assert_eq!(n[0].chain[0].add, 0);
}

#[test]
fn normal_form_of_a_successor_adds_to_the_last_link() {
    let n = normalize(&succ(succ(imax(succ(zero()), var(2))))).unwrap();
    assert_eq!(n.len(), 1);
    assert_eq!(n[0].base, 1);
    assert_eq!(n[0].chain.len(), 1);
    assert_eq!(n[0].chain[0].atom, 2);
    assert_eq!(n[0].chain[0].add, 2);
}

#[test]
fn normal_form_of_max_has_both_sides() {
    let n = normalize(&max(succ(zero()), imax(var(0), max(var(1), zero())))).unwrap();
    assert_eq!(n.len(), 3);
    assert_eq!(n[0].base, 1);
    assert_eq!(n[0].chain.len(), 0);
    assert_eq!(n[1].chain.len(), 2);
    assert_eq!(n[1].chain[0].atom, 0);
    assert_eq!(n[1].chain[1].atom, 1);
    assert_eq!(n[2].base, 0);
    assert_eq!(n[2].chain.len(), 0);
}

#[test]
fn case_of_a_nonzero_atom_records_its_offset() {
    let n = normalize(&succ(succ(var(1)))).unwrap();
    let (k, offsets) = apply_case(&n, 2, 0b10).unwrap();
    assert_eq!(k, 3);
    assert_eq!(offsets, vec![0, 3]);
}

#[test]
fn case_of_a_zero_atom_is_a_constant() {
    let n = normalize(&succ(succ(var(1)))).unwrap();
    let (k, offsets) = apply_case(&n, 2, 0b01).unwrap();
    assert_eq!(k, 2);
    assert_eq!(offsets, vec![0, 0]);
}

#[test]
fn case_of_imax_stops_at_the_zero_atom() {
    let n = normalize(&succ(imax(succ(succ(var(0))), var(1)))).unwrap();
    let (k, offsets) = apply_case(&n, 2, 0b01).unwrap();
    assert_eq!(k, 1);
    assert_eq!(offsets, vec![0, 0]);
    let (k, offsets) = apply_case(&n, 2, 0b11).unwrap();
    assert_eq!(k, 4);
    assert_eq!(offsets, vec![4, 2]);
    let (k, offsets) = apply_case(&n, 2, 0b10).unwrap();
    assert_eq!(k, 3);
    assert_eq!(offsets, vec![0, 2]);
}
