//! What universe levels mean: the number that a level comes to once each
//! atom is given a number. The comparison of levels case by case is shown
//! to agree with this meaning.

use vstd::prelude::*;
use crate::level::LevelTerm;
use crate::level::Link;
use crate::level::MAX_ATOMS;
use crate::level::Sum;
use crate::level::apply;
use crate::level::atoms_below;
use crate::level::bump;
use crate::level::bump_all;
use crate::level::extend;
use crate::level::extend_all;
use crate::level::fold;
use crate::level::greatest;
use crate::level::lemma_normal_form_atoms;
use crate::level::levels_agree;
use crate::level::max16;
use crate::level::normal_form;
use crate::level::normal_form_imax;
use crate::level::scan;
use crate::level::state_bit;
use crate::level::sums_below;
use crate::level::term_size;

verus! {

/// The greater of two numbers.
pub open spec fn greater(a: nat, b: nat) -> nat {
    if a >= b {
        a
    } else {
        b
    }
}

/// Zero where `b` is zero, and the greater of the two elsewhere.
pub open spec fn imax(a: nat, b: nat) -> nat {
    if b == 0 {
        0
    } else {
        greater(a, b)
    }
}

/// The number that the level `t` comes to where `v` gives the atoms their
/// numbers.
pub open spec fn eval(t: LevelTerm, v: spec_fn(u8) -> nat) -> nat
    decreases t,
{
    match t {
        LevelTerm::Var(a) => v(a),
        LevelTerm::Zero => 0,
        LevelTerm::Succ(a) => eval(*a, v) + 1,
        LevelTerm::Max(a, b) => greater(eval(*a, v), eval(*b, v)),
        LevelTerm::IMax(a, b) => imax(eval(*a, v), eval(*b, v)),
    }
}

/// The number that a constant comes to after the first `upto` links of a
/// chain have acted on it.
pub open spec fn eval_chain(base: nat, chain: Seq<Link>, upto: nat, v: spec_fn(u8) -> nat) -> nat
    decreases upto,
{
    if upto == 0 || upto > chain.len() {
        base
    } else {
        imax(eval_chain(base, chain, (upto - 1) as nat, v), v(chain[upto - 1].atom))
            + chain[upto - 1].add as nat
    }
}

/// The number that a summand comes to.
pub open spec fn eval_sum(s: Sum, v: spec_fn(u8) -> nat) -> nat {
    eval_chain(s.base as nat, s.chain, s.chain.len(), v)
}

/// The greatest of the numbers that the summands from number `from` on
/// come to.
pub open spec fn eval_from(n: Seq<Sum>, from: nat, v: spec_fn(u8) -> nat) -> nat
    decreases n.len() - from,
{
    if from >= n.len() {
        0
    } else {
        greater(eval_sum(n[from as int], v), eval_from(n, from + 1, v))
    }
}

/// Whether the case numbered `s` is the one that `v` falls under: whether
/// its bits say of each atom below `vars` whether `v` makes it nonzero.
pub open spec fn consistent(v: spec_fn(u8) -> nat, vars: u8, s: u32) -> bool {
    forall|a: u8| a < vars ==> (#[trigger] state_bit(s, a) <==> v(a) > 0)
}

/// Whether only atoms that are nonzero in the case `s` have an offset.
pub open spec fn marked(off: Seq<u16>, s: u32) -> bool {
    forall|a: u8| a < off.len() ==> (#[trigger] off[a as int] > 0 ==> state_bit(s, a))
}

/// How far the offsets of the first `upto` atoms lift the level: for each
/// atom with an offset, the atom's number and the offset, less one.
pub open spec fn above(off: Seq<u16>, upto: nat, v: spec_fn(u8) -> nat) -> nat
    decreases upto,
{
    if upto == 0 || upto > off.len() {
        0
    } else {
        greater(
            above(off, (upto - 1) as nat, v),
            if off[upto - 1] > 0 {
                (v((upto - 1) as u8) + off[upto - 1] - 1) as nat
            } else {
                0
            },
        )
    }
}

/// The number that the outcome of a case stands for.
pub open spec fn case_value(k: u16, off: Seq<u16>, v: spec_fn(u8) -> nat) -> nat {
    greater(k as nat, above(off, off.len(), v))
}

proof fn lemma_eval_chain_prefix(
    base: nat,
    c1: Seq<Link>,
    c2: Seq<Link>,
    upto: nat,
    v: spec_fn(u8) -> nat,
)
    requires
        upto <= c1.len(),
        upto <= c2.len(),
        forall|j: int| 0 <= j < upto ==> c1[j] == c2[j],
    ensures
        eval_chain(base, c1, upto, v) == eval_chain(base, c2, upto, v),
    decreases upto,
{
    if upto > 0 {
        lemma_eval_chain_prefix(base, c1, c2, (upto - 1) as nat, v);
    }
}

proof fn lemma_bump(s: Sum, v: spec_fn(u8) -> nat)
    requires
        bump(s) is Some,
    ensures
        eval_sum(bump(s).unwrap(), v) == eval_sum(s, v) + 1,
{
    if s.chain.len() > 0 {
        let b = bump(s).unwrap();
        lemma_eval_chain_prefix(s.base as nat, b.chain, s.chain, (s.chain.len() - 1) as nat, v);
    }
}

proof fn lemma_extend(s: Sum, a: u8, v: spec_fn(u8) -> nat)
    ensures
        eval_sum(extend(s, a), v) == imax(eval_sum(s, v), v(a)),
{
    let e = extend(s, a);
    lemma_eval_chain_prefix(s.base as nat, e.chain, s.chain, s.chain.len(), v);
}

proof fn lemma_eval_from_shift(x: Seq<Sum>, y: Seq<Sum>, j: nat, v: spec_fn(u8) -> nat)
    requires
        j <= y.len(),
    ensures
        eval_from(x + y, x.len() + j, v) == eval_from(y, j, v),
    decreases y.len() - j,
{
    if j < y.len() {
        lemma_eval_from_shift(x, y, j + 1, v);
        assert((x + y)[(x.len() + j) as int] == y[j as int]);
    }
}

proof fn lemma_eval_from_concat(x: Seq<Sum>, y: Seq<Sum>, from: nat, v: spec_fn(u8) -> nat)
    requires
        from <= x.len(),
    ensures
        eval_from(x + y, from, v) == greater(eval_from(x, from, v), eval_from(y, 0, v)),
    decreases x.len() - from,
{
    if from < x.len() {
        lemma_eval_from_concat(x, y, from + 1, v);
        assert((x + y)[from as int] == x[from as int]);
    } else {
        lemma_eval_from_shift(x, y, 0, v);
    }
}

proof fn lemma_eval_from_bumped(n: Seq<Sum>, m: Seq<Sum>, from: nat, v: spec_fn(u8) -> nat)
    requires
        m.len() == n.len(),
        from < n.len(),
        forall|k: int| 0 <= k < n.len() ==> eval_sum(#[trigger] m[k], v) == eval_sum(n[k], v) + 1,
    ensures
        eval_from(m, from, v) == eval_from(n, from, v) + 1,
    decreases n.len() - from,
{
    if from + 1 < n.len() {
        lemma_eval_from_bumped(n, m, from + 1, v);
    } else {
        assert(eval_from(m, from + 1, v) == 0);
        assert(eval_from(n, from + 1, v) == 0);
    }
}

proof fn lemma_eval_from_extended(
    n: Seq<Sum>,
    m: Seq<Sum>,
    a: u8,
    from: nat,
    v: spec_fn(u8) -> nat,
)
    requires
        m.len() == n.len(),
        from < n.len(),
        forall|k: int|
            0 <= k < n.len() ==> eval_sum(#[trigger] m[k], v) == imax(eval_sum(n[k], v), v(a)),
    ensures
        eval_from(m, from, v) == imax(eval_from(n, from, v), v(a)),
    decreases n.len() - from,
{
    if from + 1 < n.len() {
        lemma_eval_from_extended(n, m, a, from + 1, v);
    } else {
        assert(eval_from(m, from + 1, v) == 0);
        assert(eval_from(n, from + 1, v) == 0);
    }
}

/// The normal form of a level comes to the same number as the level,
/// whatever the atoms are.
pub proof fn lemma_normal_form_sound(t: LevelTerm, v: spec_fn(u8) -> nat)
    requires
        normal_form(t) is Some,
    ensures
        normal_form(t).unwrap().len() >= 1,
        eval_from(normal_form(t).unwrap(), 0, v) == eval(t, v),
    decreases term_size(t), 0nat,
{
    let n = normal_form(t).unwrap();
    match t {
        LevelTerm::Var(a) => {
            assert(eval_from(n, 1, v) == 0);
            reveal_with_fuel(eval_chain, 2);
        },
        LevelTerm::Zero => {
            assert(eval_from(n, 1, v) == 0);
        },
        LevelTerm::Succ(a) => {
            lemma_normal_form_sound(*a, v);
            let inner = normal_form(*a).unwrap();
            assert(n == bump_all(inner).unwrap());
            assert forall|k: int| 0 <= k < inner.len() implies eval_sum(#[trigger] n[k], v)
                == eval_sum(inner[k], v) + 1 by {
                assert(bump(inner[k]) is Some);
                lemma_bump(inner[k], v);
            }
            lemma_eval_from_bumped(inner, n, 0, v);
        },
        LevelTerm::Max(a, b) => {
            lemma_normal_form_sound(*a, v);
            lemma_normal_form_sound(*b, v);
            lemma_eval_from_concat(normal_form(*a).unwrap(), normal_form(*b).unwrap(), 0, v);
        },
        LevelTerm::IMax(a, b) => {
            lemma_normal_form_imax_sound(*a, *b, v);
        },
    }
}

/// The normal form of `IMax(a, b)` comes to the same number as it.
pub proof fn lemma_normal_form_imax_sound(a: LevelTerm, b: LevelTerm, v: spec_fn(u8) -> nat)
    requires
        normal_form_imax(a, b) is Some,
    ensures
        normal_form_imax(a, b).unwrap().len() >= 1,
        eval_from(normal_form_imax(a, b).unwrap(), 0, v) == imax(eval(a, v), eval(b, v)),
    decreases term_size(a) + term_size(b), 1nat,
{
    let n = normal_form_imax(a, b).unwrap();
    match b {
        LevelTerm::Var(x) => {
            lemma_normal_form_sound(a, v);
            let inner = normal_form(a).unwrap();
            assert(n == extend_all(inner, x));
            assert forall|k: int| 0 <= k < inner.len() implies eval_sum(#[trigger] n[k], v)
                == imax(eval_sum(inner[k], v), v(x)) by {
                lemma_extend(inner[k], x, v);
            }
            lemma_eval_from_extended(inner, n, x, 0, v);
        },
        LevelTerm::Zero => {
            assert(eval_from(n, 1, v) == 0);
        },
        LevelTerm::Succ(_) => {
            lemma_normal_form_sound(a, v);
            lemma_normal_form_sound(b, v);
            lemma_eval_from_concat(normal_form(a).unwrap(), normal_form(b).unwrap(), 0, v);
        },
        LevelTerm::Max(b1, b2) => {
            lemma_normal_form_imax_sound(a, *b1, v);
            lemma_normal_form_imax_sound(a, *b2, v);
            lemma_eval_from_concat(
                normal_form_imax(a, *b1).unwrap(),
                normal_form_imax(a, *b2).unwrap(),
                0,
                v,
            );
        },
        LevelTerm::IMax(b1, b2) => {
            lemma_normal_form_imax_sound(a, *b2, v);
            lemma_normal_form_imax_sound(*b1, *b2, v);
            lemma_eval_from_concat(
                normal_form_imax(a, *b2).unwrap(),
                normal_form_imax(*b1, *b2).unwrap(),
                0,
                v,
            );
        },
    }
}

proof fn lemma_above_update(
    off: Seq<u16>,
    a: u8,
    t: u16,
    upto: nat,
    v: spec_fn(u8) -> nat,
)
    requires
        a < off.len(),
        upto <= off.len(),
        off.len() <= MAX_ATOMS,
        t >= 1,
    ensures
        above(off.update(a as int, max16(off[a as int], t)), upto, v) == if a < upto {
            greater(above(off, upto, v), (v(a) + t - 1) as nat)
        } else {
            above(off, upto, v)
        },
    decreases upto,
{
    if upto > 0 {
        lemma_above_update(off, a, t, (upto - 1) as nat, v);
        if upto - 1 == a {
            assert((upto - 1) as u8 == a);
        }
    }
}

proof fn lemma_above_zeros(off: Seq<u16>, upto: nat, v: spec_fn(u8) -> nat)
    requires
        upto <= off.len(),
        forall|j: int| 0 <= j < off.len() ==> off[j] == 0,
    ensures
        above(off, upto, v) == 0,
    decreases upto,
{
    if upto > 0 {
        lemma_above_zeros(off, (upto - 1) as nat, v);
    }
}

proof fn lemma_above_upper(off: Seq<u16>, upto: nat, v: spec_fn(u8) -> nat, bound: nat)
    requires
        upto <= off.len(),
        off.len() <= MAX_ATOMS,
        forall|a: u8| a < upto && #[trigger] off[a as int] > 0 ==> v(a) + off[a as int] - 1 <= bound,
    ensures
        above(off, upto, v) <= bound,
    decreases upto,
{
    if upto > 0 {
        lemma_above_upper(off, (upto - 1) as nat, v, bound);
        let a = (upto - 1) as u8;
        assert(off[a as int] > 0 ==> v(a) + off[a as int] - 1 <= bound);
    }
}

proof fn lemma_above_lower(off: Seq<u16>, upto: nat, v: spec_fn(u8) -> nat, a: u8)
    requires
        upto <= off.len(),
        off.len() <= MAX_ATOMS,
        a < upto,
        off[a as int] > 0,
    ensures
        above(off, upto, v) >= v(a) + off[a as int] - 1,
    decreases upto,
{
    if upto - 1 == a {
        assert((upto - 1) as u8 == a);
    } else {
        lemma_above_lower(off, (upto - 1) as nat, v, a);
    }
}

proof fn lemma_greatest_bounds(off: Seq<u16>, upto: nat, j: int)
    requires
        upto <= off.len(),
        0 <= j < upto,
    ensures
        off[j] <= greatest(off, upto),
    decreases upto,
{
    if upto - 1 != j {
        lemma_greatest_bounds(off, (upto - 1) as nat, j);
    }
}

proof fn lemma_above_dominates(off: Seq<u16>, upto: nat, v: spec_fn(u8) -> nat, vars: u8, s: u32)
    requires
        upto <= off.len(),
        off.len() == vars,
        vars <= MAX_ATOMS,
        consistent(v, vars, s),
        marked(off, s),
    ensures
        above(off, upto, v) >= greatest(off, upto),
    decreases upto,
{
    if upto > 0 {
        lemma_above_dominates(off, (upto - 1) as nat, v, vars, s);
        let a = (upto - 1) as u8;
        if off[a as int] > 0 {
            assert(state_bit(s, a));
            assert(v(a) > 0);
        }
    }
}

proof fn lemma_scan_sound(
    chain: Seq<Link>,
    upto: nat,
    base: u16,
    total: u16,
    s: u32,
    off: Seq<u16>,
    v: spec_fn(u8) -> nat,
    vars: u8,
)
    requires
        off.len() == vars,
        vars <= MAX_ATOMS,
        consistent(v, vars, s),
        marked(off, s),
        upto <= chain.len(),
        forall|j: int| 0 <= j < chain.len() ==> (#[trigger] chain[j]).atom < vars,
        total >= 1,
        scan(chain, upto, base, total, s, off) is Some,
    ensures
        scan(chain, upto, base, total, s, off).unwrap().1.len() == vars,
        marked(scan(chain, upto, base, total, s, off).unwrap().1, s),
        greater(
            (eval_chain(base as nat, chain, upto, v) + total - 1) as nat,
            above(off, vars as nat, v),
        ) == greater(
            scan(chain, upto, base, total, s, off).unwrap().0 as nat,
            above(scan(chain, upto, base, total, s, off).unwrap().1, vars as nat, v),
        ),
    decreases upto,
{
    if upto > 0 {
        let link = chain[upto - 1];
        let t = (total + link.add) as u16;
        assert(link.atom < vars);
        if !state_bit(s, link.atom) {
            assert(v(link.atom) == 0);
        } else {
            assert(v(link.atom) > 0);
            let off2 = off.update(link.atom as int, max16(off[link.atom as int], t));
            assert(marked(off2, s)) by {
                assert forall|a: u8| a < off2.len() && #[trigger] off2[a as int] > 0 implies state_bit(
                    s,
                    a,
                ) by {
                    if a != link.atom {
                        assert(off[a as int] > 0);
                    }
                }
            }
            lemma_scan_sound(chain, (upto - 1) as nat, base, t, s, off2, v, vars);
            lemma_above_update(off, link.atom, t, vars as nat, v);
        }
    }
}

proof fn lemma_fold_sound(
    n: Seq<Sum>,
    from: nat,
    acc: u16,
    s: u32,
    off: Seq<u16>,
    v: spec_fn(u8) -> nat,
    vars: u8,
)
    requires
        off.len() == vars,
        vars <= MAX_ATOMS,
        consistent(v, vars, s),
        marked(off, s),
        sums_below(n, vars as nat),
        from <= n.len(),
        fold(n, from, acc, s, off) is Some,
    ensures
        fold(n, from, acc, s, off).unwrap().1.len() == vars,
        marked(fold(n, from, acc, s, off).unwrap().1, s),
        greater(greater(acc as nat, eval_from(n, from, v)), above(off, vars as nat, v)) == greater(
            fold(n, from, acc, s, off).unwrap().0 as nat,
            above(fold(n, from, acc, s, off).unwrap().1, vars as nat, v),
        ),
    decreases n.len() - from,
{
    if from < n.len() {
        let sum = n[from as int];
        assert forall|j: int| 0 <= j < sum.chain.len() implies (#[trigger] sum.chain[j]).atom
            < vars by {
            assert(n[from as int].chain[j].atom < vars);
        }
        lemma_scan_sound(sum.chain, sum.chain.len(), sum.base, 1, s, off, v, vars);
        let step = scan(sum.chain, sum.chain.len(), sum.base, 1, s, off).unwrap();
        lemma_fold_sound(n, from + 1, max16(acc, step.0), s, step.1, v, vars);
    }
}

/// The outcome of a case stands for the number that the normal form comes
/// to, for every numbering of the atoms that falls under the case.
pub proof fn lemma_apply_sound(n: Seq<Sum>, vars: u8, s: u32, v: spec_fn(u8) -> nat)
    requires
        vars <= MAX_ATOMS,
        sums_below(n, vars as nat),
        consistent(v, vars, s),
        apply(n, vars, s) is Some,
    ensures
        apply(n, vars, s).unwrap().1.len() == vars,
        marked(apply(n, vars, s).unwrap().1, s),
        apply(n, vars, s).unwrap().0 >= greatest(apply(n, vars, s).unwrap().1, vars as nat),
        eval_from(n, 0, v) == case_value(apply(n, vars, s).unwrap().0, apply(n, vars, s).unwrap().1, v),
{
    let zeros = Seq::new(vars as nat, |k: int| 0u16);
    lemma_above_zeros(zeros, vars as nat, v);
    lemma_fold_sound(n, 0, 0, s, zeros, v, vars);
    let folded = fold(n, 0, 0, s, zeros).unwrap();
    lemma_above_dominates(folded.1, vars as nat, v, vars, s);
}

proof fn lemma_bit_facts(s0: u32, n: u32, a: u32)
    requires
        n < 16,
        a < n,
        s0 < (1u32 << n),
    ensures
        (s0 | (1u32 << n)) < (1u32 << ((n + 1) as u32)),
        s0 < (1u32 << ((n + 1) as u32)),
        ((s0 | (1u32 << n)) & (1u32 << a) != 0) == (s0 & (1u32 << a) != 0),
{
    assert((s0 | (1u32 << n)) < (1u32 << ((n + 1) as u32))) by (bit_vector)
        requires
            n < 16,
            s0 < (1u32 << n),
    ;
    assert(s0 < (1u32 << ((n + 1) as u32))) by (bit_vector)
        requires
            n < 16,
            s0 < (1u32 << n),
    ;
    assert(((s0 | (1u32 << n)) & (1u32 << a) != 0) == (s0 & (1u32 << a) != 0)) by (bit_vector)
        requires
            n < 16,
            a < n,
    ;
}

proof fn lemma_top_bit(s0: u32, n: u32)
    requires
        n < 16,
        s0 < (1u32 << n),
    ensures
        (s0 | (1u32 << n)) < (1u32 << ((n + 1) as u32)),
        s0 < (1u32 << ((n + 1) as u32)),
        (s0 | (1u32 << n)) & (1u32 << n) != 0,
        s0 & (1u32 << n) == 0,
{
    assert((s0 | (1u32 << n)) < (1u32 << ((n + 1) as u32))) by (bit_vector)
        requires
            n < 16,
            s0 < (1u32 << n),
    ;
    assert(s0 < (1u32 << ((n + 1) as u32))) by (bit_vector)
        requires
            n < 16,
            s0 < (1u32 << n),
    ;
    assert((s0 | (1u32 << n)) & (1u32 << n) != 0) by (bit_vector)
        requires
            n < 16,
    ;
    assert(s0 & (1u32 << n) == 0) by (bit_vector)
        requires
            n < 16,
            s0 < (1u32 << n),
    ;
}

/// Every numbering of the atoms falls under one of the cases.
pub proof fn lemma_case_exists(v: spec_fn(u8) -> nat, vars: u8) -> (s: u32)
    requires
        vars <= MAX_ATOMS,
    ensures
        s < (1u32 << (vars as u32)),
        consistent(v, vars, s),
    decreases vars,
{
    if vars == 0 {
        assert(0u32 < (1u32 << 0u32)) by (bit_vector);
        0u32
    } else {
        let n = (vars - 1) as u8;
        let s0 = lemma_case_exists(v, n);
        lemma_top_bit(s0, n as u32);
        let s = if v(n) > 0 {
            s0 | (1u32 << (n as u32))
        } else {
            s0
        };
        assert forall|a: u8| a < vars implies (#[trigger] state_bit(s, a) <==> v(a) > 0) by {
            if a < n {
                lemma_bit_facts(s0, n as u32, a as u32);
                assert(state_bit(s0, a) <==> v(a) > 0);
            }
        }
        s
    }
}

/// Two levels that the comparison finds equal come to the same number,
/// whatever numbers the atoms are given.
pub proof fn lemma_levels_agree_sound(l: LevelTerm, r: LevelTerm, vars: u8, v: spec_fn(u8) -> nat)
    requires
        levels_agree(l, r, vars),
    ensures
        eval(l, v) == eval(r, v),
{
    let s = lemma_case_exists(v, vars);
    let ln = normal_form(l).unwrap();
    let rn = normal_form(r).unwrap();
    assert(apply(ln, vars, s) is Some);
    lemma_normal_form_sound(l, v);
    lemma_normal_form_sound(r, v);
    lemma_normal_form_atoms(l, vars as nat);
    lemma_normal_form_atoms(r, vars as nat);
    lemma_apply_sound(ln, vars, s, v);
    lemma_apply_sound(rn, vars, s, v);
}

/// The numbering that gives one to the atoms that are nonzero in the case
/// `s`, and zero to the others.
pub open spec fn ones(s: u32) -> spec_fn(u8) -> nat {
    |a: u8|
        if state_bit(s, a) {
            1nat
        } else {
            0nat
        }
}

/// The numbering `ones(s)` but for the atom `at`, which gets `high`.
pub open spec fn spike(s: u32, at: u8, high: nat) -> spec_fn(u8) -> nat {
    |a: u8|
        if a == at {
            high
        } else if state_bit(s, a) {
            1nat
        } else {
            0nat
        }
}

proof fn lemma_value_at_ones(k: u16, off: Seq<u16>, s: u32, vars: u8)
    requires
        off.len() == vars,
        vars <= MAX_ATOMS,
        marked(off, s),
        k >= greatest(off, vars as nat),
    ensures
        case_value(k, off, ones(s)) == k,
{
    let v = ones(s);
    assert forall|a: u8| a < vars && #[trigger] off[a as int] > 0 implies v(a) + off[a as int] - 1
        <= k by {
        lemma_greatest_bounds(off, vars as nat, a as int);
    }
    lemma_above_upper(off, vars as nat, v, k as nat);
}

proof fn lemma_value_at_spike(k: u16, off: Seq<u16>, s: u32, vars: u8, at: u8)
    requires
        off.len() == vars,
        vars <= MAX_ATOMS,
        at < vars,
        marked(off, s),
        k >= greatest(off, vars as nat),
    ensures
        case_value(k, off, spike(s, at, k as nat + 1)) == if off[at as int] > 0 {
            k + off[at as int]
        } else {
            k as int
        },
{
    let v = spike(s, at, k as nat + 1);
    let bound: nat = if off[at as int] > 0 {
        (k + off[at as int]) as nat
    } else {
        k as nat
    };
    assert forall|a: u8| a < vars && #[trigger] off[a as int] > 0 implies v(a) + off[a as int] - 1
        <= bound by {
        lemma_greatest_bounds(off, vars as nat, a as int);
    }
    lemma_above_upper(off, vars as nat, v, bound);
    if off[at as int] > 0 {
        lemma_above_lower(off, vars as nat, v, at);
    }
}

proof fn lemma_case_determined(l: LevelTerm, r: LevelTerm, vars: u8, s: u32)
    requires
        vars <= MAX_ATOMS,
        atoms_below(l, vars as nat),
        atoms_below(r, vars as nat),
        normal_form(l) is Some,
        normal_form(r) is Some,
        apply(normal_form(l).unwrap(), vars, s) is Some,
        apply(normal_form(r).unwrap(), vars, s) is Some,
        forall|v: spec_fn(u8) -> nat| #[trigger] eval(l, v) == eval(r, v),
    ensures
        apply(normal_form(l).unwrap(), vars, s) == apply(normal_form(r).unwrap(), vars, s),
{
    let ln = normal_form(l).unwrap();
    let rn = normal_form(r).unwrap();
    let (lk, loff) = apply(ln, vars, s).unwrap();
    let (rk, roff) = apply(rn, vars, s).unwrap();
    lemma_normal_form_atoms(l, vars as nat);
    lemma_normal_form_atoms(r, vars as nat);
    let v1 = ones(s);
    assert(consistent(v1, vars, s));
    lemma_normal_form_sound(l, v1);
    lemma_normal_form_sound(r, v1);
    lemma_apply_sound(ln, vars, s, v1);
    lemma_apply_sound(rn, vars, s, v1);
    lemma_value_at_ones(lk, loff, s, vars);
    lemma_value_at_ones(rk, roff, s, vars);
    assert(eval(l, v1) == eval(r, v1));
    assert(lk == rk);
    assert forall|j: int| 0 <= j < vars implies loff[j] == roff[j] by {
        let at = j as u8;
        if state_bit(s, at) {
            let v2 = spike(s, at, lk as nat + 1);
            assert(consistent(v2, vars, s));
            lemma_normal_form_sound(l, v2);
            lemma_normal_form_sound(r, v2);
            lemma_apply_sound(ln, vars, s, v2);
            lemma_apply_sound(rn, vars, s, v2);
            lemma_value_at_spike(lk, loff, s, vars, at);
            lemma_value_at_spike(rk, roff, s, vars, at);
            assert(eval(l, v2) == eval(r, v2));
        } else {
            assert(loff[at as int] > 0 ==> state_bit(s, at));
            assert(roff[at as int] > 0 ==> state_bit(s, at));
        }
    }
    assert(loff =~= roff);
}

/// Two levels that come to the same number whatever numbers the atoms are
/// given are found equal by the comparison, provided that there are at
/// most 16 atoms and that no sum in the comparison passes 16 bits.
pub proof fn lemma_levels_agree_complete(l: LevelTerm, r: LevelTerm, vars: u8)
    requires
        vars <= MAX_ATOMS,
        atoms_below(l, vars as nat),
        atoms_below(r, vars as nat),
        normal_form(l) is Some,
        normal_form(r) is Some,
        forall|s: u32|
            s < (1u32 << (vars as u32)) ==> (#[trigger] apply(normal_form(l).unwrap(), vars, s))
                is Some && apply(normal_form(r).unwrap(), vars, s) is Some,
        forall|v: spec_fn(u8) -> nat| #[trigger] eval(l, v) == eval(r, v),
    ensures
        levels_agree(l, r, vars),
{
    assert forall|s: u32| s < (1u32 << (vars as u32)) implies {
        &&& (#[trigger] apply(normal_form(l).unwrap(), vars, s)) is Some
        &&& apply(normal_form(l).unwrap(), vars, s) == apply(normal_form(r).unwrap(), vars, s)
    } by {
        lemma_case_determined(l, r, vars, s);
    }
}

} // verus!
