//! Universe levels as algebraic terms over atoms, their normal form, and the
//! comparison of two levels by the values they take.

use vstd::prelude::*;

verus! {

/// A universe level over numbered atoms.
#[derive(Debug)]
pub enum LevelTerm {
    /// An atom: some level that is not known further.
    Var(u8),
    Zero,
    Succ(Box<LevelTerm>),
    Max(Box<LevelTerm>, Box<LevelTerm>),
    /// `IMax(a, b)` is zero where `b` is zero, and `Max(a, b)` elsewhere.
    IMax(Box<LevelTerm>, Box<LevelTerm>),
}

/// One step of a chain: `imax` with an atom, then the addition of a constant.
#[derive(Clone, Copy, Debug, PartialEq, Eq, Structural)]
pub struct Link {
    pub atom: u8,
    pub add: u16,
}

/// A summand of a normal form as it is held in memory.
#[derive(Debug)]
pub struct Summand {
    pub base: u16,
    pub chain: Vec<Link>,
}

/// A summand of a normal form: a constant, on which the links of the chain
/// act one after the other.
pub struct Sum {
    pub base: u16,
    pub chain: Seq<Link>,
}

impl View for Summand {
    type V = Sum;

    open spec fn view(&self) -> Sum {
        Sum { base: self.base, chain: self.chain@ }
    }
}

/// The normal form that a list of summands stands for: their maximum.
pub open spec fn sums_view(v: Seq<Summand>) -> Seq<Sum> {
    Seq::new(v.len(), |k: int| v[k]@)
}

/// The most atoms that a comparison distinguishes.
pub const MAX_ATOMS: u8 = 16;

/// The number of formers and atoms that a level is made of.
pub open spec fn term_size(t: LevelTerm) -> nat
    decreases t,
{
    match t {
        LevelTerm::Var(_) => 1,
        LevelTerm::Zero => 1,
        LevelTerm::Succ(a) => 1 + term_size(*a),
        LevelTerm::Max(a, b) => 1 + term_size(*a) + term_size(*b),
        LevelTerm::IMax(a, b) => 1 + term_size(*a) + term_size(*b),
    }
}

/// Whether every atom of `t` has a number below `vars`.
pub open spec fn atoms_below(t: LevelTerm, vars: nat) -> bool
    decreases t,
{
    match t {
        LevelTerm::Var(v) => v < vars,
        LevelTerm::Zero => true,
        LevelTerm::Succ(a) => atoms_below(*a, vars),
        LevelTerm::Max(a, b) => atoms_below(*a, vars) && atoms_below(*b, vars),
        LevelTerm::IMax(a, b) => atoms_below(*a, vars) && atoms_below(*b, vars),
    }
}

/// A summand with one added: to the last link, or to the constant where the
/// chain is empty. `None` where 16 bits do not hold the result.
pub open spec fn bump(s: Sum) -> Option<Sum> {
    if s.chain.len() == 0 {
        if s.base < u16::MAX {
            Some(Sum { base: (s.base + 1) as u16, chain: s.chain })
        } else {
            None
        }
    } else {
        let last = s.chain.last();
        if last.add < u16::MAX {
            Some(
                Sum {
                    base: s.base,
                    chain: s.chain.drop_last().push(
                        Link { atom: last.atom, add: (last.add + 1) as u16 },
                    ),
                },
            )
        } else {
            None
        }
    }
}

/// A summand followed by `imax` with the atom `v`.
pub open spec fn extend(s: Sum, v: u8) -> Sum {
    Sum { base: s.base, chain: s.chain.push(Link { atom: v, add: 0 }) }
}

/// Every summand with one added, or `None` where one of them has no room.
pub open spec fn bump_all(n: Seq<Sum>) -> Option<Seq<Sum>> {
    if forall|k: int| 0 <= k < n.len() ==> bump(#[trigger] n[k]) is Some {
        Some(Seq::new(n.len(), |k: int| bump(n[k]).unwrap()))
    } else {
        None
    }
}

/// Every summand followed by `imax` with the atom `v`.
pub open spec fn extend_all(n: Seq<Sum>, v: u8) -> Seq<Sum> {
    Seq::new(n.len(), |k: int| extend(n[k], v))
}

/// Two normal forms as one, which stands for the maximum of both.
pub open spec fn join(a: Option<Seq<Sum>>, b: Option<Seq<Sum>>) -> Option<Seq<Sum>> {
    match (a, b) {
        (Some(x), Some(y)) => Some(x + y),
        _ => None,
    }
}

/// The normal form of a level: the summands whose maximum it is. `None`
/// where a constant does not fit in 16 bits.
pub open spec fn normal_form(t: LevelTerm) -> Option<Seq<Sum>>
    decreases term_size(t), 0nat,
{
    match t {
        LevelTerm::Var(v) => Some(seq![Sum { base: 0, chain: seq![Link { atom: v, add: 0 }] }]),
        LevelTerm::Zero => Some(seq![Sum { base: 0, chain: seq![] }]),
        LevelTerm::Succ(a) => match normal_form(*a) {
            Some(n) => bump_all(n),
            None => None,
        },
        LevelTerm::Max(a, b) => join(normal_form(*a), normal_form(*b)),
        LevelTerm::IMax(a, b) => normal_form_imax(*a, *b),
    }
}

/// The normal form of `IMax(a, b)`, by the shape of `b`.
pub open spec fn normal_form_imax(a: LevelTerm, b: LevelTerm) -> Option<Seq<Sum>>
    decreases term_size(a) + term_size(b), 1nat,
{
    match b {
        LevelTerm::Var(v) => match normal_form(a) {
            Some(n) => Some(extend_all(n, v)),
            None => None,
        },
        LevelTerm::Zero => Some(seq![Sum { base: 0, chain: seq![] }]),
        LevelTerm::Succ(_) => join(normal_form(a), normal_form(b)),
        LevelTerm::Max(b1, b2) => join(normal_form_imax(a, *b1), normal_form_imax(a, *b2)),
        LevelTerm::IMax(b1, b2) => join(normal_form_imax(a, *b2), normal_form_imax(*b1, *b2)),
    }
}

/// Whether atom `v` is taken to be nonzero in the case numbered `states`.
pub open spec fn state_bit(states: u32, v: u8) -> bool {
    states & (1u32 << (v as u32)) != 0
}

/// The greater of two numbers of 16 bits.
pub open spec fn max16(a: u16, b: u16) -> u16 {
    if a >= b {
        a
    } else {
        b
    }
}

/// The greatest of the first `upto` entries, or zero.
pub open spec fn greatest(offsets: Seq<u16>, upto: nat) -> u16
    decreases upto,
{
    if upto == 0 || upto > offsets.len() {
        0
    } else {
        max16(greatest(offsets, (upto - 1) as nat), offsets[upto - 1])
    }
}

/// The walk down the first `upto` links of a chain, last link first, in one
/// case. `total` is one more than the constants added so far. The walk ends
/// at the first atom that is zero in this case, with a constant; past an
/// atom that is not, it records how far above that atom the summand lies.
/// `None` where 16 bits do not hold a sum.
pub open spec fn scan(
    chain: Seq<Link>,
    upto: nat,
    base: u16,
    total: u16,
    states: u32,
    offsets: Seq<u16>,
) -> Option<(u16, Seq<u16>)>
    decreases upto,
{
    if upto == 0 || upto > chain.len() {
        if total - 1 + base <= u16::MAX && total >= 1 {
            Some(((total - 1 + base) as u16, offsets))
        } else {
            None
        }
    } else {
        let link = chain[upto - 1];
        if total + link.add > u16::MAX {
            None
        } else {
            let t = (total + link.add) as u16;
            if !state_bit(states, link.atom) {
                Some(((t - 1) as u16, offsets))
            } else {
                scan(
                    chain,
                    (upto - 1) as nat,
                    base,
                    t,
                    states,
                    offsets.update(link.atom as int, max16(offsets[link.atom as int], t)),
                )
            }
        }
    }
}

/// The summands from number `from` on, walked in turn; `acc` is the greatest
/// constant met so far.
pub open spec fn fold(n: Seq<Sum>, from: nat, acc: u16, states: u32, offsets: Seq<u16>) -> Option<
    (u16, Seq<u16>),
>
    decreases n.len() - from,
{
    if from >= n.len() {
        Some((acc, offsets))
    } else {
        match scan(n[from as int].chain, n[from as int].chain.len(), n[from as int].base, 1, states, offsets) {
            None => None,
            Some((v, off)) => fold(n, from + 1, max16(acc, v), states, off),
        }
    }
}

/// What a normal form comes to in one case: a constant, and for each atom
/// that is nonzero there how far above it the level lies (zero: not at all).
pub open spec fn apply(n: Seq<Sum>, vars: u8, states: u32) -> Option<(u16, Seq<u16>)> {
    match fold(n, 0, 0, states, Seq::new(vars as nat, |k: int| 0u16)) {
        None => None,
        Some((k, off)) => Some((max16(k, greatest(off, off.len())), off)),
    }
}

/// What a normal form comes to in one case, where there are at most 16
/// atoms and the normal form mentions none but these; `None` elsewhere.
pub open spec fn case_outcome(n: Seq<Sum>, vars: u8, states: u32) -> Option<(u16, Seq<u16>)> {
    if vars <= MAX_ATOMS && sums_below(n, vars as nat) {
        apply(n, vars, states)
    } else {
        None
    }
}

/// Whether every atom of the normal form has a number below `vars`.
pub open spec fn sums_below(n: Seq<Sum>, vars: nat) -> bool {
    forall|i: int, j: int|
        0 <= i < n.len() && 0 <= j < n[i].chain.len() ==> (#[trigger] n[i].chain[j]).atom < vars
}

/// Whether two levels over the atoms below `vars` come to the same in each
/// of the `2^vars` cases, with no sum past 16 bits.
pub open spec fn levels_agree(l: LevelTerm, r: LevelTerm, vars: u8) -> bool {
    &&& vars <= MAX_ATOMS
    &&& atoms_below(l, vars as nat)
    &&& atoms_below(r, vars as nat)
    &&& normal_form(l) is Some
    &&& normal_form(r) is Some
    &&& forall|s: u32|
        s < (1u32 << (vars as u32)) ==> {
            &&& (#[trigger] apply(normal_form(l).unwrap(), vars, s)) is Some
            &&& apply(normal_form(l).unwrap(), vars, s) == apply(normal_form(r).unwrap(), vars, s)
        }
}


fn max_u16(a: u16, b: u16) -> (r: u16)
    ensures
        r == max16(a, b),
{
    if a >= b {
        a
    } else {
        b
    }
}

fn copy_links(chain: &Vec<Link>, upto: usize) -> (r: Vec<Link>)
    requires
        upto <= chain.len(),
    ensures
        r@ == chain@.take(upto as int),
{
    let mut r: Vec<Link> = Vec::new();
    let mut k: usize = 0;
    while k < upto
        invariant
            k <= upto <= chain.len(),
            r@ == chain@.take(k as int),
        decreases upto - k,
    {
        r.push(chain[k]);
        k += 1;
        assert(r@ =~= chain@.take(k as int));
    }
    r
}

fn bump_one(s: &Summand) -> (r: Option<Summand>)
    ensures
        r is Some <==> bump(s@) is Some,
        r is Some ==> r.unwrap()@ == bump(s@).unwrap(),
{
    let len = s.chain.len();
    if len == 0 {
        if s.base < u16::MAX {
            let r = Summand { base: s.base + 1, chain: Vec::new() };
            assert(r@.chain =~= s@.chain);
            Some(r)
        } else {
            None
        }
    } else {
        let last = s.chain[len - 1];
        if last.add < u16::MAX {
            let mut chain = copy_links(&s.chain, len - 1);
            chain.push(Link { atom: last.atom, add: last.add + 1 });
            let r = Summand { base: s.base, chain };
            assert(r@.chain =~= bump(s@).unwrap().chain);
            Some(r)
        } else {
            None
        }
    }
}

fn extend_one(s: &Summand, v: u8) -> (r: Summand)
    ensures
        r@ == extend(s@, v),
{
    let mut chain = copy_links(&s.chain, s.chain.len());
    chain.push(Link { atom: v, add: 0 });
    let r = Summand { base: s.base, chain };
    assert(r@.chain =~= extend(s@, v).chain);
    r
}

fn join_sums(a: Vec<Summand>, b: Vec<Summand>) -> (r: Vec<Summand>)
    ensures
        sums_view(r@) == sums_view(a@) + sums_view(b@),
{
    let mut a = a;
    let mut b = b;
    let ghost a0 = a@;
    let ghost b0 = b@;
    a.append(&mut b);
    assert(sums_view(a@) =~= sums_view(a0) + sums_view(b0));
    a
}

/// Whether every atom of `t` has a number below `vars`.
pub fn atoms_are_below(t: &LevelTerm, vars: u8) -> (r: bool)
    ensures
        r == atoms_below(*t, vars as nat),
    decreases t,
{
    match t {
        LevelTerm::Var(v) => *v < vars,
        LevelTerm::Zero => true,
        LevelTerm::Succ(a) => atoms_are_below(a, vars),
        LevelTerm::Max(a, b) => atoms_are_below(a, vars) && atoms_are_below(b, vars),
        LevelTerm::IMax(a, b) => atoms_are_below(a, vars) && atoms_are_below(b, vars),
    }
}

/// The normal form of a level, or `None` where a constant passes 16 bits.
#[verifier::loop_isolation(false)]
pub fn normalize(t: &LevelTerm) -> (r: Option<Vec<Summand>>)
    ensures
        r is Some <==> normal_form(*t) is Some,
        r is Some ==> sums_view(r.unwrap()@) == normal_form(*t).unwrap(),
    decreases term_size(*t), 0nat,
{
    match t {
        LevelTerm::Var(v) => {
            let mut chain: Vec<Link> = Vec::new();
            chain.push(Link { atom: *v, add: 0 });
            let mut r: Vec<Summand> = Vec::new();
            r.push(Summand { base: 0, chain });
            assert(r[0]@.chain =~= seq![Link { atom: *v, add: 0 }]);
            assert(sums_view(r@) =~= normal_form(*t).unwrap());
            Some(r)
        },
        LevelTerm::Zero => {
            let mut r: Vec<Summand> = Vec::new();
            r.push(Summand { base: 0, chain: Vec::new() });
            assert(r[0]@.chain =~= Seq::<Link>::empty());
            assert(sums_view(r@) =~= normal_form(*t).unwrap());
            Some(r)
        },
        LevelTerm::Succ(a) => {
            let inner = match normalize(a) {
                Some(n) => n,
                None => {
                    return None;
                },
            };
            let mut r: Vec<Summand> = Vec::new();
            let mut k: usize = 0;
            while k < inner.len()
                invariant
                    k <= inner.len(),
                    r.len() == k,
                    forall|j: int|
                        0 <= j < k ==> bump(#[trigger] sums_view(inner@)[j]) == Some(r[j]@),
                decreases inner.len() - k,
            {
                match bump_one(&inner[k]) {
                    Some(s) => {
                        r.push(s);
                    },
                    None => {
                        assert(bump(sums_view(inner@)[k as int]) is None);
                        return None;
                    },
                }
                k += 1;
            }
            assert(sums_view(r@) =~= bump_all(sums_view(inner@)).unwrap());
            Some(r)
        },
        LevelTerm::Max(a, b) => {
            let x = match normalize(a) {
                Some(n) => n,
                None => {
                    return None;
                },
            };
            let y = match normalize(b) {
                Some(n) => n,
                None => {
                    return None;
                },
            };
            Some(join_sums(x, y))
        },
        LevelTerm::IMax(a, b) => normalize_imax(a, b),
    }
}

/// The normal form of `IMax(a, b)`.
#[verifier::loop_isolation(false)]
pub fn normalize_imax(a: &LevelTerm, b: &LevelTerm) -> (r: Option<Vec<Summand>>)
    ensures
        r is Some <==> normal_form_imax(*a, *b) is Some,
        r is Some ==> sums_view(r.unwrap()@) == normal_form_imax(*a, *b).unwrap(),
    decreases term_size(*a) + term_size(*b), 1nat,
{
    match b {
        LevelTerm::Var(v) => {
            let inner = match normalize(a) {
                Some(n) => n,
                None => {
                    return None;
                },
            };
            let mut r: Vec<Summand> = Vec::new();
            let mut k: usize = 0;
            while k < inner.len()
                invariant
                    k <= inner.len(),
                    r.len() == k,
                    forall|j: int|
                        0 <= j < k ==> extend(#[trigger] sums_view(inner@)[j], *v) == r[j]@,
                decreases inner.len() - k,
            {
                r.push(extend_one(&inner[k], *v));
                k += 1;
            }
            assert(sums_view(r@) =~= extend_all(sums_view(inner@), *v));
            Some(r)
        },
        LevelTerm::Zero => {
            let mut r: Vec<Summand> = Vec::new();
            r.push(Summand { base: 0, chain: Vec::new() });
            assert(r[0]@.chain =~= Seq::<Link>::empty());
            assert(sums_view(r@) =~= normal_form_imax(*a, *b).unwrap());
            Some(r)
        },
        LevelTerm::Succ(_) => {
            let x = match normalize(a) {
                Some(n) => n,
                None => {
                    return None;
                },
            };
            let y = match normalize(b) {
                Some(n) => n,
                None => {
                    return None;
                },
            };
            Some(join_sums(x, y))
        },
        LevelTerm::Max(b1, b2) => {
            let x = match normalize_imax(a, b1) {
                Some(n) => n,
                None => {
                    return None;
                },
            };
            let y = match normalize_imax(a, b2) {
                Some(n) => n,
                None => {
                    return None;
                },
            };
            Some(join_sums(x, y))
        },
        LevelTerm::IMax(b1, b2) => {
            let x = match normalize_imax(a, b2) {
                Some(n) => n,
                None => {
                    return None;
                },
            };
            let y = match normalize_imax(b1, b2) {
                Some(n) => n,
                None => {
                    return None;
                },
            };
            Some(join_sums(x, y))
        },
    }
}

/// A level has a normal form over the atoms it mentions.
pub proof fn lemma_normal_form_atoms(t: LevelTerm, vars: nat)
    requires
        atoms_below(t, vars),
        normal_form(t) is Some,
    ensures
        sums_below(normal_form(t).unwrap(), vars),
    decreases term_size(t), 0nat,
{
    match t {
        LevelTerm::Var(_) => {},
        LevelTerm::Zero => {},
        LevelTerm::Succ(a) => {
            lemma_normal_form_atoms(*a, vars);
            let n = normal_form(*a).unwrap();
            let m = normal_form(t).unwrap();
            assert forall|i: int, j: int|
                0 <= i < m.len() && 0 <= j < m[i].chain.len() implies (#[trigger] m[i].chain[j]).atom
                < vars by {
                assert(m[i] == bump(n[i]).unwrap());
                if j < n[i].chain.len() - 1 {
                    assert(m[i].chain[j] == n[i].chain[j]);
                } else {
                    assert(m[i].chain[j].atom == n[i].chain[j].atom);
                }
            }
        },
        LevelTerm::Max(a, b) => {
            lemma_normal_form_atoms(*a, vars);
            lemma_normal_form_atoms(*b, vars);
        },
        LevelTerm::IMax(a, b) => {
            lemma_normal_form_imax_atoms(*a, *b, vars);
        },
    }
}

/// `IMax(a, b)` has a normal form over the atoms that `a` and `b` mention.
pub proof fn lemma_normal_form_imax_atoms(a: LevelTerm, b: LevelTerm, vars: nat)
    requires
        atoms_below(a, vars),
        atoms_below(b, vars),
        normal_form_imax(a, b) is Some,
    ensures
        sums_below(normal_form_imax(a, b).unwrap(), vars),
    decreases term_size(a) + term_size(b), 1nat,
{
    match b {
        LevelTerm::Var(v) => {
            lemma_normal_form_atoms(a, vars);
            let n = normal_form(a).unwrap();
            let m = normal_form_imax(a, b).unwrap();
            assert forall|i: int, j: int|
                0 <= i < m.len() && 0 <= j < m[i].chain.len() implies (#[trigger] m[i].chain[j]).atom
                < vars by {
                assert(m[i] == extend(n[i], v));
                if j < n[i].chain.len() {
                    assert(m[i].chain[j] == n[i].chain[j]);
                }
            }
        },
        LevelTerm::Zero => {},
        LevelTerm::Succ(_) => {
            lemma_normal_form_atoms(a, vars);
            lemma_normal_form_atoms(b, vars);
        },
        LevelTerm::Max(b1, b2) => {
            lemma_normal_form_imax_atoms(a, *b1, vars);
            lemma_normal_form_imax_atoms(a, *b2, vars);
        },
        LevelTerm::IMax(b1, b2) => {
            lemma_normal_form_imax_atoms(a, *b2, vars);
            lemma_normal_form_imax_atoms(*b1, *b2, vars);
        },
    }
}

#[verifier::loop_isolation(false)]
fn scan_chain(chain: &Vec<Link>, base: u16, states: u32, offsets: &mut Vec<u16>) -> (r: Option<u16>)
    requires
        old(offsets).len() <= MAX_ATOMS,
        forall|j: int| 0 <= j < chain.len() ==> (#[trigger] chain[j]).atom < old(offsets).len(),
    ensures
        final(offsets).len() == old(offsets).len(),
        match scan(chain@, chain.len() as nat, base, 1, states, old(offsets)@) {
            None => r is None,
            Some((v, off)) => r == Some(v) && final(offsets)@ == off,
        },
{
    let ghost start = offsets@;
    let mut upto: usize = chain.len();
    let mut total: u16 = 1;
    while upto > 0
        invariant
            upto <= chain.len(),
            total >= 1,
            offsets.len() == start.len(),
            offsets.len() <= MAX_ATOMS,
            forall|j: int| 0 <= j < chain.len() ==> (#[trigger] chain[j]).atom < offsets.len(),
            scan(chain@, chain.len() as nat, base, 1, states, start) == scan(
                chain@,
                upto as nat,
                base,
                total,
                states,
                offsets@,
            ),
        decreases upto,
    {
        let link = chain[upto - 1];
        if link.add > u16::MAX - total {
            return None;
        }
        total = total + link.add;
        if states & (1u32 << (link.atom as u32)) == 0 {
            return Some(total - 1);
        }
        let at = link.atom as usize;
        let seen = offsets[at];
        offsets.set(at, max_u16(seen, total));
        upto -= 1;
    }
    if base > u16::MAX - (total - 1) {
        None
    } else {
        Some(total - 1 + base)
    }
}

fn greatest_of(offsets: &Vec<u16>) -> (r: u16)
    ensures
        r == greatest(offsets@, offsets.len() as nat),
{
    let mut r: u16 = 0;
    let mut k: usize = 0;
    while k < offsets.len()
        invariant
            k <= offsets.len(),
            r == greatest(offsets@, k as nat),
        decreases offsets.len() - k,
    {
        r = max_u16(r, offsets[k]);
        k += 1;
    }
    r
}

/// Whether every atom of the normal form has a number below `vars`.
#[verifier::loop_isolation(false)]
pub fn sums_are_below(n: &Vec<Summand>, vars: u8) -> (r: bool)
    ensures
        r == sums_below(sums_view(n@), vars as nat),
{
    let mut i: usize = 0;
    while i < n.len()
        invariant
            i <= n.len(),
            forall|a: int, b: int|
                0 <= a < i && 0 <= b < n[a].chain.len() ==> (#[trigger] n[a].chain[b]).atom < vars,
        decreases n.len() - i,
    {
        let mut j: usize = 0;
        while j < n[i].chain.len()
            invariant
                i < n.len(),
                j <= n[i as int].chain.len(),
                forall|b: int| 0 <= b < j ==> (#[trigger] n[i as int].chain[b]).atom < vars,
            decreases n[i as int].chain.len() - j,
        {
            if n[i].chain[j].atom >= vars {
                assert(sums_view(n@)[i as int].chain[j as int].atom >= vars);
                return false;
            }
            j += 1;
        }
        i += 1;
    }
    assert forall|a: int, b: int|
        0 <= a < sums_view(n@).len() && 0 <= b < sums_view(n@)[a].chain.len() implies (
    #[trigger] sums_view(n@)[a].chain[b]).atom < vars by {
        assert(n[a].chain[b].atom < vars);
    }
    true
}

/// What a normal form comes to in the case numbered `states`: a constant
/// and, for each atom, how far above that atom the level lies there.
/// `None` where a sum passes 16 bits, where there are more than 16 atoms,
/// and where the normal form mentions an atom that is not below `vars`.
pub fn apply_case(n: &Vec<Summand>, vars: u8, states: u32) -> (r: Option<(u16, Vec<u16>)>)
    ensures
        match case_outcome(sums_view(n@), vars, states) {
            None => r is None,
            Some((k, off)) => r is Some && r.unwrap().0 == k && r.unwrap().1@ == off,
        },
{
    if vars > MAX_ATOMS || !sums_are_below(n, vars) {
        None
    } else {
        apply_in_range(n, vars, states)
    }
}

#[verifier::loop_isolation(false)]
fn apply_in_range(n: &Vec<Summand>, vars: u8, states: u32) -> (r: Option<(u16, Vec<u16>)>)
    requires
        vars <= MAX_ATOMS,
        sums_below(sums_view(n@), vars as nat),
    ensures
        match apply(sums_view(n@), vars, states) {
            None => r is None,
            Some((k, off)) => r is Some && r.unwrap().0 == k && r.unwrap().1@ == off,
        },
{
    let mut offsets: Vec<u16> = Vec::new();
    let mut k: u8 = 0;
    while k < vars
        invariant
            k <= vars,
            offsets.len() == k,
            forall|j: int| 0 <= j < k ==> offsets[j] == 0,
        decreases vars - k,
    {
        offsets.push(0);
        k += 1;
    }
    assert(offsets@ =~= Seq::new(vars as nat, |k: int| 0u16));
    let ghost start = offsets@;
    let mut acc: u16 = 0;
    let mut from: usize = 0;
    while from < n.len()
        invariant
            from <= n.len(),
            offsets.len() == vars,
            vars <= MAX_ATOMS,
            sums_below(sums_view(n@), vars as nat),
            fold(sums_view(n@), 0, 0, states, start) == fold(
                sums_view(n@),
                from as nat,
                acc,
                states,
                offsets@,
            ),
        decreases n.len() - from,
    {
        let ghost s = sums_view(n@)[from as int];
        assert forall|j: int| 0 <= j < n[from as int].chain.len() implies (
        #[trigger] n[from as int].chain[j]).atom < offsets.len() by {
            assert(s.chain[j].atom < vars);
        }
        match scan_chain(&n[from].chain, n[from].base, states, &mut offsets) {
            None => {
                return None;
            },
            Some(v) => {
                acc = max_u16(acc, v);
            },
        }
        from += 1;
    }
    let top = greatest_of(&offsets);
    Some((max_u16(acc, top), offsets))
}

fn same_offsets(a: &Vec<u16>, b: &Vec<u16>) -> (r: bool)
    ensures
        r == (a@ == b@),
{
    if a.len() != b.len() {
        return false;
    }
    let mut k: usize = 0;
    while k < a.len()
        invariant
            k <= a.len(),
            a.len() == b.len(),
            forall|j: int| 0 <= j < k ==> a[j] == b[j],
        decreases a.len() - k,
    {
        if a[k] != b[k] {
            return false;
        }
        k += 1;
    }
    assert(a@ =~= b@);
    true
}

/// Whether two levels over the atoms below `vars` are equal: whether they
/// come to the same in each of the `2^vars` cases of which atoms are zero.
/// The answer is `false` where there are more than 16 atoms, where a level
/// mentions an atom that is not below `vars`, and where a sum passes 16 bits.
#[verifier::loop_isolation(false)]
pub fn levels_equal(l: &LevelTerm, r: &LevelTerm, vars: u8) -> (eq: bool)
    ensures
        eq == levels_agree(*l, *r, vars),
{
    if vars > MAX_ATOMS || !atoms_are_below(l, vars) || !atoms_are_below(r, vars) {
        return false;
    }
    let ln = match normalize(l) {
        Some(n) => n,
        None => {
            return false;
        },
    };
    let rn = match normalize(r) {
        Some(n) => n,
        None => {
            return false;
        },
    };
    proof {
        lemma_normal_form_atoms(*l, vars as nat);
        lemma_normal_form_atoms(*r, vars as nat);
    }
    let limit: u32 = 1u32 << (vars as u32);
    let mut s: u32 = 0;
    while s < limit
        invariant
            s <= limit,
            limit == 1u32 << (vars as u32),
            vars <= MAX_ATOMS,
            sums_below(sums_view(ln@), vars as nat),
            sums_below(sums_view(rn@), vars as nat),
            forall|c: u32|
                c < s ==> {
                    &&& (#[trigger] apply(sums_view(ln@), vars, c)) is Some
                    &&& apply(sums_view(ln@), vars, c) == apply(sums_view(rn@), vars, c)
                },
        decreases limit - s,
    {
        let same = match apply_in_range(&ln, vars, s) {
            None => false,
            Some((lk, loff)) => match apply_in_range(&rn, vars, s) {
                None => false,
                Some((rk, roff)) => lk == rk && same_offsets(&loff, &roff),
            },
        };
        if !same {
            return false;
        }
        s += 1;
    }
    true
}

} // verus!
