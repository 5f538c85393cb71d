//! Taking expressions apart into the head and arguments of a chain of
//! applications, or the domains and body of a chain of binders, and putting
//! them together again.

use vstd::prelude::*;
use crate::expr::Expr;
use crate::expr::option_view;
use crate::term::Term;
use crate::term::app;
use crate::term::app_bvars;
use crate::term::lam_build;
use crate::term::max_index;
use crate::term::pi_body;
use crate::term::pi_build;
use crate::term::pi_domains;
use crate::term::spine_args;
use crate::term::spine_build;
use crate::term::spine_head;

verus! {

/// The terms behind a list of borrowed expressions.
pub open spec fn refs_view(v: Seq<&Expr>) -> Seq<Term> {
    Seq::new(v.len(), |k: int| (*v[k])@)
}

/// The terms behind a list of expressions.
pub open spec fn terms_of(v: Seq<Expr>) -> Seq<Term> {
    Seq::new(v.len(), |k: int| v[k]@)
}

/// Adds the arguments of the chain of applications `e` to `args`, first
/// argument first, and gives its head.
pub fn spine_parts<'a>(e: &'a Expr, args: &mut Vec<&'a Expr>) -> (head: &'a Expr)
    ensures
        head@ == spine_head(e@),
        refs_view(final(args)@) == refs_view(old(args)@) + spine_args(e@),
    decreases e,
{
    match e {
        Expr::App(f, x) => {
            let head = spine_parts(f, args);
            let ghost mid = args@;
            args.push(x);
            assert(refs_view(args@) =~= refs_view(mid).push(x@));
            assert(refs_view(args@) =~= refs_view(old(args)@) + spine_args(e@));
            head
        },
        _ => {
            assert(refs_view(args@) =~= refs_view(old(args)@) + spine_args(e@));
            e
        },
    }
}

/// Adds the domains of the leading binders of `e` to `domains`, outermost
/// first, and gives what stands under them.
pub fn pi_parts<'a>(e: &'a Expr, domains: &mut Vec<&'a Expr>) -> (body: &'a Expr)
    ensures
        body@ == pi_body(e@),
        refs_view(final(domains)@) == refs_view(old(domains)@) + pi_domains(e@),
    decreases e,
{
    match e {
        Expr::Pi(l, r) => {
            domains.push(l);
            let ghost mid = domains@;
            let body = pi_parts(r, domains);
            assert(refs_view(mid) =~= refs_view(old(domains)@).push(l@));
            assert(refs_view(domains@) =~= refs_view(old(domains)@) + pi_domains(e@));
            body
        },
        _ => {
            assert(refs_view(domains@) =~= refs_view(old(domains)@) + pi_domains(e@));
            e
        },
    }
}

/// `head` applied to `args` in turn.
pub fn build_spine(head: Expr, args: &Vec<Expr>) -> (r: Expr)
    ensures
        r@ == spine_build(head@, terms_of(args@)),
{
    let ghost all = terms_of(args@);
    let mut acc = head;
    let mut k: usize = 0;
    while k < args.len()
        invariant
            k <= args.len(),
            all == terms_of(args@),
            acc@ == spine_build(head@, all.take(k as int)),
        decreases args.len() - k,
    {
        assert(all.take(k as int + 1).drop_last() =~= all.take(k as int));
        acc = Expr::App(Box::new(acc), Box::new(args[k].clone()));
        k += 1;
    }
    assert(all.take(k as int) =~= all);
    acc
}

/// `body` under binders with the given domains, outermost first.
pub fn build_pis(domains: &Vec<&Expr>, body: Expr) -> (r: Expr)
    ensures
        r@ == pi_build(refs_view(domains@), body@),
{
    let ghost all = refs_view(domains@);
    let mut acc = body;
    let mut k: usize = domains.len();
    assert(all.skip(k as int) =~= Seq::<Term>::empty());
    while k > 0
        invariant
            k <= domains.len(),
            all == refs_view(domains@),
            acc@ == pi_build(all.skip(k as int), body@),
        decreases k,
    {
        assert(all.skip(k as int - 1).skip(1) =~= all.skip(k as int));
        acc = Expr::Pi(Box::new(domains[k - 1].clone()), Box::new(acc));
        k -= 1;
    }
    assert(all.skip(0) =~= all);
    acc
}

/// `body` under abstractions with the given domains, outermost first.
pub fn build_lams(domains: &Vec<&Expr>, body: Expr) -> (r: Expr)
    ensures
        r@ == lam_build(refs_view(domains@), body@),
{
    let ghost all = refs_view(domains@);
    let mut acc = body;
    let mut k: usize = domains.len();
    assert(all.skip(k as int) =~= Seq::<Term>::empty());
    while k > 0
        invariant
            k <= domains.len(),
            all == refs_view(domains@),
            acc@ == lam_build(all.skip(k as int), body@),
        decreases k,
    {
        assert(all.skip(k as int - 1).skip(1) =~= all.skip(k as int));
        acc = Expr::Lam(Box::new(domains[k - 1].clone()), Box::new(acc));
        k -= 1;
    }
    assert(all.skip(0) =~= all);
    acc
}

/// Applying to the variables from the top down is applying to the topmost
/// and then to the rest.
pub proof fn lemma_app_bvars_first(head: Term, lo: nat, count: nat)
    requires
        count >= 1,
        lo + count - 1 <= max_index(),
    ensures
        app_bvars(head, lo, count) == app_bvars(
            app(head, Term::BVar((lo + count - 1) as u16)),
            lo,
            (count - 1) as nat,
        ),
    decreases count,
{
    reveal_with_fuel(app_bvars, 3);
    if count > 1 {
        lemma_app_bvars_first(head, lo + 1, (count - 1) as nat);
    }
}

/// Past the last index, no variable can be applied to.
pub proof fn lemma_app_bvars_overflow(head: Term, lo: nat, count: nat)
    requires
        count >= 1,
        lo + count - 1 > max_index(),
    ensures
        app_bvars(head, lo, count) is None,
    decreases count,
{
    if lo <= max_index() {
        lemma_app_bvars_overflow(head, lo + 1, (count - 1) as nat);
    }
}

/// `head` applied to the variables `lo + count - 1`, ..., `lo`, or `None`
/// where one of them is no index.
pub fn apply_bvars(head: Expr, lo: u32, count: u32) -> (r: Option<Expr>)
    ensures
        option_view(r) == app_bvars(head@, lo as nat, count as nat),
{
    if count == 0 {
        return Some(head);
    }
    if lo as u64 + count as u64 - 1 > 0xffff {
        proof {
            lemma_app_bvars_overflow(head@, lo as nat, count as nat);
        }
        return None;
    }
    let mut acc = head;
    let mut left: u32 = count;
    while left > 0
        invariant
            left <= count,
            lo + count - 1 <= 0xffff,
            app_bvars(head@, lo as nat, count as nat) == app_bvars(acc@, lo as nat, left as nat),
        decreases left,
    {
        proof {
            lemma_app_bvars_first(acc@, lo as nat, left as nat);
        }
        let var = Expr::BVar((lo + left - 1) as u16);
        assert(var@ == Term::BVar((lo + left - 1) as u16));
        acc = Expr::App(Box::new(acc), Box::new(var));
        left -= 1;
    }
    Some(acc)
}

} // verus!
