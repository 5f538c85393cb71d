//! Expressions written out for a reader: constants by their names, bound
//! variables by their indices.

use vstd::prelude::*;
use vstd::string::StrSliceExecFns;
use crate::env::State;
use crate::expr::Expr;
use crate::expr::Ind;
use crate::term::Inductive;
use crate::term::Term;

verus! {

/// The character for one decimal digit.
pub open spec fn digit(d: nat) -> char {
    if d == 0 {
        '0'
    } else if d == 1 {
        '1'
    } else if d == 2 {
        '2'
    } else if d == 3 {
        '3'
    } else if d == 4 {
        '4'
    } else if d == 5 {
        '5'
    } else if d == 6 {
        '6'
    } else if d == 7 {
        '7'
    } else if d == 8 {
        '8'
    } else {
        '9'
    }
}

/// A number in decimal digits.
pub open spec fn decimal(n: nat) -> Seq<char>
    decreases n,
{
    if n < 10 {
        seq![digit(n)]
    } else {
        decimal(n / 10).push(digit(n % 10))
    }
}

/// A number in decimal digits as it follows a name: nothing for zero.
pub open spec fn suffix(n: nat) -> Seq<char>
    decreases n,
{
    if n == 0 {
        Seq::empty()
    } else {
        suffix(n / 10).push(digit(n % 10))
    }
}

/// A term written out, the constants under the names given. A constant
/// without a name is written as `#` and its index.
pub open spec fn render(names: Seq<Seq<char>>, t: Term) -> Seq<char>
    decreases t, 0nat,
{
    match t {
        Term::FVar(n) => if n < names.len() {
            names[n as int]
        } else {
            "#"@ + decimal(n as nat)
        },
        Term::BVar(n) => "_"@ + decimal(n as nat),
        Term::SortOmega(n) => "Sortω"@ + suffix(n as nat),
        Term::Lam(l, r) => "λ _: "@ + render_domain(names, *l) + ", "@ + render(names, *r),
        Term::Pi(l, r) => "∀ _: "@ + render_domain(names, *l) + ", "@ + render(names, *r),
        Term::App(l, r) => render_function(names, *l) + " "@ + render_argument(names, *r),
        Term::Ind(i) => "Ind"@ + render_ind(names, i),
        Term::IndConstr(n, i) => "Ind:constr"@ + suffix(n as nat) + render_ind(names, i),
        Term::IndElim(i) => "Ind:elim"@ + render_ind(names, i),
    }
}

/// The domain of a binder: in brackets where it is a function type or an
/// application.
pub open spec fn render_domain(names: Seq<Seq<char>>, l: Term) -> Seq<char>
    decreases l, 1nat,
{
    if l is Pi || l is App {
        "("@ + render(names, l) + ")"@
    } else {
        render(names, l)
    }
}

/// The function of an application: in brackets where it is an abstraction.
pub open spec fn render_function(names: Seq<Seq<char>>, l: Term) -> Seq<char>
    decreases l, 1nat,
{
    if l is Lam {
        "("@ + render(names, l) + ")"@
    } else {
        render(names, l)
    }
}

/// The argument of an application: in brackets where it is an application.
pub open spec fn render_argument(names: Seq<Seq<char>>, r: Term) -> Seq<char>
    decreases r, 1nat,
{
    if r is App {
        "("@ + render(names, r) + ")"@
    } else {
        render(names, r)
    }
}

/// The declaration of a family: its arity and its constructors.
pub open spec fn render_ind(names: Seq<Seq<char>>, i: Inductive) -> Seq<char>
    decreases i, 0nat,
{
    (if i.sm {
        "(small, _: "@
    } else {
        "(_: "@
    }) + render(names, *i.arity) + render_list(names, i.constrs, 0) + ")"@
}

/// The terms of a list from number `from` on, a comma before each.
pub open spec fn render_list(names: Seq<Seq<char>>, list: Seq<Term>, from: nat) -> Seq<char>
    decreases list, list.len() - from,
{
    if from >= list.len() {
        Seq::empty()
    } else {
        ", "@ + render(names, list[from as int]) + render_list(names, list, from + 1)
    }
}

fn digit_char(d: u32) -> (c: char)
    requires
        d < 10,
    ensures
        c == digit(d as nat),
{
    if d == 0 {
        '0'
    } else if d == 1 {
        '1'
    } else if d == 2 {
        '2'
    } else if d == 3 {
        '3'
    } else if d == 4 {
        '4'
    } else if d == 5 {
        '5'
    } else if d == 6 {
        '6'
    } else if d == 7 {
        '7'
    } else if d == 8 {
        '8'
    } else {
        '9'
    }
}

fn push_text(out: &mut Vec<char>, text: &str)
    ensures
        final(out)@ == old(out)@ + text@,
{
    let n = text.unicode_len();
    let mut k: usize = 0;
    while k < n
        invariant
            k <= n,
            n == text@.len(),
            out@ == old(out)@ + text@.take(k as int),
        decreases n - k,
    {
        out.push(text.get_char(k));
        k += 1;
        assert(out@ =~= old(out)@ + text@.take(k as int));
    }
    assert(text@.take(n as int) =~= text@);
}

fn push_decimal(out: &mut Vec<char>, n: u32)
    ensures
        final(out)@ == old(out)@ + decimal(n as nat),
    decreases n,
{
    if n < 10 {
        out.push(digit_char(n));
        assert(out@ =~= old(out)@ + decimal(n as nat));
    } else {
        push_decimal(out, n / 10);
        out.push(digit_char(n % 10));
        assert(out@ =~= old(out)@ + decimal(n as nat));
    }
}

fn push_suffix(out: &mut Vec<char>, n: u32)
    ensures
        final(out)@ == old(out)@ + suffix(n as nat),
    decreases n,
{
    if n == 0 {
        assert(out@ =~= old(out)@ + suffix(n as nat));
    } else {
        push_suffix(out, n / 10);
        out.push(digit_char(n % 10));
        assert(out@ =~= old(out)@ + suffix(n as nat));
    }
}

fn push_expr(st: &State, out: &mut Vec<char>, e: &Expr)
    ensures
        final(out)@ == old(out)@ + render(st.names(), e@),
    decreases e, 0nat,
{
    match e {
        Expr::FVar(n) => {
            if (*n as usize) < st.len() {
                push_text(out, st.name_of(*n));
            } else {
                push_text(out, "#");
                push_decimal(out, *n);
                assert(out@ =~= old(out)@ + ("#"@ + decimal(*n as nat)));
            }
        },
        Expr::BVar(n) => {
            push_text(out, "_");
            push_decimal(out, *n as u32);
            assert(out@ =~= old(out)@ + ("_"@ + decimal(*n as nat)));
        },
        Expr::SortOmega(n) => {
            push_text(out, "Sortω");
            push_suffix(out, *n as u32);
            assert(out@ =~= old(out)@ + ("Sortω"@ + suffix(*n as nat)));
        },
        Expr::Lam(l, r) => {
            push_text(out, "λ _: ");
            push_bracketed(st, out, l, is_pi_or_app(l));
            push_text(out, ", ");
            push_expr(st, out, r);
            assert(out@ =~= old(out)@ + ("λ _: "@ + render_domain(st.names(), l@)
                + ", "@ + render(st.names(), r@)));
        },
        Expr::Pi(l, r) => {
            push_text(out, "∀ _: ");
            push_bracketed(st, out, l, is_pi_or_app(l));
            push_text(out, ", ");
            push_expr(st, out, r);
            assert(out@ =~= old(out)@ + ("∀ _: "@ + render_domain(st.names(), l@)
                + ", "@ + render(st.names(), r@)));
        },
        Expr::App(l, r) => {
            push_bracketed(st, out, l, is_lam(l));
            push_text(out, " ");
            push_bracketed(st, out, r, is_application(r));
            assert(out@ =~= old(out)@ + (render_function(st.names(), l@) + " "@ + render_argument(
                st.names(),
                r@,
            )));
        },
        Expr::Ind(i) => {
            push_text(out, "Ind");
            push_ind(st, out, i);
            assert(out@ =~= old(out)@ + ("Ind"@ + render_ind(st.names(), i@)));
        },
        Expr::IndConstr(n, i) => {
            push_text(out, "Ind:constr");
            push_suffix(out, *n as u32);
            push_ind(st, out, i);
            assert(out@ =~= old(out)@ + ("Ind:constr"@ + suffix(*n as nat) + render_ind(
                st.names(),
                i@,
            )));
        },
        Expr::IndElim(i) => {
            push_text(out, "Ind:elim");
            push_ind(st, out, i);
            assert(out@ =~= old(out)@ + ("Ind:elim"@ + render_ind(st.names(), i@)));
        },
    }
}

fn is_pi_or_app(e: &Expr) -> (r: bool)
    ensures
        r == (e@ is Pi || e@ is App),
{
    match e {
        Expr::Pi(_, _) => true,
        Expr::App(_, _) => true,
        _ => false,
    }
}

fn is_lam(e: &Expr) -> (r: bool)
    ensures
        r == (e@ is Lam),
{
    match e {
        Expr::Lam(_, _) => true,
        _ => false,
    }
}

fn is_application(e: &Expr) -> (r: bool)
    ensures
        r == (e@ is App),
{
    match e {
        Expr::App(_, _) => true,
        _ => false,
    }
}

fn push_bracketed(st: &State, out: &mut Vec<char>, e: &Expr, brackets: bool)
    ensures
        final(out)@ == old(out)@ + if brackets {
            "("@ + render(st.names(), e@) + ")"@
        } else {
            render(st.names(), e@)
        },
    decreases e, 1nat,
{
    if brackets {
        push_text(out, "(");
        push_expr(st, out, e);
        push_text(out, ")");
        assert(out@ =~= old(out)@ + ("("@ + render(st.names(), e@) + ")"@));
    } else {
        push_expr(st, out, e);
    }
}

#[verifier::loop_isolation(false)]
fn push_ind(st: &State, out: &mut Vec<char>, i: &Ind)
    ensures
        final(out)@ == old(out)@ + render_ind(st.names(), i@),
    decreases i, 0nat,
{
    let ghost names = st.names();
    if i.sm {
        push_text(out, "(small, _: ");
    } else {
        push_text(out, "(_: ");
    }
    push_expr(st, out, &i.arity);
    let ghost head = out@;
    let mut k: usize = 0;
    while k < i.constrs.len()
        invariant
            k <= i.constrs.len(),
            out@ + render_list(names, i@.constrs, k as nat) == head + render_list(
                names,
                i@.constrs,
                0,
            ),
        decreases i.constrs.len() - k,
    {
        let ghost before = out@;
        assert(i@.constrs[k as int] == i.constrs[k as int]@);
        push_text(out, ", ");
        push_expr(st, out, &i.constrs[k]);
        assert(out@ + render_list(names, i@.constrs, k as nat + 1) =~= before + render_list(
            names,
            i@.constrs,
            k as nat,
        ));
        k += 1;
    }
    assert(render_list(names, i@.constrs, k as nat) =~= Seq::<char>::empty());
    assert(out@ =~= head + render_list(names, i@.constrs, 0));
    push_text(out, ")");
    assert(out@ =~= old(out)@ + render_ind(names, i@));
}

impl State {
    /// The expression written out, the constants under their names.
    pub fn display(&self, e: &Expr) -> (text: Vec<char>)
        ensures
            text@ == render(self.names(), e@),
    {
        let mut out: Vec<char> = Vec::new();
        push_expr(self, &mut out, e);
        assert(out@ =~= render(self.names(), e@));
        out
    }
}

} // verus!
