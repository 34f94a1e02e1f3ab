//! The variance algebra: sequencing, disjunction and repetition of
//! invariant values and variant families.
use vstd::prelude::*;
use crate::platform::Policy;

verus! {

/// Whether a variant property has a fixed (`Closed`) or unbounded (`Open`) extent.
#[derive(Clone, Copy, Debug, PartialEq, Eq, Structural)]
pub enum Boundedness {
    Closed,
    Open,
}

impl Boundedness {
    pub fn is_open(&self) -> (r: bool)
        ensures
            r == (*self == Boundedness::Open),
    {
        matches!(self, Boundedness::Open)
    }

    pub fn is_closed(&self) -> (r: bool)
        ensures
            r == (*self == Boundedness::Closed),
    {
        matches!(self, Boundedness::Closed)
    }
}

/// Either one fixed value (`Invariant`) or a family of values (`Variant`).
#[derive(Clone, Debug)]
pub enum Variance<T> {
    Invariant(T),
    Variant(Boundedness),
}

impl<T: View> View for Variance<T> {
    type V = Variance<T::V>;

    open spec fn view(&self) -> Variance<T::V> {
        match self {
            Variance::Invariant(x) => Variance::Invariant(x@),
            Variance::Variant(b) => Variance::Variant(*b),
        }
    }
}

/// `Open` if either side is `Open`, else `Closed`.
pub open spec fn union_bound(a: Boundedness, b: Boundedness) -> Boundedness {
    if a == Boundedness::Closed && b == Boundedness::Closed {
        Boundedness::Closed
    } else {
        Boundedness::Open
    }
}

/// Sequencing of two textual variances: invariant texts concatenate, and any
/// variant side makes the whole variant.
pub open spec fn then_text(a: Variance<Seq<char>>, b: Variance<Seq<char>>) -> Variance<Seq<char>> {
    match (a, b) {
        (Variance::Invariant(x), Variance::Invariant(y)) => Variance::Invariant(x + y),
        (Variance::Invariant(_), Variance::Variant(k)) => Variance::Variant(k),
        (Variance::Variant(k), Variance::Invariant(_)) => Variance::Variant(k),
        (Variance::Variant(j), Variance::Variant(k)) => Variance::Variant(union_bound(j, k)),
    }
}

/// Disjunction of two textual variances: invariant only where both are
/// invariant texts that the policy takes for the same.
pub open spec fn either_text(a: Variance<Seq<char>>, b: Variance<Seq<char>>, p: Policy) -> Variance<Seq<char>> {
    match (a, b) {
        (Variance::Invariant(x), Variance::Invariant(y)) => if p.same_text(x, y) {
            Variance::Invariant(x)
        } else {
            Variance::Variant(Boundedness::Closed)
        },
        (Variance::Invariant(_), Variance::Variant(k)) => Variance::Variant(k),
        (Variance::Variant(k), Variance::Invariant(_)) => Variance::Variant(k),
        (Variance::Variant(j), Variance::Variant(k)) => Variance::Variant(union_bound(j, k)),
    }
}

/// Fold of `either_text` over branches; no branch at all is the empty text.
pub open spec fn disjunction(vs: Seq<Variance<Seq<char>>>, p: Policy) -> Variance<Seq<char>>
    decreases vs.len(),
{
    if vs.len() == 0 {
        Variance::Invariant(Seq::empty())
    } else if vs.len() == 1 {
        vs[0]
    } else {
        either_text(disjunction(vs.drop_last(), p), vs.last(), p)
    }
}

/// `x` repeated `n` times.
pub open spec fn repeat_text(x: Seq<char>, n: nat) -> Seq<char>
    decreases n,
{
    if n == 0 {
        Seq::empty()
    } else {
        repeat_text(x, (n - 1) as nat) + x
    }
}

pub fn then_text_exec(a: Variance<String>, b: Variance<String>) -> (r: Variance<String>)
    ensures
        r@ == then_text(a@, b@),
{
    match (a, b) {
        (Variance::Invariant(x), Variance::Invariant(y)) => {
            let z = x.concat(y.as_str());
            Variance::Invariant(z)
        },
        (Variance::Invariant(_), Variance::Variant(k)) => Variance::Variant(k),
        (Variance::Variant(k), Variance::Invariant(_)) => Variance::Variant(k),
        (Variance::Variant(j), Variance::Variant(k)) => {
            if j.is_closed() && k.is_closed() {
                Variance::Variant(Boundedness::Closed)
            } else {
                Variance::Variant(Boundedness::Open)
            }
        },
    }
}


pub fn either_text_exec(a: Variance<String>, b: Variance<String>, policy: Policy) -> (r: Variance<String>)
    ensures
        r@ == either_text(a@, b@, policy),
{
    match (a, b) {
        (Variance::Invariant(x), Variance::Invariant(y)) => {
            if policy.texts_agree(&x, &y) {
                Variance::Invariant(x)
            } else {
                Variance::Variant(Boundedness::Closed)
            }
        },
        (Variance::Invariant(_), Variance::Variant(k)) => Variance::Variant(k),
        (Variance::Variant(k), Variance::Invariant(_)) => Variance::Variant(k),
        (Variance::Variant(j), Variance::Variant(k)) => {
            if j.is_closed() && k.is_closed() {
                Variance::Variant(Boundedness::Closed)
            } else {
                Variance::Variant(Boundedness::Open)
            }
        },
    }
}

/// `x` repeated `n` times.
pub fn repeat_string(x: &String, n: usize) -> (r: String)
    ensures
        r@ == repeat_text(x@, n as nat),
{
    let mut r = String::new();
    let mut i: usize = 0;
    while i < n
        invariant
            i <= n,
            r@ == repeat_text(x@, i as nat),
        decreases n - i,
    {
        r = r.concat(x.as_str());
        i += 1;
    }
    r
}

/// Multiplication of a textual variance by `n`: an invariant text is repeated,
/// a variant is unaffected.
pub open spec fn times_text(v: Variance<Seq<char>>, n: nat) -> Variance<Seq<char>> {
    match v {
        Variance::Invariant(x) => Variance::Invariant(repeat_text(x, n)),
        Variance::Variant(k) => Variance::Variant(k),
    }
}

pub fn times_text_exec(v: Variance<String>, n: usize) -> (r: Variance<String>)
    ensures
        r@ == times_text(v@, n as nat),
{
    match v {
        Variance::Invariant(x) => Variance::Invariant(repeat_string(&x, n)),
        Variance::Variant(k) => Variance::Variant(k),
    }
}

impl<T> Variance<T> {
    pub fn is_invariant(&self) -> (r: bool)
        ensures
            r == (self is Invariant),
    {
        matches!(self, Variance::Invariant(_))
    }

    pub fn is_variant(&self) -> (r: bool)
        ensures
            r == (self is Variant),
    {
        matches!(self, Variance::Variant(_))
    }
}

} // verus!
