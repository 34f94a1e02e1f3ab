//! The byte-size domain of the variance algebra: how many bytes an invariant
//! subtree always takes, or that its size varies.
use vstd::prelude::*;
use vstd::utf8::encode_utf8;
use crate::analysis::{archetype_text, literal_is_variant, wildcard_text};
use crate::platform::Policy;
use crate::component::Component;
use crate::tokenized::Tokenized;
use crate::tree::{coalesces, has_coalescing_pair};
use crate::token::{Alternative, Archetype, Class, Literal, Repetition, Separator, Token, TokenKind, Wildcard, is_exact};
use crate::variance::{Boundedness, Variance, union_bound};

verus! {

/// The pessimistic size of one character of a class: four bytes, the most
/// that UTF-8 takes for a code point.
pub const CLASS_CHAR_SIZE: usize = 4;

/// A size variance with the size as a natural number.
pub open spec fn size_view(v: Variance<usize>) -> Variance<nat> {
    match v {
        Variance::Invariant(n) => Variance::Invariant(n as nat),
        Variance::Variant(k) => Variance::Variant(k),
    }
}

/// Sequencing of sizes: invariant sizes add up.
pub open spec fn then_size(a: Variance<nat>, b: Variance<nat>) -> Variance<nat> {
    match (a, b) {
        (Variance::Invariant(x), Variance::Invariant(y)) => Variance::Invariant(x + y),
        (Variance::Invariant(_), Variance::Variant(k)) => Variance::Variant(k),
        (Variance::Variant(k), Variance::Invariant(_)) => Variance::Variant(k),
        (Variance::Variant(j), Variance::Variant(k)) => Variance::Variant(union_bound(j, k)),
    }
}

/// Disjunction of sizes: invariant only where both are the same size.
pub open spec fn either_size(a: Variance<nat>, b: Variance<nat>) -> Variance<nat> {
    match (a, b) {
        (Variance::Invariant(x), Variance::Invariant(y)) => if x == y {
            Variance::Invariant(x)
        } else {
            Variance::Variant(Boundedness::Closed)
        },
        (Variance::Invariant(_), Variance::Variant(k)) => Variance::Variant(k),
        (Variance::Variant(k), Variance::Invariant(_)) => Variance::Variant(k),
        (Variance::Variant(j), Variance::Variant(k)) => Variance::Variant(union_bound(j, k)),
    }
}

pub open spec fn times_size(v: Variance<nat>, n: nat) -> Variance<nat> {
    match v {
        Variance::Invariant(x) => Variance::Invariant(x * n),
        Variance::Variant(k) => Variance::Variant(k),
    }
}

/// Size variance of an archetype: where its text is invariant, its size is
/// taken as `CLASS_CHAR_SIZE`.
pub open spec fn archetype_size(a: Archetype, p: Policy) -> Variance<nat> {
    match archetype_text(a, p) {
        Variance::Invariant(_) => Variance::Invariant(CLASS_CHAR_SIZE as nat),
        Variance::Variant(k) => Variance::Variant(k),
    }
}

pub open spec fn archetypes_size(s: Seq<Archetype>, p: Policy) -> Variance<nat>
    decreases s.len(),
{
    if s.len() == 0 {
        Variance::Invariant(0)
    } else if s.len() == 1 {
        archetype_size(s[0], p)
    } else {
        either_size(archetypes_size(s.drop_last(), p), archetype_size(s.last(), p))
    }
}

pub open spec fn class_size(c: Class, p: Policy) -> Variance<nat> {
    if c.is_negated {
        Variance::Variant(Boundedness::Closed)
    } else {
        archetypes_size(c.archetypes@, p)
    }
}

pub open spec fn literal_size(l: Literal, p: Policy) -> Variance<nat> {
    if literal_is_variant(l, p) {
        Variance::Variant(Boundedness::Closed)
    } else {
        Variance::Invariant(encode_utf8(l.text@).len())
    }
}

pub open spec fn separator_size(p: Policy) -> nat {
    encode_utf8(seq![p.separator]).len()
}

pub open spec fn wildcard_size(w: Wildcard) -> Variance<nat> {
    match wildcard_text(w) {
        Variance::Invariant(_) => Variance::Invariant(0),
        Variance::Variant(k) => Variance::Variant(k),
    }
}

/// Size variance of one token.
pub open spec fn size_unit<A>(t: Token<A>, p: Policy) -> Variance<nat>
    decreases t, 0nat,
{
    match t.kind {
        TokenKind::Alternative(alt) => branches_size(alt.0@, p),
        TokenKind::Class(c) => class_size(c, p),
        TokenKind::Literal(l) => literal_size(l, p),
        TokenKind::Repetition(rep) => if is_exact(rep) {
            times_size(coalesced_size(rep.tokens@, p), rep.lower as nat)
        } else {
            Variance::Variant(Boundedness::Open)
        },
        TokenKind::Separator(_) => Variance::Invariant(separator_size(p)),
        TokenKind::Wildcard(w) => wildcard_size(w),
    }
}

/// Conjunctive size variance of a token sequence, from size zero.
pub open spec fn seq_size<A>(ts: Seq<Token<A>>, p: Policy) -> Variance<nat>
    decreases ts, 0nat,
{
    if ts.len() == 0 {
        Variance::Invariant(0)
    } else {
        then_size(seq_size(ts.drop_last(), p), size_unit(ts.last(), p))
    }
}

pub open spec fn branches_size<A>(bs: Seq<Vec<Token<A>>>, p: Policy) -> Variance<nat>
    decreases bs, 0nat,
{
    if bs.len() == 0 {
        Variance::Invariant(0)
    } else if bs.len() == 1 {
        seq_size(bs[0]@, p)
    } else {
        either_size(branches_size(bs.drop_last(), p), seq_size(bs.last()@, p))
    }
}

/// Conjunctive size variance of a repetition's tokens, once each `Separator`
/// next to a breadth-open unit is coalesced with it into one variant, open unit.
pub open spec fn coalesced_size<A>(ts: Seq<Token<A>>, p: Policy) -> Variance<nat>
    decreases ts, 1nat,
{
    if has_coalescing_pair(ts) {
        Variance::Variant(Boundedness::Open)
    } else {
        seq_size(ts, p)
    }
}

/// A bound on every size met while the size variance of `t` is computed.
pub open spec fn size_weight<A>(t: Token<A>, p: Policy) -> nat
    decreases t, 0nat,
{
    match t.kind {
        TokenKind::Alternative(alt) => branches_weight(alt.0@, p),
        TokenKind::Class(_) => CLASS_CHAR_SIZE as nat,
        TokenKind::Literal(l) => encode_utf8(l.text@).len(),
        TokenKind::Repetition(rep) => if is_exact(rep) {
            seq_weight(rep.tokens@, p) * if rep.lower == 0 {
                1
            } else {
                rep.lower as nat
            }
        } else {
            0
        },
        TokenKind::Separator(_) => separator_size(p),
        TokenKind::Wildcard(_) => 0,
    }
}

pub open spec fn seq_weight<A>(ts: Seq<Token<A>>, p: Policy) -> nat
    decreases ts, 0nat,
{
    if ts.len() == 0 {
        0
    } else {
        seq_weight(ts.drop_last(), p) + size_weight(ts.last(), p)
    }
}

pub open spec fn branches_weight<A>(bs: Seq<Vec<Token<A>>>, p: Policy) -> nat
    decreases bs, 0nat,
{
    if bs.len() == 0 {
        0
    } else {
        branches_weight(bs.drop_last(), p) + seq_weight(bs.last()@, p)
    }
}


proof fn lemma_archetypes_size(s: Seq<Archetype>, p: Policy)
    ensures
        archetypes_size(s, p) is Invariant ==> archetypes_size(s, p)->Invariant_0 <= CLASS_CHAR_SIZE,
    decreases s.len(),
{
    if s.len() > 1 {
        lemma_archetypes_size(s.drop_last(), p);
    }
}

/// Every invariant size is within the weight.
proof fn lemma_size_within_weight<A>(t: Token<A>, p: Policy)
    ensures
        size_unit(t, p) is Invariant ==> size_unit(t, p)->Invariant_0 <= size_weight(t, p),
    decreases t, 1nat,
{
    match t.kind {
        TokenKind::Alternative(alt) => lemma_branches_size_within_weight(alt.0@, p),
        TokenKind::Class(c) => lemma_archetypes_size(c.archetypes@, p),
        TokenKind::Repetition(rep) => {
            lemma_seq_size_within_weight(rep.tokens@, p);
            if is_exact(rep) && coalesced_size(rep.tokens@, p) is Invariant {
                let x = seq_size(rep.tokens@, p)->Invariant_0;
                let w = seq_weight(rep.tokens@, p);
                let n = rep.lower as nat;
                assert(x * n <= w * (if n == 0 { 1 } else { n })) by (nonlinear_arith)
                    requires
                        x <= w,
                ;
            }
        },
        _ => {},
    }
}

proof fn lemma_seq_size_within_weight<A>(ts: Seq<Token<A>>, p: Policy)
    ensures
        seq_size(ts, p) is Invariant ==> seq_size(ts, p)->Invariant_0 <= seq_weight(ts, p),
    decreases ts, 1nat,
{
    if ts.len() > 0 {
        lemma_seq_size_within_weight(ts.drop_last(), p);
        lemma_size_within_weight(ts.last(), p);
    }
}

proof fn lemma_branches_size_within_weight<A>(bs: Seq<Vec<Token<A>>>, p: Policy)
    ensures
        branches_size(bs, p) is Invariant ==> branches_size(bs, p)->Invariant_0 <= branches_weight(bs, p),
    decreases bs, 1nat,
{
    if bs.len() == 1 {
        lemma_seq_size_within_weight(bs[0]@, p);
        assert(bs.drop_last().len() == 0);
    } else if bs.len() > 1 {
        lemma_branches_size_within_weight(bs.drop_last(), p);
        lemma_seq_size_within_weight(bs.last()@, p);
    }
}

proof fn lemma_seq_weight_take<A>(ts: Seq<Token<A>>, i: int, p: Policy)
    requires
        0 <= i < ts.len(),
    ensures
        seq_weight(ts.take(i), p) + size_weight(ts[i], p) <= seq_weight(ts, p),
    decreases ts.len(),
{
    if i == ts.len() - 1 {
        assert(ts.take(i) == ts.drop_last());
    } else {
        lemma_seq_weight_take(ts.drop_last(), i, p);
        assert(ts.drop_last().take(i) == ts.take(i));
    }
}

proof fn lemma_branches_weight_take<A>(bs: Seq<Vec<Token<A>>>, i: int, p: Policy)
    requires
        0 <= i < bs.len(),
    ensures
        branches_weight(bs.take(i), p) + seq_weight(bs[i]@, p) <= branches_weight(bs, p),
    decreases bs.len(),
{
    if i == bs.len() - 1 {
        assert(bs.take(i) == bs.drop_last());
    } else {
        lemma_branches_weight_take(bs.drop_last(), i, p);
        assert(bs.drop_last().take(i) == bs.take(i));
    }
}

fn then_size_exec(a: Variance<usize>, b: Variance<usize>) -> (r: Variance<usize>)
    requires
        a is Invariant && b is Invariant ==> a->Invariant_0 + b->Invariant_0 <= usize::MAX,
    ensures
        size_view(r) == then_size(size_view(a), size_view(b)),
{
    match (a, b) {
        (Variance::Invariant(x), Variance::Invariant(y)) => Variance::Invariant(x + y),
        (Variance::Invariant(_), Variance::Variant(k)) => Variance::Variant(k),
        (Variance::Variant(k), Variance::Invariant(_)) => Variance::Variant(k),
        (Variance::Variant(j), Variance::Variant(k)) => {
            if j.is_closed() && k.is_closed() {
                Variance::Variant(Boundedness::Closed)
            } else {
                Variance::Variant(Boundedness::Open)
            }
        },
    }
}

fn either_size_exec(a: Variance<usize>, b: Variance<usize>) -> (r: Variance<usize>)
    ensures
        size_view(r) == either_size(size_view(a), size_view(b)),
{
    match (a, b) {
        (Variance::Invariant(x), Variance::Invariant(y)) => {
            if x == y {
                Variance::Invariant(x)
            } else {
                Variance::Variant(Boundedness::Closed)
            }
        },
        (Variance::Invariant(_), Variance::Variant(k)) => Variance::Variant(k),
        (Variance::Variant(k), Variance::Invariant(_)) => Variance::Variant(k),
        (Variance::Variant(j), Variance::Variant(k)) => {
            if j.is_closed() && k.is_closed() {
                Variance::Variant(Boundedness::Closed)
            } else {
                Variance::Variant(Boundedness::Open)
            }
        },
    }
}

impl Archetype {
    pub fn size_variance(&self, policy: Policy) -> (r: Variance<usize>)
        ensures
            size_view(r) == archetype_size(*self, policy),
    {
        match self.variance(policy) {
            Variance::Invariant(_) => Variance::Invariant(CLASS_CHAR_SIZE),
            Variance::Variant(k) => Variance::Variant(k),
        }
    }
}

impl Class {
    pub fn size_variance(&self, policy: Policy) -> (r: Variance<usize>)
        ensures
            size_view(r) == class_size(*self, policy),
    {
        if self.is_negated {
            return Variance::Variant(Boundedness::Closed);
        }
        let ghost s = self.archetypes@;
        let n = self.archetypes.len();
        if n == 0 {
            return Variance::Invariant(0);
        }
        let mut acc = self.archetypes[0].size_variance(policy);
        let mut i: usize = 1;
        assert(s.take(1).drop_last() =~= Seq::<Archetype>::empty());
        while i < n
            invariant
                s == self.archetypes@,
                n == s.len(),
                1 <= i <= n,
                size_view(acc) == archetypes_size(s.take(i as int), policy),
            decreases n - i,
        {
            assert(s.take(i + 1).drop_last() == s.take(i as int));
            let v = self.archetypes[i].size_variance(policy);
            acc = either_size_exec(acc, v);
            i += 1;
        }
        assert(s.take(n as int) == s);
        acc
    }
}

impl Literal {
    pub fn size_variance(&self, policy: Policy) -> (r: Variance<usize>)
        ensures
            size_view(r) == literal_size(*self, policy),
    {
        if self.has_variant_casing(policy) {
            Variance::Variant(Boundedness::Closed)
        } else {
            Variance::Invariant(self.text.as_str().as_bytes().len())
        }
    }
}

impl Separator {
    pub fn size_variance(&self, policy: Policy) -> (r: Variance<usize>)
        ensures
            size_view(r) == Variance::<nat>::Invariant(separator_size(policy)),
    {
        let text = policy.separator_text();
        Variance::Invariant(text.as_str().as_bytes().len())
    }
}

impl<A> Token<A> {
    pub fn size_variance(&self, policy: Policy) -> (r: Variance<usize>)
        requires
            size_weight(*self, policy) <= usize::MAX,
        ensures
            size_view(r) == size_unit(*self, policy),
        decreases self,
    {
        match &self.kind {
            TokenKind::Alternative(alternative) => alternative.size_variance(policy),
            TokenKind::Class(class) => class.size_variance(policy),
            TokenKind::Literal(literal) => literal.size_variance(policy),
            TokenKind::Repetition(repetition) => repetition.size_variance(policy),
            TokenKind::Separator(separator) => separator.size_variance(policy),
            TokenKind::Wildcard(Wildcard::Tree { .. }) => Variance::Variant(Boundedness::Open),
            TokenKind::Wildcard(_) => Variance::Variant(Boundedness::Closed),
        }
    }
}

/// Conjunctive size variance of a token sequence.
pub fn conjunctive_size_variance<A>(tokens: &Vec<Token<A>>, policy: Policy) -> (r: Variance<usize>)
    requires
        seq_weight(tokens@, policy) <= usize::MAX,
    ensures
        size_view(r) == seq_size(tokens@, policy),
    decreases tokens,
{
    let ghost ts = tokens@;
    let mut acc = Variance::Invariant(0usize);
    let mut i: usize = 0;
    while i < tokens.len()
        invariant
            ts == tokens@,
            i <= ts.len(),
            seq_weight(ts, policy) <= usize::MAX,
            size_view(acc) == seq_size(ts.take(i as int), policy),
        decreases tokens.len() - i,
    {
        assert(ts.take(i + 1).drop_last() == ts.take(i as int));
        proof {
            lemma_seq_weight_take(ts, i as int, policy);
            lemma_seq_size_within_weight(ts.take(i as int), policy);
            lemma_size_within_weight(ts[i as int], policy);
        }
        let v = tokens[i].size_variance(policy);
        acc = then_size_exec(acc, v);
        i += 1;
    }
    assert(ts.take(i as int) == ts);
    acc
}

impl<A> Alternative<A> {
    pub fn size_variance(&self, policy: Policy) -> (r: Variance<usize>)
        requires
            branches_weight(self.0@, policy) <= usize::MAX,
        ensures
            size_view(r) == branches_size(self.0@, policy),
        decreases self,
    {
        let ghost bs = self.0@;
        let n = self.0.len();
        if n == 0 {
            return Variance::Invariant(0);
        }
        proof {
            lemma_branches_weight_take(bs, 0, policy);
        }
        let mut acc = conjunctive_size_variance(&self.0[0], policy);
        let mut i: usize = 1;
        while i < n
            invariant
                bs == self.0@,
                n == bs.len(),
                1 <= i <= n,
                branches_weight(bs, policy) <= usize::MAX,
                size_view(acc) == branches_size(bs.take(i as int), policy),
            decreases n - i,
        {
            assert(bs.take(i + 1).drop_last() == bs.take(i as int));
            proof {
                lemma_branches_weight_take(bs, i as int, policy);
            }
            let v = conjunctive_size_variance(&self.0[i], policy);
            acc = either_size_exec(acc, v);
            i += 1;
        }
        assert(bs.take(n as int) == bs);
        acc
    }
}

impl<A> Repetition<A> {
    pub fn size_variance(&self, policy: Policy) -> (r: Variance<usize>)
        requires
            is_exact(*self) ==> seq_weight(self.tokens@, policy) * (if self.lower == 0 {
                1
            } else {
                self.lower as nat
            }) <= usize::MAX,
        ensures
            size_view(r) == (if is_exact(*self) {
                times_size(coalesced_size(self.tokens@, policy), self.lower as nat)
            } else {
                Variance::Variant(Boundedness::Open)
            }),
        decreases self,
    {
        match self.upper {
            Some(upper) if upper == self.lower => {
                if coalesces(&self.tokens) {
                    return Variance::Variant(Boundedness::Open);
                }
                let ghost w = seq_weight(self.tokens@, policy);
                let ghost n = self.lower as nat;
                assert(w <= w * (if n == 0 { 1 } else { n })) by (nonlinear_arith);
                proof {
                    lemma_seq_size_within_weight(self.tokens@, policy);
                }
                match conjunctive_size_variance(&self.tokens, policy) {
                    Variance::Invariant(x) => {
                        assert(x * n <= w * (if n == 0 { 1 } else { n })) by (nonlinear_arith)
                            requires
                                x <= w,
                        ;
                        Variance::Invariant(x * self.lower)
                    },
                    Variance::Variant(k) => Variance::Variant(k),
                }
            },
            _ => Variance::Variant(Boundedness::Open),
        }
    }
}


impl<A> Tokenized<A> {
    /// Conjunctive size variance of the whole token sequence.
    pub fn size_variance(&self, policy: Policy) -> (r: Variance<usize>)
        requires
            seq_weight(self.tokens@, policy) <= usize::MAX,
        ensures
            size_view(r) == seq_size(self.tokens@, policy),
    {
        conjunctive_size_variance(&self.tokens, policy)
    }
}


impl<'i, A> Component<'i, A> {
    /// Conjunctive size variance of the component's tokens.
    pub fn size_variance(&self, policy: Policy) -> (r: Variance<usize>)
        requires
            seq_weight(self@, policy) <= usize::MAX,
        ensures
            size_view(r) == seq_size(self@, policy),
    {
        let ghost ts = self@;
        let mut acc = Variance::Invariant(0usize);
        let mut i: usize = 0;
        while i < self.0.len()
            invariant
                ts == self@,
                ts.len() == self.0@.len(),
                i <= ts.len(),
                seq_weight(ts, policy) <= usize::MAX,
                size_view(acc) == seq_size(ts.take(i as int), policy),
            decreases self.0.len() - i,
        {
            assert(ts.take(i + 1).drop_last() == ts.take(i as int));
            assert(ts[i as int] == *self.0@[i as int]);
            proof {
                lemma_seq_weight_take(ts, i as int, policy);
                lemma_seq_size_within_weight(ts.take(i as int), policy);
                lemma_size_within_weight(ts[i as int], policy);
            }
            let v = self.0[i].size_variance(policy);
            acc = then_size_exec(acc, v);
            i += 1;
        }
        assert(ts.take(i as int) == ts);
        acc
    }
}

} // verus!
