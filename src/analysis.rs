//! Textual variance of tokens: whether a subtree always matches one fixed text.
use vstd::prelude::*;
use crate::platform::{has_casing, text_has_casing, Policy};
use crate::token::{Alternative, Archetype, Class, Literal, Repetition, Separator, Token, TokenKind, Wildcard, is_exact};
use crate::tree::{coalesces, has_coalescing_pair};
use crate::variance::{
    Boundedness, Variance, disjunction, either_text, either_text_exec, then_text, then_text_exec,
    times_text, times_text_exec,
};

verus! {

/// Textual variance of one archetype of a character class.
pub open spec fn archetype_text(a: Archetype, p: Policy) -> Variance<Seq<char>> {
    match a {
        Archetype::Character(c) => if p.case_insensitive {
            Variance::Variant(Boundedness::Closed)
        } else {
            Variance::Invariant(seq![c])
        },
        Archetype::Range(x, y) => if x != y || p.case_insensitive {
            Variance::Variant(Boundedness::Closed)
        } else {
            Variance::Invariant(seq![x])
        },
    }
}

/// Textual variance of a character class: a negated class is never invariant.
pub open spec fn class_text(c: Class, p: Policy) -> Variance<Seq<char>> {
    if c.is_negated {
        Variance::Variant(Boundedness::Closed)
    } else {
        disjunction(c.archetypes@.map_values(|a: Archetype| archetype_text(a, p)), p)
    }
}

/// A literal is variant when its case sensitivity differs from the policy's
/// and its text has characters with casing.
pub open spec fn literal_is_variant(l: Literal, p: Policy) -> bool {
    p.case_insensitive != l.is_case_insensitive && has_casing(l.text@)
}

pub open spec fn literal_text(l: Literal, p: Policy) -> Variance<Seq<char>> {
    if literal_is_variant(l, p) {
        Variance::Variant(Boundedness::Closed)
    } else {
        Variance::Invariant(l.text@)
    }
}

pub open spec fn wildcard_text(w: Wildcard) -> Variance<Seq<char>> {
    match w {
        Wildcard::Tree { .. } => Variance::Variant(Boundedness::Open),
        _ => Variance::Variant(Boundedness::Closed),
    }
}

/// Textual variance of one token.
pub open spec fn text_unit<A>(t: Token<A>, p: Policy) -> Variance<Seq<char>>
    decreases t, 1nat,
{
    kind_text(t.kind, p)
}

/// Textual variance of one token, by its kind.
pub open spec fn kind_text<A>(k: TokenKind<A>, p: Policy) -> Variance<Seq<char>>
    decreases k, 0nat,
{
    match k {
        TokenKind::Alternative(alt) => branches_text(alt.0@, p),
        TokenKind::Class(c) => class_text(c, p),
        TokenKind::Literal(l) => literal_text(l, p),
        TokenKind::Repetition(rep) => if is_exact(rep) {
            times_text(coalesced_text(rep.tokens@, p), rep.lower as nat)
        } else {
            Variance::Variant(Boundedness::Open)
        },
        TokenKind::Separator(_) => Variance::Invariant(seq![p.separator]),
        TokenKind::Wildcard(w) => wildcard_text(w),
    }
}

/// Conjunctive textual variance of a token sequence: the left fold of
/// sequencing over its units, from the empty text.
pub open spec fn seq_text<A>(ts: Seq<Token<A>>, p: Policy) -> Variance<Seq<char>>
    decreases ts, 0nat,
{
    if ts.len() == 0 {
        Variance::Invariant(Seq::empty())
    } else {
        then_text(seq_text(ts.drop_last(), p), text_unit(ts.last(), p))
    }
}

/// Conjunctive textual variance of a repetition's tokens, once each
/// `Separator` next to a breadth-open unit is coalesced with it into one
/// variant, open unit.
pub open spec fn coalesced_text<A>(ts: Seq<Token<A>>, p: Policy) -> Variance<Seq<char>>
    decreases ts, 1nat,
{
    if has_coalescing_pair(ts) {
        Variance::Variant(Boundedness::Open)
    } else {
        seq_text(ts, p)
    }
}

/// Disjunctive textual variance of branches.
pub open spec fn branches_text<A>(bs: Seq<Vec<Token<A>>>, p: Policy) -> Variance<Seq<char>>
    decreases bs, 0nat,
{
    if bs.len() == 0 {
        Variance::Invariant(Seq::empty())
    } else if bs.len() == 1 {
        seq_text(bs[0]@, p)
    } else {
        either_text(branches_text(bs.drop_last(), p), seq_text(bs.last()@, p), p)
    }
}

impl Archetype {
    pub fn variance(&self, policy: Policy) -> (r: Variance<String>)
        ensures
            r@ == archetype_text(*self, policy),
    {
        match self {
            Archetype::Character(c) => {
                if policy.case_insensitive {
                    Variance::Variant(Boundedness::Closed)
                } else {
                    Variance::Invariant(crate::platform::char_to_string(*c))
                }
            },
            Archetype::Range(x, y) => {
                if *x != *y || policy.case_insensitive {
                    Variance::Variant(Boundedness::Closed)
                } else {
                    Variance::Invariant(crate::platform::char_to_string(*x))
                }
            },
        }
    }
}

impl Class {
    pub fn archetypes(&self) -> (r: &[Archetype])
        ensures
            r@ == self.archetypes@,
    {
        self.archetypes.as_slice()
    }

    pub fn is_negated(&self) -> (r: bool)
        ensures
            r == self.is_negated,
    {
        self.is_negated
    }

    pub fn variance(&self, policy: Policy) -> (r: Variance<String>)
        ensures
            r@ == class_text(*self, policy),
    {
        if self.is_negated {
            return Variance::Variant(Boundedness::Closed);
        }
        let ghost vs = self.archetypes@.map_values(|a: Archetype| archetype_text(a, policy));
        let n = self.archetypes.len();
        if n == 0 {
            return Variance::Invariant(String::new());
        }
        let mut acc = self.archetypes[0].variance(policy);
        let mut i: usize = 1;
        assert(vs.take(1).drop_last() =~= Seq::<Variance<Seq<char>>>::empty());
        while i < n
            invariant
                n == self.archetypes@.len(),
                vs == self.archetypes@.map_values(|a: Archetype| archetype_text(a, policy)),
                1 <= i <= n,
                acc@ == disjunction(vs.take(i as int), policy),
            decreases n - i,
        {
            assert(vs.take(i + 1).drop_last() == vs.take(i as int));
            let v = self.archetypes[i].variance(policy);
            acc = either_text_exec(acc, v, policy);
            i += 1;
        }
        assert(vs.take(n as int) == vs);
        acc
    }
}

impl Literal {
    pub fn text(&self) -> (r: &str)
        ensures
            r@ == self.text@,
    {
        self.text.as_str()
    }

    pub fn is_case_insensitive(&self) -> (r: bool)
        ensures
            r == self.is_case_insensitive,
    {
        self.is_case_insensitive
    }

    /// Whether the literal's case sensitivity disagrees with the policy on a
    /// text that has characters with casing.
    pub fn has_variant_casing(&self, policy: Policy) -> (r: bool)
        ensures
            r == literal_is_variant(*self, policy),
    {
        policy.case_insensitive != self.is_case_insensitive && text_has_casing(self.text.as_str())
    }

    pub fn variance(&self, policy: Policy) -> (r: Variance<String>)
        ensures
            r@ == literal_text(*self, policy),
    {
        if self.has_variant_casing(policy) {
            Variance::Variant(Boundedness::Closed)
        } else {
            Variance::Invariant(self.text.clone())
        }
    }
}

impl Separator {
    /// The platform's path separator as text.
    pub fn invariant_text() -> (r: String)
        ensures
            r@ == seq!['/'] || r@ == seq!['\\'],
    {
        Policy::native(false).separator_text()
    }

    pub fn variance(&self, policy: Policy) -> (r: Variance<String>)
        ensures
            r@ == Variance::Invariant(seq![policy.separator]),
    {
        Variance::Invariant(policy.separator_text())
    }
}

impl<A> Token<A> {
    pub fn variance(&self, policy: Policy) -> (r: Variance<String>)
        ensures
            r@ == text_unit(*self, policy),
        decreases self,
    {
        self.kind.variance(policy)
    }
}

impl<A> TokenKind<A> {
    pub fn variance(&self, policy: Policy) -> (r: Variance<String>)
        ensures
            r@ == kind_text(*self, policy),
        decreases self,
    {
        match self {
            TokenKind::Alternative(alternative) => alternative.variance(policy),
            TokenKind::Class(class) => class.variance(policy),
            TokenKind::Literal(literal) => literal.variance(policy),
            TokenKind::Repetition(repetition) => repetition.variance(policy),
            TokenKind::Separator(separator) => separator.variance(policy),
            TokenKind::Wildcard(Wildcard::Tree { .. }) => Variance::Variant(Boundedness::Open),
            TokenKind::Wildcard(_) => Variance::Variant(Boundedness::Closed),
        }
    }
}

/// Conjunctive textual variance of a token sequence.
pub fn conjunctive_variance<A>(tokens: &Vec<Token<A>>, policy: Policy) -> (r: Variance<String>)
    ensures
        r@ == seq_text(tokens@, policy),
    decreases tokens,
{
    let mut acc = Variance::Invariant(String::new());
    let mut i: usize = 0;
    while i < tokens.len()
        invariant
            i <= tokens@.len(),
            acc@ == seq_text(tokens@.take(i as int), policy),
        decreases tokens.len() - i,
    {
        assert(tokens@.take(i + 1).drop_last() == tokens@.take(i as int));
        let v = tokens[i].variance(policy);
        acc = then_text_exec(acc, v);
        i += 1;
    }
    assert(tokens@.take(i as int) == tokens@);
    acc
}

impl<A> Alternative<A> {
    pub fn branches(&self) -> (r: &Vec<Vec<Token<A>>>)
        ensures
            r == self.0,
    {
        &self.0
    }

    /// Disjunctive variance of the branches' conjunctive variances.
    pub fn variance(&self, policy: Policy) -> (r: Variance<String>)
        ensures
            r@ == branches_text(self.0@, policy),
        decreases self,
    {
        let n = self.0.len();
        if n == 0 {
            return Variance::Invariant(String::new());
        }
        let mut acc = conjunctive_variance(&self.0[0], policy);
        let mut i: usize = 1;
        while i < n
            invariant
                n == self.0@.len(),
                1 <= i <= n,
                acc@ == branches_text(self.0@.take(i as int), policy),
            decreases n - i,
        {
            assert(self.0@.take(i + 1).drop_last() == self.0@.take(i as int));
            let v = conjunctive_variance(&self.0[i], policy);
            acc = either_text_exec(acc, v, policy);
            i += 1;
        }
        assert(self.0@.take(n as int) == self.0@);
        acc
    }
}

impl<A> Repetition<A> {
    /// An exact repetition multiplies its tokens' coalesced conjunctive
    /// variance by its count; any other is variant and open.
    pub fn variance(&self, policy: Policy) -> (r: Variance<String>)
        ensures
            r@ == (if is_exact(*self) {
                times_text(coalesced_text(self.tokens@, policy), self.lower as nat)
            } else {
                Variance::Variant(Boundedness::Open)
            }),
        decreases self,
    {
        match self.upper {
            Some(upper) if upper == self.lower => {
                if coalesces(&self.tokens) {
                    Variance::Variant(Boundedness::Open)
                } else {
                    let v = conjunctive_variance(&self.tokens, policy);
                    times_text_exec(v, self.lower)
                }
            },
            _ => Variance::Variant(Boundedness::Open),
        }
    }
}

} // verus!
