//! Whole patterns, and their split into an invariant prefix and a remainder.
use vstd::prelude::*;
use crate::analysis::{conjunctive_variance, seq_text, text_unit};
use crate::platform::Policy;
use crate::token::{Token, TokenKind, Wildcard};
use crate::variance::Variance;

verus! {

/// A pattern: its expression text and its root-level token sequence.
#[derive(Debug)]
pub struct Tokenized<A> {
    pub expression: String,
    pub tokens: Vec<Token<A>>,
}

/// Types that hand over a token sequence.
pub trait IntoTokens: Sized {
    type Annotation;

    fn into_tokens(self) -> Vec<Token<Self::Annotation>>;
}

impl<A> IntoTokens for Tokenized<A> {
    type Annotation = A;

    fn into_tokens(self) -> Vec<Token<A>> {
        self.tokens
    }
}

/// The number of leading tokens whose own textual variance is invariant.
pub open spec fn invariant_prefix_len<A>(ts: Seq<Token<A>>, p: Policy) -> nat
    decreases ts.len(),
{
    if ts.len() == 0 {
        0
    } else if text_unit(ts[0], p) is Variant {
        0
    } else {
        1 + invariant_prefix_len(ts.drop_first(), p)
    }
}

/// The concatenated invariant texts of the units of `ts`.
pub open spec fn units_text<A>(ts: Seq<Token<A>>, p: Policy) -> Seq<char>
    decreases ts.len(),
{
    if ts.len() == 0 {
        Seq::empty()
    } else {
        units_text(ts.drop_last(), p) + text_unit(ts.last(), p)->Invariant_0
    }
}

/// The invariant text that a pattern's leading tokens fix.
pub open spec fn invariant_prefix_text<A>(ts: Seq<Token<A>>, p: Policy) -> Seq<char> {
    units_text(ts.take(invariant_prefix_len(ts, p) as int), p)
}

/// The token with a `Tree` wildcard's root flag cleared.
pub open spec fn unrooted<A>(t: Token<A>) -> Token<A> {
    match t.kind {
        TokenKind::Wildcard(Wildcard::Tree { .. }) => Token {
            kind: TokenKind::Wildcard(Wildcard::Tree { has_root: false }),
            annotation: t.annotation,
        },
        _ => t,
    }
}

/// What remains of a pattern once its invariant prefix is taken off.
pub open spec fn remainder<A>(ts: Seq<Token<A>>, p: Policy) -> Seq<Token<A>> {
    let rest = ts.skip(invariant_prefix_len(ts, p) as int);
    if rest.len() == 0 {
        rest
    } else {
        rest.update(0, unrooted(rest[0]))
    }
}

pub proof fn lemma_invariant_prefix_len<A>(ts: Seq<Token<A>>, p: Policy)
    ensures
        invariant_prefix_len(ts, p) <= ts.len(),
        forall|i: int| 0 <= i < invariant_prefix_len(ts, p) ==> #[trigger] text_unit(ts[i], p) is Invariant,
        invariant_prefix_len(ts, p) < ts.len() ==> text_unit(ts[invariant_prefix_len(ts, p) as int], p) is Variant,
    decreases ts.len(),
{
    if ts.len() > 0 && text_unit(ts[0], p) is Invariant {
        lemma_invariant_prefix_len(ts.drop_first(), p);
        assert forall|i: int| 0 <= i < invariant_prefix_len(ts, p) implies #[trigger] text_unit(ts[i], p) is Invariant by {
            if i > 0 {
                assert(ts[i] == ts.drop_first()[i - 1]);
            }
        }
    }
}

/// The number of leading tokens whose own textual variance is invariant.
pub fn invariant_text_prefix_upper_bound<A>(tokens: &Vec<Token<A>>, policy: Policy) -> (r: usize)
    ensures
        r == invariant_prefix_len(tokens@, policy),
{
    proof {
        lemma_invariant_prefix_len(tokens@, policy);
    }
    let mut i: usize = 0;
    while i < tokens.len()
        invariant
            i <= tokens@.len(),
            i <= invariant_prefix_len(tokens@, policy),
            invariant_prefix_len(tokens@, policy) <= tokens@.len(),
            forall|j: int| 0 <= j < invariant_prefix_len(tokens@, policy) ==> #[trigger] text_unit(tokens@[j], policy) is Invariant,
            invariant_prefix_len(tokens@, policy) < tokens@.len() ==> text_unit(
                tokens@[invariant_prefix_len(tokens@, policy) as int],
                policy,
            ) is Variant,
        decreases tokens.len() - i,
    {
        let v = tokens[i].variance(policy);
        if v.is_variant() {
            return i;
        }
        i += 1;
    }
    i
}

/// The invariant text fixed by the leading tokens of `tokens`: everything the
/// conjunctive fold accumulates before the first token whose own variance is
/// variant.
pub fn invariant_text_prefix<A>(tokens: &Vec<Token<A>>, policy: Policy) -> (r: String)
    ensures
        r@ == invariant_prefix_text(tokens@, policy),
{
    proof {
        lemma_invariant_prefix_len(tokens@, policy);
    }
    let ghost k = invariant_prefix_len(tokens@, policy) as int;
    let mut r = String::new();
    let mut i: usize = 0;
    while i < tokens.len()
        invariant
            i <= k,
            k <= tokens@.len(),
            k == invariant_prefix_len(tokens@, policy),
            forall|j: int| 0 <= j < k ==> #[trigger] text_unit(tokens@[j], policy) is Invariant,
            k < tokens@.len() ==> text_unit(tokens@[k], policy) is Variant,
            r@ == units_text(tokens@.take(i as int), policy),
        decreases tokens.len() - i,
    {
        assert(tokens@.take(i + 1).drop_last() == tokens@.take(i as int));
        let v = tokens[i].variance(policy);
        match v {
            Variance::Invariant(text) => {
                r = r.concat(text.as_str());
            },
            Variance::Variant(_) => {
                return r;
            },
        }
        i += 1;
    }
    r
}

impl<A> Tokenized<A> {
    pub fn new(expression: String, tokens: Vec<Token<A>>) -> (r: Self)
        ensures
            r.expression == expression,
            r.tokens == tokens,
    {
        Tokenized { expression, tokens }
    }

    /// Text is already owned: the pattern is returned as it is.
    pub fn into_owned(self) -> (r: Self)
        ensures
            r == self,
    {
        self
    }

    pub fn expression(&self) -> (r: &String)
        ensures
            r == self.expression,
    {
        &self.expression
    }

    pub fn tokens(&self) -> (r: &[Token<A>])
        ensures
            r@ == self.tokens@,
    {
        self.tokens.as_slice()
    }

    /// Conjunctive textual variance of the whole token sequence.
    pub fn variance(&self, policy: Policy) -> (r: Variance<String>)
        ensures
            r@ == seq_text(self.tokens@, policy),
    {
        conjunctive_variance(&self.tokens, policy)
    }

    /// Splits the pattern into the text that its leading invariant tokens fix
    /// and the pattern that remains; a `Tree` wildcard that then leads the
    /// remainder loses its root flag, which the prefix has absorbed.
    pub fn partition(self, policy: Policy) -> (r: (String, Self))
        ensures
            r.0@ == invariant_prefix_text(self.tokens@, policy),
            r.1.expression == self.expression,
            r.1.tokens@ == remainder(self.tokens@, policy),
    {
        let prefix = invariant_text_prefix(&self.tokens, policy);
        let k = invariant_text_prefix_upper_bound(&self.tokens, policy);
        proof {
            lemma_invariant_prefix_len(self.tokens@, policy);
        }
        let Tokenized { expression, mut tokens } = self;
        let mut rest = tokens.split_off(k);
        if rest.len() > 0 {
            let mut first = rest.remove(0);
            first.unroot();
            rest.insert(0, first);
            proof {
                assert(rest@ =~= remainder(self.tokens@, policy));
            }
        } else {
            assert(rest@ =~= remainder(self.tokens@, policy));
        }
        (prefix, Tokenized { expression, tokens: rest })
    }
}

} // verus!
