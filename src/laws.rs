//! Laws of the variance analysis, stated over the spec functions that the
//! executable functions' contracts use.
use vstd::prelude::*;
use crate::analysis::{branches_text, coalesced_text, literal_text, seq_text, text_unit};
use crate::platform::{has_casing, Policy};
use crate::token::{Class, Literal, Repetition, Token, TokenKind, Wildcard};
use crate::tree::{
    breadth_of, branch_leaves, has_breadth_open_leaf, has_coalescing_pair, is_coalescing_pair, is_tree_kind, leaves,
    seq_leaves,
};
use crate::tokenized::{remainder, units_text, Tokenized};
use crate::size::{branches_size, coalesced_size, seq_size, size_unit};
use crate::variance::{Boundedness, Variance, repeat_text};

verus! {

/// The conjunctive variance of an empty token sequence is the empty invariant
/// text, and the invariant size zero.
pub proof fn lemma_empty_sequence_is_invariant<A>(p: Policy)
    ensures
        seq_text(Seq::<Token<A>>::empty(), p) == Variance::<Seq<char>>::Invariant(Seq::empty()),
        seq_size(Seq::<Token<A>>::empty(), p) == Variance::<nat>::Invariant(0),
{
}

/// A unit that is variant and open makes the whole sequence variant and open.
pub proof fn lemma_open_unit_opens_sequence<A>(ts: Seq<Token<A>>, i: int, p: Policy)
    requires
        0 <= i < ts.len(),
        text_unit(ts[i], p) == Variance::<Seq<char>>::Variant(Boundedness::Open),
    ensures
        seq_text(ts, p) == Variance::<Seq<char>>::Variant(Boundedness::Open),
    decreases ts.len(),
{
    if i < ts.len() - 1 {
        assert(ts.drop_last()[i] == ts[i]);
        lemma_open_unit_opens_sequence(ts.drop_last(), i, p);
    }
}

/// Where every unit of `ts` is invariant, so is the sequence, with the
/// concatenation of the units' texts.
pub proof fn lemma_all_invariant<A>(ts: Seq<Token<A>>, p: Policy)
    requires
        forall|i: int| 0 <= i < ts.len() ==> #[trigger] text_unit(ts[i], p) is Invariant,
    ensures
        seq_text(ts, p) == Variance::Invariant(units_text(ts, p)),
    decreases ts.len(),
{
    if ts.len() > 0 {
        let front = ts.drop_last();
        assert forall|i: int| 0 <= i < front.len() implies #[trigger] text_unit(front[i], p) is Invariant by {
            assert(front[i] == ts[i]);
        }
        lemma_all_invariant(front, p);
        assert(text_unit(ts[ts.len() - 1], p) is Invariant);
    }
}

/// An exact repetition whose tokens hold a `Separator` next to a breadth-open
/// unit is variant and open in both domains: the pair is one open unit.
pub proof fn lemma_coalesced_repetition_is_open<A>(t: Token<A>, rep: Repetition<A>, p: Policy)
    requires
        t.kind == TokenKind::<A>::Repetition(rep),
        has_coalescing_pair(rep.tokens@),
    ensures
        text_unit(t, p) == Variance::<Seq<char>>::Variant(Boundedness::Open),
        size_unit(t, p) == Variance::<nat>::Variant(Boundedness::Open),
{
}

/// Two patterns with the same tokens have the same variance under the same
/// policy, in both domains: the queries read nothing but the tokens and the
/// policy, and change neither.
pub proof fn lemma_variance_is_pure<A>(a: Tokenized<A>, b: Tokenized<A>, p: Policy)
    requires
        a.tokens@ == b.tokens@,
    ensures
        seq_text(a.tokens@, p) == seq_text(b.tokens@, p),
        seq_size(a.tokens@, p) == seq_size(b.tokens@, p),
{
}

/// A token whose size is invariant reaches no breadth-open leaf.
proof fn lemma_sized_token_is_narrow<A>(t: Token<A>, p: Policy)
    requires
        size_unit(t, p) is Invariant,
    ensures
        !has_breadth_open_leaf(leaves(t)),
    decreases t, 1nat,
{
    match t.kind {
        TokenKind::Alternative(alt) => lemma_sized_branches_are_narrow(alt.0@, p),
        TokenKind::Repetition(rep) => {
            assert(!has_coalescing_pair(rep.tokens@));
            lemma_sized_sequence_is_narrow(rep.tokens@, p);
        },
        _ => {
            assert(leaves(t) == set![t]);
        },
    }
}

proof fn lemma_sized_sequence_is_narrow<A>(ts: Seq<Token<A>>, p: Policy)
    requires
        seq_size(ts, p) is Invariant,
    ensures
        !has_breadth_open_leaf(seq_leaves(ts)),
    decreases ts, 0nat,
{
    if ts.len() > 0 {
        lemma_sized_sequence_is_narrow(ts.drop_last(), p);
        lemma_sized_token_is_narrow(ts.last(), p);
    }
}

proof fn lemma_sized_branches_are_narrow<A>(bs: Seq<Vec<Token<A>>>, p: Policy)
    requires
        branches_size(bs, p) is Invariant,
    ensures
        !has_breadth_open_leaf(branch_leaves(bs)),
    decreases bs, 0nat,
{
    if bs.len() == 1 {
        assert(bs.drop_last().len() == 0);
        assert(bs.last() == bs[0]);
        assert(branch_leaves(bs.drop_last()) == Set::<Token<A>>::empty());
        assert(branch_leaves(bs) =~= seq_leaves(bs[0]@));
        lemma_sized_sequence_is_narrow(bs[0]@, p);
    } else if bs.len() > 1 {
        lemma_sized_branches_are_narrow(bs.drop_last(), p);
        lemma_sized_sequence_is_narrow(bs.last()@, p);
    }
}

proof fn lemma_sized_sequence_units<A>(ts: Seq<Token<A>>, i: int, p: Policy)
    requires
        seq_size(ts, p) is Invariant,
        0 <= i < ts.len(),
    ensures
        size_unit(ts[i], p) is Invariant,
    decreases ts.len(),
{
    if i < ts.len() - 1 {
        assert(ts.drop_last()[i] == ts[i]);
        lemma_sized_sequence_units(ts.drop_last(), i, p);
    }
}

/// A sequence with invariant size has no separator to coalesce.
pub proof fn lemma_sized_sequence_does_not_coalesce<A>(ts: Seq<Token<A>>, p: Policy)
    requires
        seq_size(ts, p) is Invariant,
    ensures
        !has_coalescing_pair(ts),
        coalesced_size(ts, p) == seq_size(ts, p),
{
    assert forall|i: int| 0 <= i && i + 1 < ts.len() implies !#[trigger] is_coalescing_pair(ts[i], ts[i + 1]) by {
        lemma_sized_sequence_units(ts, i, p);
        lemma_sized_sequence_units(ts, i + 1, p);
        lemma_sized_token_is_narrow(ts[i], p);
        lemma_sized_token_is_narrow(ts[i + 1], p);
        match ts[i].kind {
            TokenKind::Alternative(_) => {},
            TokenKind::Repetition(_) => {},
            _ => {
                assert(leaves(ts[i]).contains(ts[i]));
            },
        }
        match ts[i + 1].kind {
            TokenKind::Alternative(_) => {},
            TokenKind::Repetition(_) => {},
            _ => {
                assert(leaves(ts[i + 1]).contains(ts[i + 1]));
            },
        }
    }
}

/// An exact repetition of a sequence of invariant size has that size times the
/// count; a repetition without an upper bound is variant and open.
pub proof fn lemma_repetition_size<A>(t: Token<A>, rep: Repetition<A>, z: nat, p: Policy)
    requires
        t.kind == TokenKind::<A>::Repetition(rep),
        seq_size(rep.tokens@, p) == Variance::<nat>::Invariant(z),
    ensures
        rep.upper == Some(rep.lower) ==> size_unit(t, p) == Variance::<nat>::Invariant(z * (rep.lower as nat)),
        rep.upper is None ==> size_unit(t, p) == Variance::<nat>::Variant(Boundedness::Open),
{
    lemma_sized_sequence_does_not_coalesce(rep.tokens@, p);
}

/// A unit whose size is variant and open makes the size of the whole sequence
/// variant and open.
pub proof fn lemma_open_unit_opens_sequence_size<A>(ts: Seq<Token<A>>, i: int, p: Policy)
    requires
        0 <= i < ts.len(),
        size_unit(ts[i], p) == Variance::<nat>::Variant(Boundedness::Open),
    ensures
        seq_size(ts, p) == Variance::<nat>::Variant(Boundedness::Open),
    decreases ts.len(),
{
    if i < ts.len() - 1 {
        assert(ts.drop_last()[i] == ts[i]);
        lemma_open_unit_opens_sequence_size(ts.drop_last(), i, p);
    }
}

/// The sizes of the units of `ts`, added up.
pub open spec fn units_size<A>(ts: Seq<Token<A>>, p: Policy) -> nat
    decreases ts.len(),
{
    if ts.len() == 0 {
        0
    } else {
        units_size(ts.drop_last(), p) + size_unit(ts.last(), p)->Invariant_0
    }
}

/// Where every unit of `ts` has an invariant size, so does the sequence: the
/// sum of the units' sizes.
pub proof fn lemma_all_invariant_size<A>(ts: Seq<Token<A>>, p: Policy)
    requires
        forall|i: int| 0 <= i < ts.len() ==> #[trigger] size_unit(ts[i], p) is Invariant,
    ensures
        seq_size(ts, p) == Variance::<nat>::Invariant(units_size(ts, p)),
    decreases ts.len(),
{
    if ts.len() > 0 {
        let front = ts.drop_last();
        assert forall|i: int| 0 <= i < front.len() implies #[trigger] size_unit(front[i], p) is Invariant by {
            assert(front[i] == ts[i]);
        }
        lemma_all_invariant_size(front, p);
        assert(size_unit(ts[ts.len() - 1], p) is Invariant);
    }
}

/// A negated character class is variant and closed, whatever its archetypes
/// and the policy.
pub proof fn lemma_negated_class_is_variant<A>(t: Token<A>, c: Class, p: Policy)
    requires
        t.kind == TokenKind::<A>::Class(c),
        c.is_negated,
    ensures
        text_unit(t, p) == Variance::<Seq<char>>::Variant(Boundedness::Closed),
{
}

/// A token with invariant text reaches no breadth-open leaf.
proof fn lemma_invariant_token_is_narrow<A>(t: Token<A>, p: Policy)
    requires
        text_unit(t, p) is Invariant,
    ensures
        !has_breadth_open_leaf(leaves(t)),
    decreases t, 1nat,
{
    match t.kind {
        TokenKind::Alternative(alt) => lemma_invariant_branches_are_narrow(alt.0@, p),
        TokenKind::Repetition(rep) => {
            assert(!has_coalescing_pair(rep.tokens@));
            lemma_invariant_sequence_is_narrow(rep.tokens@, p);
        },
        _ => {
            assert(leaves(t) == set![t]);
        },
    }
}

proof fn lemma_invariant_sequence_is_narrow<A>(ts: Seq<Token<A>>, p: Policy)
    requires
        seq_text(ts, p) is Invariant,
    ensures
        !has_breadth_open_leaf(seq_leaves(ts)),
    decreases ts, 0nat,
{
    if ts.len() > 0 {
        lemma_invariant_sequence_is_narrow(ts.drop_last(), p);
        lemma_invariant_token_is_narrow(ts.last(), p);
    }
}

proof fn lemma_invariant_branches_are_narrow<A>(bs: Seq<Vec<Token<A>>>, p: Policy)
    requires
        branches_text(bs, p) is Invariant,
    ensures
        !has_breadth_open_leaf(branch_leaves(bs)),
    decreases bs, 0nat,
{
    if bs.len() == 1 {
        assert(bs.drop_last().len() == 0);
        assert(bs.last() == bs[0]);
        assert(branch_leaves(bs.drop_last()) == Set::<Token<A>>::empty());
        assert(branch_leaves(bs) =~= seq_leaves(bs[0]@));
        lemma_invariant_sequence_is_narrow(bs[0]@, p);
    } else if bs.len() > 1 {
        lemma_invariant_branches_are_narrow(bs.drop_last(), p);
        lemma_invariant_sequence_is_narrow(bs.last()@, p);
    }
}

/// Every unit of a sequence with invariant text has invariant text.
proof fn lemma_invariant_sequence_units<A>(ts: Seq<Token<A>>, i: int, p: Policy)
    requires
        seq_text(ts, p) is Invariant,
        0 <= i < ts.len(),
    ensures
        text_unit(ts[i], p) is Invariant,
    decreases ts.len(),
{
    if i < ts.len() - 1 {
        assert(ts.drop_last()[i] == ts[i]);
        lemma_invariant_sequence_units(ts.drop_last(), i, p);
    }
}

/// A token with invariant text is of bounded breadth.
pub proof fn lemma_invariant_is_breadth_closed<A>(t: Token<A>, p: Policy)
    requires
        text_unit(t, p) is Invariant,
    ensures
        breadth_of(t.kind) == Boundedness::Closed,
{
    lemma_invariant_token_is_narrow(t, p);
    match t.kind {
        TokenKind::Alternative(_) => {},
        TokenKind::Repetition(_) => {},
        _ => {
            assert(leaves(t).contains(t));
        },
    }
}

/// A sequence with invariant text has no separator to coalesce.
pub proof fn lemma_invariant_sequence_does_not_coalesce<A>(ts: Seq<Token<A>>, p: Policy)
    requires
        seq_text(ts, p) is Invariant,
    ensures
        !has_coalescing_pair(ts),
        coalesced_text(ts, p) == seq_text(ts, p),
{
    assert forall|i: int| 0 <= i && i + 1 < ts.len() implies !#[trigger] is_coalescing_pair(ts[i], ts[i + 1]) by {
        lemma_invariant_sequence_units(ts, i, p);
        lemma_invariant_sequence_units(ts, i + 1, p);
        lemma_invariant_is_breadth_closed(ts[i], p);
        lemma_invariant_is_breadth_closed(ts[i + 1], p);
    }
}

/// An exact repetition of an invariant sequence is invariant, with the text
/// repeated as many times as the bound says; a repetition without an upper
/// bound is variant and open.
pub proof fn lemma_repetition_variance<A>(t: Token<A>, rep: Repetition<A>, x: Seq<char>, p: Policy)
    requires
        t.kind == TokenKind::<A>::Repetition(rep),
        seq_text(rep.tokens@, p) == Variance::<Seq<char>>::Invariant(x),
    ensures
        rep.upper == Some(rep.lower) ==> text_unit(t, p) == Variance::<Seq<char>>::Invariant(
            repeat_text(x, rep.lower as nat),
        ),
        rep.upper is None ==> text_unit(t, p) == Variance::<Seq<char>>::Variant(Boundedness::Open),
{
    lemma_invariant_sequence_does_not_coalesce(rep.tokens@, p);
}

/// After partitioning, a `Tree` wildcard that leads the remainder is unrooted.
pub proof fn lemma_partition_unroots<A>(ts: Seq<Token<A>>, p: Policy)
    ensures
        remainder(ts, p).len() > 0 && is_tree_kind(remainder(ts, p)[0].kind) ==> remainder(ts, p)[0].kind
            == TokenKind::<A>::Wildcard(Wildcard::Tree { has_root: false }),
{
}

/// A case-sensitive literal whose text has casing is variant under a
/// case-insensitive policy and invariant under a case-sensitive one.
pub proof fn lemma_literal_case_sensitivity(l: Literal, p: Policy)
    requires
        !l.is_case_insensitive,
        has_casing(l.text@),
    ensures
        p.case_insensitive ==> literal_text(l, p) == Variance::<Seq<char>>::Variant(Boundedness::Closed),
        !p.case_insensitive ==> literal_text(l, p) == Variance::<Seq<char>>::Invariant(l.text@),
{
}

/// Branches that all have the same invariant text make an invariant alternative
/// with that text.
pub proof fn lemma_agreeing_branches<A>(bs: Seq<Vec<Token<A>>>, x: Seq<char>, p: Policy)
    requires
        bs.len() > 0,
        forall|i: int| 0 <= i < bs.len() ==> #[trigger] seq_text(bs[i]@, p) == Variance::<Seq<char>>::Invariant(x),
    ensures
        branches_text(bs, p) == Variance::<Seq<char>>::Invariant(x),
    decreases bs.len(),
{
    if bs.len() > 1 {
        let front = bs.drop_last();
        assert forall|i: int| 0 <= i < front.len() implies #[trigger] seq_text(front[i]@, p) == Variance::<Seq<char>>::Invariant(x) by {
            assert(front[i] == bs[i]);
        }
        lemma_agreeing_branches(front, x, p);
        assert(seq_text(bs[bs.len() - 1]@, p) == Variance::<Seq<char>>::Invariant(x));
    }
}

} // verus!
