//! Queries over the leaves of a token tree: which tokens are reachable, which
//! can stand first or last, and the depth and breadth that follow from them.
use vstd::prelude::*;
use crate::token::{Alternative, Repetition, Token, TokenKind, Wildcard, is_exact};
use crate::variance::Boundedness;

verus! {

/// The leaves reachable from `t`: `Alternative` and `Repetition` nodes are
/// descended into, every other kind is a leaf.
pub open spec fn leaves<A>(t: Token<A>) -> Set<Token<A>>
    decreases t, 0nat,
{
    match t.kind {
        TokenKind::Alternative(alt) => branch_leaves(alt.0@),
        TokenKind::Repetition(rep) => seq_leaves(rep.tokens@),
        _ => set![t],
    }
}

/// The leaves reachable from a token sequence.
pub open spec fn seq_leaves<A>(ts: Seq<Token<A>>) -> Set<Token<A>>
    decreases ts, 0nat,
{
    if ts.len() == 0 {
        Set::empty()
    } else {
        seq_leaves(ts.drop_last()).union(leaves(ts.last()))
    }
}

/// The leaves reachable from a list of branches.
pub open spec fn branch_leaves<A>(bs: Seq<Vec<Token<A>>>) -> Set<Token<A>>
    decreases bs, 0nat,
{
    if bs.len() == 0 {
        Set::empty()
    } else {
        branch_leaves(bs.drop_last()).union(seq_leaves(bs.last()@))
    }
}

/// The leaves that can stand first in what `t` matches.
pub open spec fn first_leaves<A>(t: Token<A>) -> Set<Token<A>>
    decreases t, 0nat,
{
    match t.kind {
        TokenKind::Alternative(alt) => branch_first_leaves(alt.0@),
        TokenKind::Repetition(rep) => seq_first_leaves(rep.tokens@),
        _ => set![t],
    }
}

/// The first leaves of a token sequence: those of its first token.
pub open spec fn seq_first_leaves<A>(ts: Seq<Token<A>>) -> Set<Token<A>>
    decreases ts, 1nat,
{
    if ts.len() == 0 {
        Set::empty()
    } else {
        first_leaves(ts[0])
    }
}

pub open spec fn branch_first_leaves<A>(bs: Seq<Vec<Token<A>>>) -> Set<Token<A>>
    decreases bs, 0nat,
{
    if bs.len() == 0 {
        Set::empty()
    } else {
        let b = bs.last()@;
        branch_first_leaves(bs.drop_last()).union(seq_first_leaves(b))
    }
}

/// The leaves that can stand last in what `t` matches.
pub open spec fn last_leaves<A>(t: Token<A>) -> Set<Token<A>>
    decreases t, 0nat,
{
    match t.kind {
        TokenKind::Alternative(alt) => branch_last_leaves(alt.0@),
        TokenKind::Repetition(rep) => seq_last_leaves(rep.tokens@),
        _ => set![t],
    }
}

/// The last leaves of a token sequence: those of its last token.
pub open spec fn seq_last_leaves<A>(ts: Seq<Token<A>>) -> Set<Token<A>>
    decreases ts, 1nat,
{
    if ts.len() == 0 {
        Set::empty()
    } else {
        last_leaves(ts.last())
    }
}

pub open spec fn branch_last_leaves<A>(bs: Seq<Vec<Token<A>>>) -> Set<Token<A>>
    decreases bs, 0nat,
{
    if bs.len() == 0 {
        Set::empty()
    } else {
        let b = bs.last()@;
        branch_last_leaves(bs.drop_last()).union(seq_last_leaves(b))
    }
}

/// Whether `f` answered `true` for some token of `s` (`r` true), or `false` for
/// every token of `s` (`r` false).
pub open spec fn answered<A, F: Fn(&Token<A>) -> bool>(f: F, s: Set<Token<A>>, r: bool) -> bool {
    if r {
        exists|t: Token<A>| s.contains(t) && #[trigger] f.ensures((&t,), true)
    } else {
        forall|t: Token<A>| s.contains(t) ==> #[trigger] f.ensures((&t,), false)
    }
}

pub open spec fn callable_on_all<A, F: Fn(&Token<A>) -> bool>(f: F) -> bool {
    forall|t: &Token<A>| #[trigger] f.requires((t,))
}

proof fn lemma_seq_leaves_contains<A>(ts: Seq<Token<A>>, i: int)
    requires
        0 <= i < ts.len(),
    ensures
        leaves(ts[i]).subset_of(seq_leaves(ts)),
    decreases ts.len(),
{
    if i < ts.len() - 1 {
        lemma_seq_leaves_contains(ts.drop_last(), i);
    }
}

proof fn lemma_branch_leaves_contains<A>(bs: Seq<Vec<Token<A>>>, i: int)
    requires
        0 <= i < bs.len(),
    ensures
        seq_leaves(bs[i]@).subset_of(branch_leaves(bs)),
    decreases bs.len(),
{
    if i < bs.len() - 1 {
        lemma_branch_leaves_contains(bs.drop_last(), i);
    }
}

impl<A> Token<A> {
    /// Tests `f` on every leaf reachable from this token.
    pub fn has_token_with<F: Fn(&Token<A>) -> bool>(&self, f: &F) -> (r: bool)
        requires
            callable_on_all(*f),
        ensures
            answered(*f, leaves(*self), r),
        decreases self,
    {
        match &self.kind {
            TokenKind::Alternative(alternative) => alternative.has_token_with(f),
            TokenKind::Repetition(repetition) => repetition.has_token_with(f),
            _ => f(self),
        }
    }
}

/// Tests `f` on the leaves of a token sequence.
fn seq_has_token_with<A, F: Fn(&Token<A>) -> bool>(tokens: &Vec<Token<A>>, f: &F) -> (r: bool)
    requires
        callable_on_all(*f),
    ensures
        answered(*f, seq_leaves(tokens@), r),
    decreases tokens,
{
    let mut i: usize = 0;
    while i < tokens.len()
        invariant
            i <= tokens.len(),
            callable_on_all(*f),
            answered(*f, seq_leaves(tokens@.take(i as int)), false),
        decreases tokens.len() - i,
    {
        assert(tokens@.take(i + 1).drop_last() == tokens@.take(i as int));
        if tokens[i].has_token_with(f) {
            proof {
                lemma_seq_leaves_contains(tokens@, i as int);
            }
            return true;
        }
        i += 1;
    }
    assert(tokens@.take(i as int) == tokens@);
    false
}

impl<A> Alternative<A> {
    pub fn has_token_with<F: Fn(&Token<A>) -> bool>(&self, f: &F) -> (r: bool)
        requires
            callable_on_all(*f),
        ensures
            answered(*f, branch_leaves(self.0@), r),
        decreases self,
    {
        let mut i: usize = 0;
        while i < self.0.len()
            invariant
                i <= self.0.len(),
                callable_on_all(*f),
                answered(*f, branch_leaves(self.0@.take(i as int)), false),
            decreases self.0.len() - i,
        {
            assert(self.0@.take(i + 1).drop_last() == self.0@.take(i as int));
            if seq_has_token_with(&self.0[i], f) {
                proof {
                    lemma_branch_leaves_contains(self.0@, i as int);
                }
                return true;
            }
            i += 1;
        }
        assert(self.0@.take(i as int) == self.0@);
        false
    }
}

impl<A> Repetition<A> {
    pub fn has_token_with<F: Fn(&Token<A>) -> bool>(&self, f: &F) -> (r: bool)
        requires
            callable_on_all(*f),
        ensures
            answered(*f, seq_leaves(self.tokens@), r),
        decreases self,
    {
        seq_has_token_with(&self.tokens, f)
    }
}


proof fn lemma_branch_first_leaves_contains<A>(bs: Seq<Vec<Token<A>>>, i: int)
    requires
        0 <= i < bs.len(),
        bs[i]@.len() > 0,
    ensures
        seq_first_leaves(bs[i]@).subset_of(branch_first_leaves(bs)),
    decreases bs.len(),
{
    if i < bs.len() - 1 {
        lemma_branch_first_leaves_contains(bs.drop_last(), i);
    }
}

proof fn lemma_branch_last_leaves_contains<A>(bs: Seq<Vec<Token<A>>>, i: int)
    requires
        0 <= i < bs.len(),
        bs[i]@.len() > 0,
    ensures
        seq_last_leaves(bs[i]@).subset_of(branch_last_leaves(bs)),
    decreases bs.len(),
{
    if i < bs.len() - 1 {
        lemma_branch_last_leaves_contains(bs.drop_last(), i);
    }
}

impl<A> Token<A> {
    /// Tests `f` on the leaves that can stand first in what this token matches.
    pub fn has_preceding_token_with<F: Fn(&Token<A>) -> bool>(&self, f: &F) -> (r: bool)
        requires
            callable_on_all(*f),
        ensures
            answered(*f, first_leaves(*self), r),
        decreases self,
    {
        match &self.kind {
            TokenKind::Alternative(alternative) => alternative.has_preceding_token_with(f),
            TokenKind::Repetition(repetition) => repetition.has_preceding_token_with(f),
            _ => f(self),
        }
    }

    /// Tests `f` on the leaves that can stand last in what this token matches.
    pub fn has_terminating_token_with<F: Fn(&Token<A>) -> bool>(&self, f: &F) -> (r: bool)
        requires
            callable_on_all(*f),
        ensures
            answered(*f, last_leaves(*self), r),
        decreases self,
    {
        match &self.kind {
            TokenKind::Alternative(alternative) => alternative.has_terminating_token_with(f),
            TokenKind::Repetition(repetition) => repetition.has_terminating_token_with(f),
            _ => f(self),
        }
    }
}

impl<A> Alternative<A> {
    pub fn has_preceding_token_with<F: Fn(&Token<A>) -> bool>(&self, f: &F) -> (r: bool)
        requires
            callable_on_all(*f),
        ensures
            answered(*f, branch_first_leaves(self.0@), r),
        decreases self,
    {
        let mut i: usize = 0;
        while i < self.0.len()
            invariant
                i <= self.0.len(),
                callable_on_all(*f),
                answered(*f, branch_first_leaves(self.0@.take(i as int)), false),
            decreases self.0.len() - i,
        {
            assert(self.0@.take(i + 1).drop_last() == self.0@.take(i as int));
            let branch = &self.0[i];
            assert(self.0@.take(i + 1).last() == *branch);
            if branch.len() > 0 && branch[0].has_preceding_token_with(f) {
                proof {
                    lemma_branch_first_leaves_contains(self.0@, i as int);
                }
                return true;
            }
            assert(branch_first_leaves(self.0@.take(i + 1)) == branch_first_leaves(
                self.0@.take(i as int),
            ).union(seq_first_leaves(branch@)));
            i += 1;
        }
        assert(self.0@.take(i as int) == self.0@);
        false
    }

    pub fn has_terminating_token_with<F: Fn(&Token<A>) -> bool>(&self, f: &F) -> (r: bool)
        requires
            callable_on_all(*f),
        ensures
            answered(*f, branch_last_leaves(self.0@), r),
        decreases self,
    {
        let mut i: usize = 0;
        while i < self.0.len()
            invariant
                i <= self.0.len(),
                callable_on_all(*f),
                answered(*f, branch_last_leaves(self.0@.take(i as int)), false),
            decreases self.0.len() - i,
        {
            assert(self.0@.take(i + 1).drop_last() == self.0@.take(i as int));
            let branch = &self.0[i];
            assert(self.0@.take(i + 1).last() == *branch);
            if branch.len() > 0 && branch[branch.len() - 1].has_terminating_token_with(f) {
                proof {
                    lemma_branch_last_leaves_contains(self.0@, i as int);
                }
                return true;
            }
            assert(branch_last_leaves(self.0@.take(i + 1)) == branch_last_leaves(
                self.0@.take(i as int),
            ).union(seq_last_leaves(branch@)));
            i += 1;
        }
        assert(self.0@.take(i as int) == self.0@);
        false
    }
}

impl<A> Repetition<A> {
    pub fn has_preceding_token_with<F: Fn(&Token<A>) -> bool>(&self, f: &F) -> (r: bool)
        requires
            callable_on_all(*f),
        ensures
            answered(*f, seq_first_leaves(self.tokens@), r),
        decreases self,
    {
        if self.tokens.len() == 0 {
            false
        } else {
            self.tokens[0].has_preceding_token_with(f)
        }
    }

    pub fn has_terminating_token_with<F: Fn(&Token<A>) -> bool>(&self, f: &F) -> (r: bool)
        requires
            callable_on_all(*f),
        ensures
            answered(*f, seq_last_leaves(self.tokens@), r),
        decreases self,
    {
        if self.tokens.len() == 0 {
            false
        } else {
            self.tokens[self.tokens.len() - 1].has_terminating_token_with(f)
        }
    }
}


/// A `Separator` or a `Tree` wildcard: a token that can cross a path-component boundary.
pub open spec fn is_boundary_kind<A>(k: TokenKind<A>) -> bool {
    match k {
        TokenKind::Separator(_) => true,
        TokenKind::Wildcard(Wildcard::Tree { .. }) => true,
        _ => false,
    }
}

/// A `Separator` or a rooted `Tree` wildcard: a token that anchors at the root.
pub open spec fn is_rooting_kind<A>(k: TokenKind<A>) -> bool {
    match k {
        TokenKind::Separator(_) => true,
        TokenKind::Wildcard(Wildcard::Tree { has_root }) => has_root,
        _ => false,
    }
}

pub open spec fn is_tree_kind<A>(k: TokenKind<A>) -> bool {
    match k {
        TokenKind::Wildcard(Wildcard::Tree { .. }) => true,
        _ => false,
    }
}

/// A `ZeroOrMore` or `Tree` wildcard: a leaf of unbounded breadth.
pub open spec fn is_breadth_open_kind<A>(k: TokenKind<A>) -> bool {
    match k {
        TokenKind::Wildcard(Wildcard::Tree { .. }) => true,
        TokenKind::Wildcard(Wildcard::ZeroOrMore(_)) => true,
        _ => false,
    }
}

pub open spec fn has_boundary_leaf<A>(s: Set<Token<A>>) -> bool {
    exists|t: Token<A>| s.contains(t) && #[trigger] is_boundary_kind(t.kind)
}

pub open spec fn has_rooting_leaf<A>(s: Set<Token<A>>) -> bool {
    exists|t: Token<A>| s.contains(t) && #[trigger] is_rooting_kind(t.kind)
}

pub open spec fn has_tree_leaf<A>(s: Set<Token<A>>) -> bool {
    exists|t: Token<A>| s.contains(t) && #[trigger] is_tree_kind(t.kind)
}

pub open spec fn has_breadth_open_leaf<A>(s: Set<Token<A>>) -> bool {
    exists|t: Token<A>| s.contains(t) && #[trigger] is_breadth_open_kind(t.kind)
}

pub open spec fn open_if(b: bool) -> Boundedness {
    if b {
        Boundedness::Open
    } else {
        Boundedness::Closed
    }
}

/// Whether what `k` matches can span an unbounded number of path components.
pub open spec fn depth_of<A>(k: TokenKind<A>) -> Boundedness {
    match k {
        TokenKind::Alternative(alt) => open_if(has_tree_leaf(branch_leaves(alt.0@))),
        TokenKind::Repetition(rep) => open_if(
            if is_exact(rep) {
                has_tree_leaf(seq_leaves(rep.tokens@))
            } else {
                rep.upper is None && has_boundary_leaf(seq_leaves(rep.tokens@))
            },
        ),
        TokenKind::Wildcard(Wildcard::Tree { .. }) => Boundedness::Open,
        _ => Boundedness::Closed,
    }
}

/// Whether what `k` matches can be unboundedly long within one path component.
pub open spec fn breadth_of<A>(k: TokenKind<A>) -> Boundedness {
    match k {
        TokenKind::Alternative(alt) => open_if(has_breadth_open_leaf(branch_leaves(alt.0@))),
        TokenKind::Repetition(rep) => open_if(has_breadth_open_leaf(seq_leaves(rep.tokens@))),
        _ => open_if(is_breadth_open_kind(k)),
    }
}

impl<A> TokenKind<A> {
    pub fn is_component_boundary(&self) -> (r: bool)
        ensures
            r == is_boundary_kind(*self),
    {
        matches!(self, TokenKind::Separator(_) | TokenKind::Wildcard(Wildcard::Tree { .. }))
    }

    /// Whether this is a rooting leaf: a `Separator` or a rooted `Tree` wildcard.
    fn is_rooting(&self) -> (r: bool)
        ensures
            r == is_rooting_kind(*self),
    {
        matches!(self, TokenKind::Separator(_) | TokenKind::Wildcard(Wildcard::Tree { has_root: true }))
    }

    pub fn is_separator(&self) -> (r: bool)
        ensures
            r == (*self is Separator),
    {
        matches!(self, TokenKind::Separator(_))
    }

    pub fn is_tree(&self) -> (r: bool)
        ensures
            r == is_tree_kind(*self),
    {
        matches!(self, TokenKind::Wildcard(Wildcard::Tree { .. }))
    }

    fn is_breadth_open(&self) -> (r: bool)
        ensures
            r == is_breadth_open_kind(*self),
    {
        matches!(self, TokenKind::Wildcard(Wildcard::Tree { .. }) | TokenKind::Wildcard(Wildcard::ZeroOrMore(_)))
    }

    pub fn has_sub_tokens(&self) -> (r: bool)
        ensures
            r == (self is Alternative || self is Repetition),
    {
        matches!(self, TokenKind::Alternative(_) | TokenKind::Repetition(_))
    }

    pub fn is_capturing(&self) -> (r: bool)
        ensures
            r == !(self is Literal || self is Separator),
    {
        matches!(
            self,
            TokenKind::Alternative(_) | TokenKind::Class(_) | TokenKind::Repetition(_) | TokenKind::Wildcard(_)
        )
    }

    /// Clears the root flag of a `Tree` wildcard, returning its former value;
    /// every other kind is left as it is.
    pub fn unroot(&mut self) -> (r: bool)
        ensures
            match *old(self) {
                TokenKind::Wildcard(Wildcard::Tree { has_root }) => {
                    &&& r == has_root
                    &&& *final(self) == TokenKind::<A>::Wildcard(Wildcard::Tree { has_root: false })
                },
                _ => !r && *final(self) == *old(self),
            },
    {
        match self {
            TokenKind::Wildcard(Wildcard::Tree { has_root }) => {
                let was = *has_root;
                *has_root = false;
                was
            },
            _ => false,
        }
    }

    pub fn depth(&self) -> (r: Boundedness)
        ensures
            r == depth_of(*self),
    {
        let f = |t: &Token<A>| -> (b: bool)
            ensures
                b == is_tree_kind(t.kind),
            { t.kind.is_tree() };
        match self {
            TokenKind::Alternative(alternative) => {
                let open = alternative.has_token_with(&f);
                proof {
                    let s = branch_leaves(alternative.0@);
                    if open {
                        let t = choose|t: Token<A>| s.contains(t) && #[trigger] f.ensures((&t,), true);
                        assert(is_tree_kind(t.kind));
                    } else {
                        assert forall|t: Token<A>| s.contains(t) implies !#[trigger] is_tree_kind(t.kind) by {
                            assert(f.ensures((&t,), false));
                        }
                    }
                }
                if open {
                    Boundedness::Open
                } else {
                    Boundedness::Closed
                }
            },
            TokenKind::Repetition(repetition) => {
                let (lower, upper) = repetition.bounds();
                let open = match upper {
                    Some(upper) => {
                        if upper == lower {
                            let open = repetition.has_token_with(&f);
                            proof {
                                let s = seq_leaves(repetition.tokens@);
                                if open {
                                    let t = choose|t: Token<A>| s.contains(t) && #[trigger] f.ensures((&t,), true);
                                    assert(is_tree_kind(t.kind));
                                } else {
                                    assert forall|t: Token<A>| s.contains(t) implies !#[trigger] is_tree_kind(t.kind) by {
                                        assert(f.ensures((&t,), false));
                                    }
                                }
                            }
                            open
                        } else {
                            false
                        }
                    },
                    None => repetition.has_component_boundary(),
                };
                if open {
                    Boundedness::Open
                } else {
                    Boundedness::Closed
                }
            },
            TokenKind::Wildcard(Wildcard::Tree { .. }) => Boundedness::Open,
            _ => Boundedness::Closed,
        }
    }

    pub fn breadth(&self) -> (r: Boundedness)
        ensures
            r == breadth_of(*self),
    {
        let f = |t: &Token<A>| -> (b: bool)
            ensures
                b == is_breadth_open_kind(t.kind),
            { t.kind.is_breadth_open() };
        let open = match self {
            TokenKind::Alternative(alternative) => {
                let open = alternative.has_token_with(&f);
                proof {
                    let s = branch_leaves(alternative.0@);
                    if open {
                        let t = choose|t: Token<A>| s.contains(t) && #[trigger] f.ensures((&t,), true);
                        assert(is_breadth_open_kind(t.kind));
                    } else {
                        assert forall|t: Token<A>| s.contains(t) implies !#[trigger] is_breadth_open_kind(t.kind) by {
                            assert(f.ensures((&t,), false));
                        }
                    }
                }
                open
            },
            TokenKind::Repetition(repetition) => {
                let open = repetition.has_token_with(&f);
                proof {
                    let s = seq_leaves(repetition.tokens@);
                    if open {
                        let t = choose|t: Token<A>| s.contains(t) && #[trigger] f.ensures((&t,), true);
                        assert(is_breadth_open_kind(t.kind));
                    } else {
                        assert forall|t: Token<A>| s.contains(t) implies !#[trigger] is_breadth_open_kind(t.kind) by {
                            assert(f.ensures((&t,), false));
                        }
                    }
                }
                open
            },
            _ => self.is_breadth_open(),
        };
        if open {
            Boundedness::Open
        } else {
            Boundedness::Closed
        }
    }
}

impl<A> Repetition<A> {
    /// The lower bound and, when there is one, the upper bound (both inclusive).
    pub fn bounds(&self) -> (r: (usize, Option<usize>))
        ensures
            r == (self.lower, self.upper),
    {
        (self.lower, self.upper)
    }

    pub fn tokens(&self) -> (r: &Vec<Token<A>>)
        ensures
            r == self.tokens,
    {
        &self.tokens
    }

    /// Whether a `Separator` or `Tree` wildcard is reachable in the repeated tokens.
    pub fn has_component_boundary(&self) -> (r: bool)
        ensures
            r == has_boundary_leaf(seq_leaves(self.tokens@)),
    {
        let f = |t: &Token<A>| -> (b: bool)
            ensures
                b == is_boundary_kind(t.kind),
            { t.kind.is_component_boundary() };
        let r = self.has_token_with(&f);
        proof {
            let s = seq_leaves(self.tokens@);
            if r {
                let t = choose|t: Token<A>| s.contains(t) && #[trigger] f.ensures((&t,), true);
                assert(is_boundary_kind(t.kind));
            } else {
                assert forall|t: Token<A>| s.contains(t) implies !#[trigger] is_boundary_kind(t.kind) by {
                    assert(f.ensures((&t,), false));
                }
            }
        }
        r
    }
}

impl<A> Token<A> {
    /// Whether a `Separator` or `Tree` wildcard is reachable from this token.
    pub fn has_component_boundary(&self) -> (r: bool)
        ensures
            r == has_boundary_leaf(leaves(*self)),
    {
        let f = |t: &Token<A>| -> (b: bool)
            ensures
                b == is_boundary_kind(t.kind),
            { t.kind.is_component_boundary() };
        let r = self.has_token_with(&f);
        proof {
            let s = leaves(*self);
            if r {
                let t = choose|t: Token<A>| s.contains(t) && #[trigger] f.ensures((&t,), true);
                assert(is_boundary_kind(t.kind));
            } else {
                assert forall|t: Token<A>| s.contains(t) implies !#[trigger] is_boundary_kind(t.kind) by {
                    assert(f.ensures((&t,), false));
                }
            }
        }
        r
    }

    /// Whether what this token matches can begin at the root: some first leaf
    /// is a `Separator` or a rooted `Tree` wildcard.
    pub fn has_root(&self) -> (r: bool)
        ensures
            r == has_rooting_leaf(first_leaves(*self)),
    {
        let f = |t: &Token<A>| -> (b: bool)
            ensures
                b == is_rooting_kind(t.kind),
            { t.kind.is_rooting() };
        let r = self.has_preceding_token_with(&f);
        proof {
            let s = first_leaves(*self);
            if r {
                let t = choose|t: Token<A>| s.contains(t) && #[trigger] f.ensures((&t,), true);
                assert(is_rooting_kind(t.kind));
            } else {
                assert forall|t: Token<A>| s.contains(t) implies !#[trigger] is_rooting_kind(t.kind) by {
                    assert(f.ensures((&t,), false));
                }
            }
        }
        r
    }

    /// Clears the root flag of a `Tree` wildcard, returning its former value.
    pub fn unroot(&mut self) -> (r: bool)
        ensures
            final(self).annotation == old(self).annotation,
            match old(self).kind {
                TokenKind::Wildcard(Wildcard::Tree { has_root }) => {
                    &&& r == has_root
                    &&& final(self).kind == TokenKind::<A>::Wildcard(Wildcard::Tree { has_root: false })
                },
                _ => !r && final(self).kind == old(self).kind,
            },
    {
        self.kind.unroot()
    }
}



/// A `Separator` next to a breadth-open unit, in either order: before a
/// repetition's tokens are folded, such a pair is coalesced into one open unit.
pub open spec fn is_coalescing_pair<A>(a: Token<A>, b: Token<A>) -> bool {
    ||| a.kind is Separator && breadth_of(b.kind) == Boundedness::Open
    ||| breadth_of(a.kind) == Boundedness::Open && b.kind is Separator
}

/// Whether some neighbouring tokens of `ts` coalesce into an open unit.
pub open spec fn has_coalescing_pair<A>(ts: Seq<Token<A>>) -> bool {
    exists|i: int| 0 <= i && i + 1 < ts.len() && #[trigger] is_coalescing_pair(ts[i], ts[i + 1])
}

/// Whether some neighbouring tokens of `tokens` coalesce into an open unit.
pub fn coalesces<A>(tokens: &Vec<Token<A>>) -> (r: bool)
    ensures
        r == has_coalescing_pair(tokens@),
{
    let n = tokens.len();
    let mut i: usize = 0;
    while i < n && i + 1 < n
        invariant
            n == tokens@.len(),
            i <= n,
            forall|j: int| 0 <= j < i && j + 1 < tokens@.len() ==> !#[trigger] is_coalescing_pair(tokens@[j], tokens@[j + 1]),
        decreases n - i,
    {
        let a = &tokens[i];
        let b = &tokens[i + 1];
        let pair = (a.kind.is_separator() && b.kind.breadth().is_open()) || (a.kind.breadth().is_open()
            && b.kind.is_separator());
        if pair {
            assert(is_coalescing_pair(tokens@[i as int], tokens@[i + 1]));
            return true;
        }
        i += 1;
    }
    false
}

} // verus!
