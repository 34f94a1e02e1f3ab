//! The token tree of a pattern: kinds, their payloads and per-node annotations.
use vstd::prelude::*;

verus! {

/// A node of a pattern's token tree, with an opaque caller annotation.
#[derive(Debug)]
pub struct Token<A> {
    pub kind: TokenKind<A>,
    pub annotation: A,
}

#[derive(Debug)]
pub enum TokenKind<A> {
    Alternative(Alternative<A>),
    Class(Class),
    Literal(Literal),
    Repetition(Repetition<A>),
    Separator(Separator),
    Wildcard(Wildcard),
}

/// Branches of token sequences, any one of which may match.
#[derive(Debug)]
pub struct Alternative<A>(pub Vec<Vec<Token<A>>>);

#[derive(Clone, Copy, Debug, PartialEq, Eq, Structural)]
pub enum Archetype {
    Character(char),
    Range(char, char),
}

#[derive(Clone, Debug)]
pub struct Class {
    pub is_negated: bool,
    pub archetypes: Vec<Archetype>,
}

#[derive(Clone, Copy, Debug, PartialEq, Eq, Structural)]
pub enum Evaluation {
    Eager,
    Lazy,
}

#[derive(Clone, Debug)]
pub struct Literal {
    pub text: String,
    pub is_case_insensitive: bool,
}

/// Tokens repeated between `lower` and `upper` times (no upper bound when `None`).
#[derive(Debug)]
pub struct Repetition<A> {
    pub tokens: Vec<Token<A>>,
    pub lower: usize,
    pub upper: Option<usize>,
}

/// A path-component boundary.
#[derive(Clone, Copy, Debug, PartialEq, Eq, Structural)]
pub struct Separator;

#[derive(Clone, Copy, Debug, PartialEq, Eq, Structural)]
pub enum Wildcard {
    One,
    ZeroOrMore(Evaluation),
    Tree { has_root: bool },
}

/// Whether a repetition has an upper bound equal to its lower bound.
pub open spec fn is_exact<A>(rep: Repetition<A>) -> bool {
    rep.upper == Some(rep.lower)
}

/// `b` is `a` with every annotation replaced: the same kinds, texts, bounds
/// and flags, in the same tree shape.
pub open spec fn same_shape<A, B>(a: Token<A>, b: Token<B>) -> bool
    decreases a, 1nat,
{
    same_kind_shape(a.kind, b.kind)
}

/// `b` is `a` with every annotation replaced.
pub open spec fn same_kind_shape<A, B>(a: TokenKind<A>, b: TokenKind<B>) -> bool
    decreases a, 0nat,
{
    match (a, b) {
        (TokenKind::Alternative(x), TokenKind::Alternative(y)) => same_branches(x.0@, y.0@),
        (TokenKind::Class(x), TokenKind::Class(y)) => x == y,
        (TokenKind::Literal(x), TokenKind::Literal(y)) => x == y,
        (TokenKind::Repetition(x), TokenKind::Repetition(y)) => {
            &&& x.lower == y.lower
            &&& x.upper == y.upper
            &&& same_seq_shape(x.tokens@, y.tokens@)
        },
        (TokenKind::Separator(_), TokenKind::Separator(_)) => true,
        (TokenKind::Wildcard(x), TokenKind::Wildcard(y)) => x == y,
        _ => false,
    }
}

pub open spec fn same_seq_shape<A, B>(a: Seq<Token<A>>, b: Seq<Token<B>>) -> bool
    decreases a, 0nat,
{
    if a.len() == 0 {
        b.len() == 0
    } else {
        b.len() > 0 && same_seq_shape(a.drop_last(), b.drop_last()) && same_shape(a.last(), b.last())
    }
}

pub open spec fn same_branches<A, B>(a: Seq<Vec<Token<A>>>, b: Seq<Vec<Token<B>>>) -> bool
    decreases a, 0nat,
{
    if a.len() == 0 {
        b.len() == 0
    } else {
        b.len() > 0 && same_branches(a.drop_last(), b.drop_last()) && same_seq_shape(a.last()@, b.last()@)
    }
}

/// Moves every token of `tokens` out, without its annotation.
fn unannotate_seq<A>(tokens: Vec<Token<A>>) -> (r: Vec<Token<()>>)
    ensures
        same_seq_shape(tokens@, r@),
    decreases tokens,
{
    let ghost whole = tokens;
    let ghost all = tokens@;
    let mut rest = tokens;
    let mut r: Vec<Token<()>> = Vec::new();
    while rest.len() > 0
        invariant
            all == whole@,
            whole == tokens,
            r@.len() as int + rest@.len() as int == all.len(),
            rest@ == all.skip(r@.len() as int),
            same_seq_shape(all.take(r@.len() as int), r@),
        decreases rest@.len(),
    {
        let ghost done = r@.len() as int;
        let t = rest.remove(0);
        assert(t == all[done]);
        proof {
            broadcast use vstd::std_specs::vec::axiom_vec_index_decreases;
            assert(decreases_to!(whole => whole[done]));
        }
        let u = t.unannotate();
        let ghost before = r@;
        r.push(u);
        assert(all.take(done + 1).drop_last() == all.take(done));
        assert(all.take(done + 1).last() == t);
        assert(r@.last() == u);
        assert(r@.drop_last() =~= before);
        assert(rest@ =~= all.skip(done + 1));
    }
    assert(all.take(r@.len() as int) == all);
    r
}

impl<A> Token<A> {
    pub fn new(kind: TokenKind<A>, annotation: A) -> (r: Self)
        ensures
            r.kind == kind,
            r.annotation == annotation,
    {
        Token { kind, annotation }
    }

    /// Text is already owned: the token is returned as it is.
    pub fn into_owned(self) -> (r: Self)
        ensures
            r == self,
    {
        self
    }

    pub fn kind(&self) -> (r: &TokenKind<A>)
        ensures
            *r == self.kind,
    {
        &self.kind
    }

    pub fn annotation(&self) -> (r: &A)
        ensures
            *r == self.annotation,
    {
        &self.annotation
    }

    /// The same tree without annotations.
    pub fn unannotate(self) -> (r: Token<()>)
        ensures
            same_shape(self, r),
        decreases self,
    {
        Token { kind: self.kind.unannotate(), annotation: () }
    }
}

impl<A> TokenKind<A> {
    /// Text is already owned: the kind is returned as it is.
    pub fn into_owned(self) -> (r: Self)
        ensures
            r == self,
    {
        self
    }

    pub fn unannotate(self) -> (r: TokenKind<()>)
        ensures
            same_kind_shape(self, r),
        decreases self,
    {
        match self {
            TokenKind::Alternative(alternative) => TokenKind::Alternative(alternative.unannotate()),
            TokenKind::Class(class) => TokenKind::Class(class),
            TokenKind::Literal(literal) => TokenKind::Literal(literal),
            TokenKind::Repetition(repetition) => TokenKind::Repetition(repetition.unannotate()),
            TokenKind::Separator(_) => TokenKind::Separator(Separator),
            TokenKind::Wildcard(wildcard) => TokenKind::Wildcard(wildcard),
        }
    }
}

impl<A> Alternative<A> {
    /// Text is already owned: the alternative is returned as it is.
    pub fn into_owned(self) -> (r: Self)
        ensures
            r == self,
    {
        self
    }

    pub fn unannotate(self) -> (r: Alternative<()>)
        ensures
            same_branches(self.0@, r.0@),
        decreases self,
    {
        let ghost all = self.0@;
        let mut rest = self.0;
        let mut r: Vec<Vec<Token<()>>> = Vec::new();
        while rest.len() > 0
            invariant
                all == self.0@,
                r@.len() as int + rest@.len() as int == all.len(),
                rest@ == all.skip(r@.len() as int),
                same_branches(all.take(r@.len() as int), r@),
            decreases rest@.len(),
        {
            let ghost done = r@.len() as int;
            let b = rest.remove(0);
            assert(b == all[done]);
            proof {
                broadcast use vstd::std_specs::vec::axiom_vec_index_decreases;
                assert(decreases_to!(self => self.0[done]));
            }
            let u = unannotate_seq(b);
            let ghost before = r@;
            r.push(u);
            assert(all.take(done + 1).drop_last() == all.take(done));
            assert(all.take(done + 1).last() == b);
            assert(r@.last() == u);
            assert(r@.drop_last() =~= before);
            assert(rest@ =~= all.skip(done + 1));
        }
        assert(all.take(r@.len() as int) == all);
        Alternative(r)
    }
}

impl<A> Repetition<A> {
    /// Repeats `tokens` between `lower` and `upper` times (inclusive; no upper
    /// bound when `None`). An upper bound of zero, or one below `lower`, is
    /// rejected.
    pub fn new(tokens: Vec<Token<A>>, lower: usize, upper: Option<usize>) -> (r: Option<Self>)
        ensures
            match upper {
                Some(u) => u == 0 || u < lower,
                None => false,
            } <==> r is None,
            r matches Some(rep) ==> rep.tokens == tokens && rep.lower == lower && rep.upper == upper,
    {
        match upper {
            Some(u) => {
                if u != 0 && u >= lower {
                    Some(Repetition { tokens, lower, upper })
                } else {
                    None
                }
            },
            None => Some(Repetition { tokens, lower, upper }),
        }
    }

    /// Repeats `tokens` from `lower` times up to, but not including, `end`
    /// times. An empty range, or one that allows only zero repetitions, is
    /// rejected.
    pub fn new_half_open(tokens: Vec<Token<A>>, lower: usize, end: usize) -> (r: Option<Self>)
        ensures
            (end <= 1 || end - 1 < lower) <==> r is None,
            r matches Some(rep) ==> rep.tokens == tokens && rep.lower == lower && rep.upper == Some(
                (end - 1) as usize,
            ),
    {
        let upper: usize = if end == 0 {
            0
        } else {
            end - 1
        };
        Self::new(tokens, lower, Some(upper))
    }

    /// Text is already owned: the repetition is returned as it is.
    pub fn into_owned(self) -> (r: Self)
        ensures
            r == self,
    {
        self
    }

    pub fn unannotate(self) -> (r: Repetition<()>)
        ensures
            r.lower == self.lower,
            r.upper == self.upper,
            same_seq_shape(self.tokens@, r.tokens@),
        decreases self,
    {
        let Repetition { tokens, lower, upper } = self;
        Repetition { tokens: unannotate_seq(tokens), lower, upper }
    }
}

/// An alternative, without annotations, over the given branches.
pub fn any<A>(branches: Vec<Vec<Token<A>>>) -> (r: Token<()>)
    ensures
        r.kind matches TokenKind::Alternative(alt) && same_branches(branches@, alt.0@),
{
    Token { kind: TokenKind::Alternative(Alternative(branches).unannotate()), annotation: () }
}


impl From<char> for Archetype {
    fn from(c: char) -> (r: Archetype) {
        Archetype::Character(c)
    }
}

impl vstd::std_specs::convert::FromSpecImpl<char> for Archetype {
    open spec fn obeys_from_spec() -> bool {
        true
    }

    open spec fn from_spec(c: char) -> Archetype {
        Archetype::Character(c)
    }
}

impl From<(char, char)> for Archetype {
    fn from(range: (char, char)) -> (r: Archetype) {
        Archetype::Range(range.0, range.1)
    }
}

impl vstd::std_specs::convert::FromSpecImpl<(char, char)> for Archetype {
    open spec fn obeys_from_spec() -> bool {
        true
    }

    open spec fn from_spec(range: (char, char)) -> Archetype {
        Archetype::Range(range.0, range.1)
    }
}

impl<A> From<Vec<Vec<Token<A>>>> for Alternative<A> {
    fn from(branches: Vec<Vec<Token<A>>>) -> (r: Alternative<A>) {
        Alternative(branches)
    }
}

impl<A> vstd::std_specs::convert::FromSpecImpl<Vec<Vec<Token<A>>>> for Alternative<A> {
    open spec fn obeys_from_spec() -> bool {
        true
    }

    open spec fn from_spec(branches: Vec<Vec<Token<A>>>) -> Alternative<A> {
        Alternative(branches)
    }
}

impl From<TokenKind<()>> for Token<()> {
    fn from(kind: TokenKind<()>) -> (r: Token<()>) {
        Token { kind, annotation: () }
    }
}

impl vstd::std_specs::convert::FromSpecImpl<TokenKind<()>> for Token<()> {
    open spec fn obeys_from_spec() -> bool {
        true
    }

    open spec fn from_spec(kind: TokenKind<()>) -> Token<()> {
        Token { kind, annotation: () }
    }
}

impl<A> From<Alternative<A>> for TokenKind<A> {
    fn from(alternative: Alternative<A>) -> (r: TokenKind<A>) {
        TokenKind::Alternative(alternative)
    }
}

impl<A> vstd::std_specs::convert::FromSpecImpl<Alternative<A>> for TokenKind<A> {
    open spec fn obeys_from_spec() -> bool {
        true
    }

    open spec fn from_spec(alternative: Alternative<A>) -> TokenKind<A> {
        TokenKind::Alternative(alternative)
    }
}

impl<A> From<Class> for TokenKind<A> {
    fn from(class: Class) -> (r: TokenKind<A>) {
        TokenKind::Class(class)
    }
}

impl<A> vstd::std_specs::convert::FromSpecImpl<Class> for TokenKind<A> {
    open spec fn obeys_from_spec() -> bool {
        true
    }

    open spec fn from_spec(class: Class) -> TokenKind<A> {
        TokenKind::Class(class)
    }
}

impl<A> From<Repetition<A>> for TokenKind<A> {
    fn from(repetition: Repetition<A>) -> (r: TokenKind<A>) {
        TokenKind::Repetition(repetition)
    }
}

impl<A> vstd::std_specs::convert::FromSpecImpl<Repetition<A>> for TokenKind<A> {
    open spec fn obeys_from_spec() -> bool {
        true
    }

    open spec fn from_spec(repetition: Repetition<A>) -> TokenKind<A> {
        TokenKind::Repetition(repetition)
    }
}

impl<A> From<Wildcard> for TokenKind<A> {
    fn from(wildcard: Wildcard) -> (r: TokenKind<A>) {
        TokenKind::Wildcard(wildcard)
    }
}

impl<A> vstd::std_specs::convert::FromSpecImpl<Wildcard> for TokenKind<A> {
    open spec fn obeys_from_spec() -> bool {
        true
    }

    open spec fn from_spec(wildcard: Wildcard) -> TokenKind<A> {
        TokenKind::Wildcard(wildcard)
    }
}

} // verus!
