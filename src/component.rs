//! Path components of a token sequence, and the runs of literals in them.
use vstd::prelude::*;
use crate::analysis::seq_text;
use crate::platform::Policy;
use crate::token::{Literal, Token, TokenKind};
use crate::tree::{depth_of, is_boundary_kind, is_tree_kind, open_if};
use crate::variance::{Boundedness, Variance, then_text_exec};

verus! {

/// A run of tokens between path-component boundaries, or a lone `Tree` wildcard.
#[derive(Debug)]
pub struct Component<'i, A>(pub Vec<&'i Token<A>>);

impl<'i, A> View for Component<'i, A> {
    type V = Seq<Token<A>>;

    open spec fn view(&self) -> Seq<Token<A>> {
        deref_all(self.0@)
    }
}

/// The tokens that a sequence of references points to.
pub open spec fn deref_all<A>(s: Seq<&Token<A>>) -> Seq<Token<A>> {
    s.map_values(|t: &Token<A>| *t)
}

/// The token sequences of a sequence of components.
pub open spec fn views<'i, A>(s: Seq<Component<'i, A>>) -> Seq<Seq<Token<A>>> {
    s.map_values(|c: Component<'i, A>| c@)
}

/// The end of the run of tokens that are no component boundary, from `i` on.
pub open spec fn run_end<A>(ts: Seq<Token<A>>, i: int) -> int
    decreases ts.len() - i,
{
    if 0 <= i < ts.len() && !is_boundary_kind(ts[i].kind) {
        run_end(ts, i + 1)
    } else {
        i
    }
}

pub proof fn lemma_run_end<A>(ts: Seq<Token<A>>, i: int)
    requires
        0 <= i <= ts.len(),
    ensures
        i <= run_end(ts, i) <= ts.len(),
        forall|j: int| i <= j < run_end(ts, i) ==> !#[trigger] is_boundary_kind(ts[j].kind),
        run_end(ts, i) < ts.len() ==> is_boundary_kind(ts[run_end(ts, i)].kind),
    decreases ts.len() - i,
{
    if i < ts.len() && !is_boundary_kind(ts[i].kind) {
        lemma_run_end(ts, i + 1);
    }
}

/// The components of `ts` from index `i` on: separators split runs and are
/// dropped, and a `Tree` wildcard stands alone.
pub open spec fn components_from<A>(ts: Seq<Token<A>>, i: int) -> Seq<Seq<Token<A>>>
    decreases ts.len() - i,
    via components_from_decreases::<A>
{
    if i < 0 || i >= ts.len() {
        Seq::empty()
    } else if ts[i].kind is Separator {
        components_from(ts, i + 1)
    } else {
        let e = component_end(ts, i);
        seq![ts.subrange(i, e)] + components_from(ts, e)
    }
}

#[via_fn]
proof fn components_from_decreases<A>(ts: Seq<Token<A>>, i: int) {
    if 0 <= i < ts.len() {
        lemma_run_end(ts, i + 1);
    }
}

pub open spec fn components_of<A>(ts: Seq<Token<A>>) -> Seq<Seq<Token<A>>> {
    components_from(ts, 0)
}

/// Where the component that starts at `i` ends.
pub open spec fn component_end<A>(ts: Seq<Token<A>>, i: int) -> int {
    if is_tree_kind(ts[i].kind) {
        i + 1
    } else {
        run_end(ts, i + 1)
    }
}

/// The component that starts at `i`, and where it ends.
fn component_at<'i, A>(tokens: &'i Vec<Token<A>>, i: usize) -> (r: (Component<'i, A>, usize))
    requires
        i < tokens@.len(),
    ensures
        r.1 == component_end(tokens@, i as int),
        i < r.1 <= tokens@.len(),
        r.0@ == tokens@.subrange(i as int, r.1 as int),
{
    let ghost ts = tokens@;
    let n = tokens.len();
    let first = &tokens[i];
    let mut run: Vec<&'i Token<A>> = Vec::new();
    run.push(first);
    assert(deref_all(run@) =~= ts.subrange(i as int, i + 1));
    if first.kind.is_tree() {
        return (Component(run), i + 1);
    }
    let mut j: usize = i + 1;
    proof {
        lemma_run_end(ts, j as int);
    }
    while j < tokens.len() && !tokens[j].kind.is_component_boundary()
        invariant
            ts == tokens@,
            i < j <= ts.len(),
            run_end(ts, j as int) == run_end(ts, i + 1),
            deref_all(run@) == ts.subrange(i as int, j as int),
        decreases tokens.len() - j,
    {
        let ghost old_run = run@;
        assert(deref_all(old_run).len() == j - i);
        let t = &tokens[j];
        run.push(t);
        assert forall|k: int| 0 <= k < old_run.len() implies #[trigger] deref_all(run@)[k] == ts[i + k] by {
            assert(run@[k] == old_run[k]);
            assert(deref_all(old_run)[k] == ts.subrange(i as int, j as int)[k]);
        }
        assert(deref_all(run@) =~= ts.subrange(i as int, j + 1));
        j += 1;
    }
    (Component(run), j)
}

/// Splits `tokens` into components.
pub fn components<'i, A>(tokens: &'i Vec<Token<A>>) -> (r: Vec<Component<'i, A>>)
    ensures
        views(r@) == components_of(tokens@),
{
    let ghost ts = tokens@;
    let mut r: Vec<Component<'i, A>> = Vec::new();
    let mut i: usize = 0;
    while i < tokens.len()
        invariant
            ts == tokens@,
            i <= ts.len(),
            views(r@) + components_from(ts, i as int) == components_of(ts),
        decreases tokens.len() - i,
    {
        if tokens[i].kind.is_separator() {
            i += 1;
        } else {
            let ghost before = views(r@);
            let (c, e) = component_at(tokens, i);
            r.push(c);
            assert(views(r@) =~= before.push(ts.subrange(i as int, e as int)));
            assert(components_from(ts, i as int) == seq![ts.subrange(i as int, e as int)] + components_from(ts, e as int));
            assert(views(r@) + components_from(ts, e as int) =~= before + components_from(ts, i as int));
            i = e;
        }
    }
    assert(views(r@) + components_from(ts, i as int) =~= views(r@));
    r
}

/// A run made only of literals (and not empty).
pub open spec fn is_literal_run<A>(s: Seq<Token<A>>) -> bool {
    s.len() > 0 && forall|i: int| 0 <= i < s.len() ==> #[trigger] s[i].kind is Literal
}

/// The literals of a run made only of literals.
pub open spec fn run_literals<A>(s: Seq<Token<A>>) -> Seq<Literal> {
    s.map_values(|t: Token<A>| t.kind->Literal_0)
}

/// The texts of `ls`, concatenated.
pub open spec fn concat_texts(ls: Seq<Literal>) -> Seq<char>
    decreases ls.len(),
{
    if ls.len() == 0 {
        Seq::empty()
    } else {
        concat_texts(ls.drop_last()) + ls.last().text@
    }
}

/// A borrowed run of literals, whose texts read as one.
#[derive(Debug)]
pub struct LiteralSequence<'i>(pub Vec<&'i Literal>);

impl<'i> View for LiteralSequence<'i> {
    type V = Seq<Literal>;

    open spec fn view(&self) -> Seq<Literal> {
        deref_literals(self.0@)
    }
}

/// The literals that a sequence of references points to.
pub open spec fn deref_literals(s: Seq<&Literal>) -> Seq<Literal> {
    s.map_values(|l: &Literal| *l)
}

proof fn lemma_deref_literals_push(s: Seq<&Literal>, x: &Literal)
    ensures
        deref_literals(s.push(x)) == deref_literals(s).push(*x),
{
    assert(deref_literals(s.push(x)) =~= deref_literals(s).push(*x));
}

proof fn lemma_run_literals_take<A>(s: Seq<Token<A>>, i: int)
    requires
        0 <= i < s.len(),
    ensures
        run_literals(s.take(i + 1)) == run_literals(s.take(i)).push(s[i].kind->Literal_0),
{
    assert(run_literals(s.take(i + 1)) =~= run_literals(s.take(i)).push(s[i].kind->Literal_0));
}

impl<'i> LiteralSequence<'i> {
    pub fn literals(&self) -> (r: &[&'i Literal])
        ensures
            r@ == self.0@,
    {
        self.0.as_slice()
    }

    /// The literals' texts, concatenated.
    pub fn text(&self) -> (r: String)
        ensures
            r@ == concat_texts(self@),
    {
        let mut r = String::new();
        let mut i: usize = 0;
        while i < self.0.len()
            invariant
                i <= self@.len(),
                self@.len() == self.0@.len(),
                r@ == concat_texts(self@.take(i as int)),
            decreases self.0.len() - i,
        {
            assert(self@.take(i + 1).drop_last() == self@.take(i as int));
            r = r.concat(self.0[i].text.as_str());
            i += 1;
        }
        assert(self@.take(i as int) == self@);
        r
    }

    /// Whether the text is `.` or `..`, which name directories by their place.
    pub fn is_semantic_literal(&self) -> (r: bool)
        ensures
            r == (concat_texts(self@) == seq!['.'] || concat_texts(self@) == seq!['.', '.']),
    {
        let text = self.text();
        let s = text.as_str();
        let n = s.unicode_len();
        if n == 1 {
            let r = s.get_char(0) == '.';
            assert(r ==> s@ =~= seq!['.']);
            assert(s@ == seq!['.'] ==> s@[0] == '.');
            r
        } else if n == 2 {
            let r = s.get_char(0) == '.' && s.get_char(1) == '.';
            assert(r ==> s@ =~= seq!['.', '.']);
            assert(s@ == seq!['.', '.'] ==> s@[0] == '.' && s@[1] == '.');
            r
        } else {
            false
        }
    }
}

impl<'i, A> Component<'i, A> {
    pub fn tokens(&self) -> (r: &[&'i Token<A>])
        ensures
            r@ == self.0@,
    {
        self.0.as_slice()
    }

    /// The component's literals, where it is made only of literals.
    pub fn literal(&self) -> (r: Option<LiteralSequence<'i>>)
        ensures
            r is Some <==> is_literal_run(self@),
            r matches Some(l) ==> l@ == run_literals(self@),
    {
        let n = self.0.len();
        if n == 0 {
            return None;
        }
        let mut ls: Vec<&'i Literal> = Vec::new();
        let mut i: usize = 0;
        while i < n
            invariant
                n == self.0@.len(),
                i <= n,
                forall|j: int| 0 <= j < i ==> #[trigger] self@[j].kind is Literal,
                deref_literals(ls@) == run_literals(self@.take(i as int)),
            decreases n - i,
        {
            assert(self@[i as int] == *self.0@[i as int]);
            match &self.0[i].kind {
                TokenKind::Literal(literal) => {
                    proof {
                        lemma_deref_literals_push(ls@, literal);
                        lemma_run_literals_take(self@, i as int);
                    }
                    ls.push(literal);
                },
                _ => {
                    return None;
                },
            }
            i += 1;
        }
        assert(self@.take(n as int) == self@);
        Some(LiteralSequence(ls))
    }

    /// Conjunctive textual variance of the component's tokens.
    pub fn variance(&self, policy: Policy) -> (r: Variance<String>)
        ensures
            r@ == seq_text(self@, policy),
    {
        let mut acc = Variance::Invariant(String::new());
        let mut i: usize = 0;
        while i < self.0.len()
            invariant
                i <= self@.len(),
                self@.len() == self.0@.len(),
                acc@ == seq_text(self@.take(i as int), policy),
            decreases self.0.len() - i,
        {
            assert(self@.take(i + 1).drop_last() == self@.take(i as int));
            let v = self.0[i].variance(policy);
            acc = then_text_exec(acc, v);
            i += 1;
        }
        assert(self@.take(i as int) == self@);
        acc
    }

    /// Open where some token of the component is depth-open.
    pub fn depth(&self) -> (r: Boundedness)
        ensures
            r == open_if(exists|i: int| 0 <= i < self@.len() && #[trigger] depth_of(self@[i].kind) == Boundedness::Open),
    {
        let mut i: usize = 0;
        while i < self.0.len()
            invariant
                i <= self@.len(),
                self@.len() == self.0@.len(),
                forall|j: int| 0 <= j < i ==> #[trigger] depth_of(self@[j].kind) == Boundedness::Closed,
            decreases self.0.len() - i,
        {
            assert(self@[i as int] == *self.0@[i as int]);
            if self.0[i].kind.depth().is_open() {
                assert(depth_of(self@[i as int].kind) == Boundedness::Open);
                return Boundedness::Open;
            }
            i += 1;
        }
        Boundedness::Closed
    }
}


/// The literal runs found in `ts` from index `i` on: a component made only of
/// literals is one run; in any other component, the branches of its
/// alternatives and the tokens of its repetitions are searched in turn.
pub open spec fn literal_runs_from<A>(ts: Seq<Token<A>>, i: int) -> Seq<Seq<Token<A>>>
    decreases ts, ts.len() - i, 1int,
    via literal_runs_from_decreases::<A>
{
    if i < 0 || i >= ts.len() {
        Seq::empty()
    } else if ts[i].kind is Separator {
        literal_runs_from(ts, i + 1)
    } else {
        let e = component_end(ts, i);
        let c = ts.subrange(i, e);
        (if is_literal_run(c) {
            seq![c]
        } else {
            nested_runs(ts, i, e)
        }) + literal_runs_from(ts, e)
    }
}

#[via_fn]
proof fn literal_runs_from_decreases<A>(ts: Seq<Token<A>>, i: int) {
    if 0 <= i < ts.len() {
        lemma_run_end(ts, i + 1);
    }
}

/// The literal runs inside the tokens of `ts` from `k` up to `e`.
pub open spec fn nested_runs<A>(ts: Seq<Token<A>>, k: int, e: int) -> Seq<Seq<Token<A>>>
    decreases ts, e - k, 0int,
{
    if k < 0 || k >= e || k >= ts.len() {
        Seq::empty()
    } else {
        token_runs(ts[k]) + nested_runs(ts, k + 1, e)
    }
}

/// The literal runs inside one token: in each branch of an alternative, or in
/// the tokens of a repetition.
pub open spec fn token_runs<A>(t: Token<A>) -> Seq<Seq<Token<A>>>
    decreases t, 0int, 0int,
{
    match t.kind {
        TokenKind::Alternative(alt) => branch_runs(alt.0@),
        TokenKind::Repetition(rep) => literal_runs_from(rep.tokens@, 0),
        _ => Seq::empty(),
    }
}

pub open spec fn branch_runs<A>(bs: Seq<Vec<Token<A>>>) -> Seq<Seq<Token<A>>>
    decreases bs, 0int, 0int,
{
    if bs.len() == 0 {
        Seq::empty()
    } else {
        branch_runs(bs.drop_last()) + literal_runs_from(bs.last()@, 0)
    }
}

/// The runs of a list of found literal runs.
pub open spec fn firsts<'i, A>(s: Seq<(Component<'i, A>, LiteralSequence<'i>)>) -> Seq<Seq<Token<A>>> {
    s.map_values(|p: (Component<'i, A>, LiteralSequence<'i>)| p.0@)
}

/// Each found run comes with its literals.
pub open spec fn paired<'i, A>(s: Seq<(Component<'i, A>, LiteralSequence<'i>)>) -> bool {
    forall|j: int| 0 <= j < s.len() ==> (#[trigger] s[j]).1@ == run_literals(s[j].0@)
}

proof fn lemma_firsts_append<'i, A>(a: Seq<(Component<'i, A>, LiteralSequence<'i>)>, b: Seq<(Component<'i, A>, LiteralSequence<'i>)>)
    requires
        paired(a),
        paired(b),
    ensures
        firsts(a + b) == firsts(a) + firsts(b),
        paired(a + b),
{
    assert(firsts(a + b) =~= firsts(a) + firsts(b));
    assert forall|j: int| 0 <= j < (a + b).len() implies (#[trigger] (a + b)[j]).1@ == run_literals((a + b)[j].0@) by {
        if j < a.len() {
            assert((a + b)[j] == a[j]);
        } else {
            assert((a + b)[j] == b[j - a.len()]);
        }
    }
}

/// Appends `more` to `r`, keeping the found runs in order.
fn append_runs<'i, A>(r: &mut Vec<(Component<'i, A>, LiteralSequence<'i>)>, more: Vec<(Component<'i, A>, LiteralSequence<'i>)>)
    requires
        paired(old(r)@),
        paired(more@),
    ensures
        firsts(final(r)@) == firsts(old(r)@) + firsts(more@),
        paired(final(r)@),
{
    let mut more = more;
    proof {
        lemma_firsts_append(r@, more@);
    }
    r.append(&mut more);
}

/// The literal runs of `tokens`: each component made only of literals, and
/// within other components the runs found in alternatives and repetitions.
pub fn literals<'i, A>(tokens: &'i Vec<Token<A>>) -> (r: Vec<(Component<'i, A>, LiteralSequence<'i>)>)
    ensures
        firsts(r@) == literal_runs_from(tokens@, 0),
        paired(r@),
    decreases tokens,
{
    let ghost ts = tokens@;
    let mut r: Vec<(Component<'i, A>, LiteralSequence<'i>)> = Vec::new();
    let mut i: usize = 0;
    while i < tokens.len()
        invariant
            ts == tokens@,
            i <= ts.len(),
            firsts(r@) + literal_runs_from(ts, i as int) == literal_runs_from(ts, 0),
            paired(r@),
        decreases tokens.len() - i,
    {
        if tokens[i].kind.is_separator() {
            i += 1;
        } else {
            let ghost r0 = firsts(r@);
            let (component, e) = component_at(tokens, i);
            let ghost c = ts.subrange(i as int, e as int);
            match component.literal() {
                Some(literal) => {
                    let ghost before = r@;
                    r.push((component, literal));
                    assert(firsts(r@) =~= r0.push(c));
                    assert forall|j: int| 0 <= j < r@.len() implies (#[trigger] r@[j]).1@ == run_literals(r@[j].0@) by {
                        if j < before.len() {
                            assert(r@[j] == before[j]);
                        }
                    }
                    assert(firsts(r@) + literal_runs_from(ts, e as int) =~= r0 + literal_runs_from(ts, i as int));
                },
                None => {
                    let mut k: usize = i;
                    while k < e
                        invariant
                            ts == tokens@,
                            i <= k <= e <= ts.len(),
                            firsts(r@) + nested_runs(ts, k as int, e as int) == r0 + nested_runs(ts, i as int, e as int),
                            paired(r@),
                        decreases e - k,
                    {
                        let ghost rk = firsts(r@);
                        match &tokens[k].kind {
                            TokenKind::Alternative(alternative) => {
                                let branches = &alternative.0;
                                let mut j: usize = 0;
                                while j < branches.len()
                                    invariant
                                        ts == tokens@,
                                        k < ts.len(),
                                        ts[k as int].kind == TokenKind::Alternative(*alternative),
                                        *branches == alternative.0,
                                        j <= branches@.len(),
                                        firsts(r@) == rk + branch_runs(branches@.take(j as int)),
                                        paired(r@),
                                    decreases branches.len() - j,
                                {
                                    assert(branches@.take(j + 1).drop_last() == branches@.take(j as int));
                                    proof {
                                        broadcast use vstd::std_specs::vec::axiom_vec_index_decreases;
                                        assert(decreases_to!(tokens => tokens[k as int]));
                                        assert(decreases_to!(alternative.0 => alternative.0[j as int]));
                                        let t = tokens[k as int];
                                        assert(decreases_to!(t => t.kind));
                                        assert(decreases_to!(t.kind => t.kind->Alternative_0));
                                        assert(decreases_to!(*alternative => alternative.0));
                                        assert(decreases_to!(tokens => alternative.0[j as int]));
                                    }
                                    let found = literals(&branches[j]);
                                    append_runs(&mut r, found);
                                    assert(rk + branch_runs(branches@.take(j + 1)) =~= rk + branch_runs(branches@.take(j as int)) + literal_runs_from(branches@[j as int]@, 0));
                                    j += 1;
                                }
                                assert(branches@.take(j as int) == branches@);
                            },
                            TokenKind::Repetition(repetition) => {
                                proof {
                                    broadcast use vstd::std_specs::vec::axiom_vec_index_decreases;
                                    assert(decreases_to!(tokens => tokens[k as int]));
                                }
                                let found = literals(&repetition.tokens);
                                append_runs(&mut r, found);
                            },
                            _ => {},
                        }
                        assert(firsts(r@) == rk + token_runs(ts[k as int]));
                        assert(nested_runs(ts, k as int, e as int) == token_runs(ts[k as int]) + nested_runs(ts, k + 1, e as int));
                        assert(firsts(r@) + nested_runs(ts, k + 1, e as int) =~= rk + nested_runs(ts, k as int, e as int));
                        k += 1;
                    }
                    assert(firsts(r@) + literal_runs_from(ts, e as int) =~= r0 + literal_runs_from(ts, i as int));
                },
            }
            i = e;
        }
    }
    assert(firsts(r@) + literal_runs_from(ts, i as int) =~= firsts(r@));
    r
}

} // verus!
