use std::path::Path;

use wax::analysis::conjunctive_variance;
use wax::component::{components, literals};
use wax::platform::{text_fold_case, text_has_casing, Policy};
use wax::size::conjunctive_size_variance;
use wax::token::{
    any, Alternative, Archetype, Class, Evaluation, Literal, Repetition, Separator, Token, TokenKind, Wildcard,
};
use wax::tokenized::{invariant_text_prefix, invariant_text_prefix_upper_bound, Tokenized};
use wax::variance::{Boundedness, Variance};

fn sensitive() -> Policy {
    Policy { case_insensitive: false, separator: '/' }
}

fn insensitive() -> Policy {
    Policy { case_insensitive: true, separator: '/' }
}

fn lit(text: &str) -> Token<()> {
    Token::new(TokenKind::Literal(Literal { text: text.to_string(), is_case_insensitive: false }), ())
}

fn lit_ci(text: &str) -> Token<()> {
    Token::new(TokenKind::Literal(Literal { text: text.to_string(), is_case_insensitive: true }), ())
}

fn sep() -> Token<()> {
    Token::new(TokenKind::Separator(Separator), ())
}

fn star() -> Token<()> {
    Token::new(TokenKind::Wildcard(Wildcard::ZeroOrMore(Evaluation::Eager)), ())
}

fn one() -> Token<()> {
    Token::new(TokenKind::Wildcard(Wildcard::One), ())
}

fn tree(has_root: bool) -> Token<()> {
    Token::new(TokenKind::Wildcard(Wildcard::Tree { has_root }), ())
}

fn class(is_negated: bool, archetypes: Vec<Archetype>) -> Token<()> {
    Token::new(TokenKind::Class(Class { is_negated, archetypes }), ())
}

fn alt(branches: Vec<Vec<Token<()>>>) -> Token<()> {
    Token::new(TokenKind::Alternative(Alternative(branches)), ())
}

fn rep(tokens: Vec<Token<()>>, lower: usize, upper: Option<usize>) -> Token<()> {
    Token::new(TokenKind::Repetition(Repetition::new(tokens, lower, upper).unwrap()), ())
}

fn text_of(v: Variance<String>) -> Option<String> {
    match v {
        Variance::Invariant(text) => Some(text),
        Variance::Variant(_) => None,
    }
}

fn is_variant(v: &Variance<String>, b: Boundedness) -> bool {
    matches!(v, Variance::Variant(x) if *x == b)
}

#[test]
fn repeated_queries_agree() {
    let tokens = vec![lit("a"), sep(), star(), alt(vec![vec![lit("x")], vec![lit("y")]])];
    let first = conjunctive_variance(&tokens, sensitive());
    let second = conjunctive_variance(&tokens, sensitive());
    assert!(is_variant(&first, Boundedness::Closed));
    assert!(is_variant(&second, Boundedness::Closed));
    let t = tree(true);
    assert_eq!(t.has_component_boundary(), t.has_component_boundary());
    assert_eq!(t.kind().depth(), t.kind().depth());
}

#[test]
fn empty_sequence_is_empty_invariant() {
    let tokens: Vec<Token<()>> = Vec::new();
    assert_eq!(text_of(conjunctive_variance(&tokens, sensitive())), Some(String::new()));
    let pattern = Tokenized::new(String::new(), Vec::<Token<()>>::new());
    assert_eq!(text_of(pattern.variance(insensitive())), Some(String::new()));
}

#[test]
fn open_unit_opens_sequence() {
    let tokens = vec![lit("a"), tree(false), lit("b"), one()];
    assert!(is_variant(&conjunctive_variance(&tokens, sensitive()), Boundedness::Open));
    let closed = vec![lit("a"), one(), lit("b")];
    assert!(is_variant(&conjunctive_variance(&closed, sensitive()), Boundedness::Closed));
}

#[test]
fn invariant_sequence_concatenates() {
    let tokens = vec![lit("foo"), sep(), lit("bar"), class(false, vec![Archetype::Character('z')])];
    assert_eq!(text_of(conjunctive_variance(&tokens, sensitive())), Some("foo/barz".to_string()));
    let windows = Policy { case_insensitive: false, separator: '\\' };
    assert_eq!(text_of(conjunctive_variance(&tokens, windows)), Some("foo\\barz".to_string()));
}

#[test]
fn agreeing_branches_collapse() {
    let a = alt(vec![vec![lit("foo")], vec![lit("foo")]]);
    assert_eq!(text_of(a.variance(sensitive())), Some("foo".to_string()));
    let split = alt(vec![vec![lit("fo"), lit("o")], vec![lit("foo")]]);
    assert_eq!(text_of(split.variance(sensitive())), Some("foo".to_string()));
}

#[test]
fn disagreeing_branches_vary() {
    let a = alt(vec![vec![lit("foo")], vec![lit("bar")]]);
    assert!(is_variant(&a.variance(sensitive()), Boundedness::Closed));
    let open = alt(vec![vec![lit("foo")], vec![tree(false)]]);
    assert!(is_variant(&open.variance(sensitive()), Boundedness::Open));
}

#[test]
fn negated_class_is_variant_closed() {
    let c = class(true, vec![Archetype::Character('a')]);
    assert!(is_variant(&c.variance(sensitive()), Boundedness::Closed));
    assert!(is_variant(&c.variance(insensitive()), Boundedness::Closed));
}

#[test]
fn class_archetypes() {
    let single = class(false, vec![Archetype::Character('a'), Archetype::Range('a', 'a')]);
    assert_eq!(text_of(single.variance(sensitive())), Some("a".to_string()));
    assert!(is_variant(&single.variance(insensitive()), Boundedness::Closed));
    let range = class(false, vec![Archetype::Range('a', 'z')]);
    assert!(is_variant(&range.variance(sensitive()), Boundedness::Closed));
    let two = class(false, vec![Archetype::Character('a'), Archetype::Character('b')]);
    assert!(is_variant(&two.variance(sensitive()), Boundedness::Closed));
}

#[test]
fn exact_repetition_repeats() {
    let r = rep(vec![lit("ab")], 3, Some(3));
    assert_eq!(text_of(r.variance(sensitive())), Some("ababab".to_string()));
}

#[test]
fn unbounded_repetition_is_open() {
    let r = rep(vec![lit("ab")], 2, None);
    assert!(is_variant(&r.variance(sensitive()), Boundedness::Open));
    let ranged = rep(vec![lit("ab")], 1, Some(2));
    assert!(is_variant(&ranged.variance(sensitive()), Boundedness::Open));
}

#[test]
fn repetition_bounds_rejected() {
    assert!(Repetition::new(vec![lit("a")], 0, Some(0)).is_none());
    assert!(Repetition::new(vec![lit("a")], 3, Some(2)).is_none());
    let ok = Repetition::new(vec![lit("a")], 2, Some(5)).unwrap();
    assert_eq!(ok.bounds(), (2, Some(5)));
    let open = Repetition::new(vec![lit("a")], 0, None).unwrap();
    assert_eq!(open.bounds(), (0, None));
}

#[test]
fn partition_takes_literal_prefix() {
    let tokens = vec![lit("literal"), sep(), lit("foo"), sep(), star(), lit("bar")];
    assert_eq!(invariant_text_prefix_upper_bound(&tokens, sensitive()), 4);
    assert_eq!(invariant_text_prefix(&tokens, sensitive()), "literal/foo/");
    let pattern = Tokenized::new("literal/foo/*bar".to_string(), tokens);
    let (prefix, rest) = pattern.partition(sensitive());
    assert_eq!(Path::new(&prefix), Path::new("literal/foo"));
    assert_eq!(rest.expression(), "literal/foo/*bar");
    assert_eq!(rest.tokens().len(), 2);
    assert!(matches!(rest.tokens()[0].kind(), TokenKind::Wildcard(Wildcard::ZeroOrMore(_))));
    match rest.tokens()[1].kind() {
        TokenKind::Literal(l) => assert_eq!(l.text(), "bar"),
        _ => panic!("expected a literal"),
    }
}

#[test]
fn partition_unroots_leading_tree() {
    let pattern = Tokenized::new("/**/foo".to_string(), vec![tree(true), lit("foo")]);
    let (prefix, rest) = pattern.partition(sensitive());
    assert_eq!(prefix, "");
    assert_eq!(rest.tokens().len(), 2);
    assert!(matches!(rest.tokens()[0].kind(), TokenKind::Wildcard(Wildcard::Tree { has_root: false })));
    assert!(!rest.tokens()[0].has_root());
}

#[test]
fn partition_of_invariant_pattern() {
    let pattern = Tokenized::new("a/b".to_string(), vec![lit("a"), sep(), lit("b")]);
    let (prefix, rest) = pattern.partition(sensitive());
    assert_eq!(prefix, "a/b");
    assert!(rest.tokens().is_empty());
}

#[test]
fn component_boundary_detection() {
    assert!(sep().has_component_boundary());
    assert!(tree(false).has_component_boundary());
    assert!(alt(vec![vec![lit("a")], vec![lit("b"), sep()]]).has_component_boundary());
    assert!(rep(vec![tree(false)], 1, Some(1)).has_component_boundary());
    assert!(!lit("a").has_component_boundary());
    assert!(!alt(vec![vec![lit("a"), star()], vec![class(false, vec![Archetype::Character('c')]), one()]])
        .has_component_boundary());
    let r = Repetition::new(vec![lit("a"), star()], 0, None).unwrap();
    assert!(!r.has_component_boundary());
}

#[test]
fn case_sensitivity_of_literals() {
    let t = lit("Foo");
    assert!(is_variant(&t.variance(insensitive()), Boundedness::Closed));
    assert_eq!(text_of(t.variance(sensitive())), Some("Foo".to_string()));
    let caseless = lit("123");
    assert_eq!(text_of(caseless.variance(insensitive())), Some("123".to_string()));
    let ci = lit_ci("Foo");
    assert_eq!(text_of(ci.variance(insensitive())), Some("Foo".to_string()));
    assert!(is_variant(&ci.variance(sensitive()), Boundedness::Closed));
}

#[test]
fn variant_casing() {
    let l = Literal { text: "straße".to_string(), is_case_insensitive: false };
    assert!(l.has_variant_casing(insensitive()));
    assert!(!l.has_variant_casing(sensitive()));
    let digits = Literal { text: "42-_".to_string(), is_case_insensitive: false };
    assert!(!digits.has_variant_casing(insensitive()));
    let upper = Literal { text: "0A".to_string(), is_case_insensitive: true };
    assert!(upper.has_variant_casing(sensitive()));
}

#[test]
fn depth_and_breadth() {
    assert_eq!(lit("a").kind().depth(), Boundedness::Closed);
    assert_eq!(star().kind().depth(), Boundedness::Closed);
    assert_eq!(star().kind().breadth(), Boundedness::Open);
    assert_eq!(one().kind().breadth(), Boundedness::Closed);
    assert_eq!(tree(true).kind().depth(), Boundedness::Open);
    assert_eq!(tree(true).kind().breadth(), Boundedness::Open);
    assert_eq!(alt(vec![vec![lit("a")], vec![tree(false)]]).kind().depth(), Boundedness::Open);
    assert_eq!(alt(vec![vec![lit("a")], vec![sep()]]).kind().depth(), Boundedness::Closed);
    assert_eq!(alt(vec![vec![lit("a")], vec![star()]]).kind().breadth(), Boundedness::Open);
    assert_eq!(rep(vec![lit("a"), sep()], 1, None).kind().depth(), Boundedness::Open);
    assert_eq!(rep(vec![lit("a"), sep()], 1, Some(4)).kind().depth(), Boundedness::Closed);
    assert_eq!(rep(vec![tree(false)], 2, Some(2)).kind().depth(), Boundedness::Open);
    assert_eq!(rep(vec![lit("a")], 1, None).kind().depth(), Boundedness::Closed);
    assert_eq!(rep(vec![star(), sep()], 1, None).kind().breadth(), Boundedness::Open);
    assert_eq!(rep(vec![one()], 1, None).kind().breadth(), Boundedness::Closed);
}

#[test]
fn rooted_tokens() {
    assert!(sep().has_root());
    assert!(tree(true).has_root());
    assert!(!tree(false).has_root());
    assert!(!lit("a").has_root());
    assert!(alt(vec![vec![lit("a")], vec![sep(), lit("b")]]).has_root());
    assert!(!alt(vec![vec![lit("a"), sep()]]).has_root());
    assert!(rep(vec![sep(), lit("a")], 1, None).has_root());
    let mut t = tree(true);
    assert!(t.unroot());
    assert!(!t.unroot());
    let mut l = lit("a");
    assert!(!l.unroot());
}

#[test]
fn first_and_last_leaves() {
    let a = alt(vec![vec![lit("a"), sep()], vec![star()]]);
    assert!(a.has_terminating_token_with(&|t: &Token<()>| t.kind().is_component_boundary()));
    assert!(!a.has_preceding_token_with(&|t: &Token<()>| t.kind().is_component_boundary()));
    assert!(a.has_token_with(&|t: &Token<()>| matches!(t.kind(), TokenKind::Literal(_))));
}

#[test]
fn components_split_at_boundaries() {
    let tokens = vec![sep(), lit("a"), lit("b"), sep(), sep(), tree(false), star(), lit("c"), sep()];
    let cs = components(&tokens);
    assert_eq!(cs.len(), 3);
    assert_eq!(cs[0].tokens().len(), 2);
    assert_eq!(cs[1].tokens().len(), 1);
    assert!(matches!(cs[1].tokens()[0].kind(), TokenKind::Wildcard(Wildcard::Tree { .. })));
    assert_eq!(cs[2].tokens().len(), 2);
    assert_eq!(cs[0].literal().unwrap().text(), "ab");
    assert!(cs[2].literal().is_none());
    assert_eq!(cs[1].depth(), Boundedness::Open);
    assert_eq!(cs[0].depth(), Boundedness::Closed);
    assert_eq!(text_of(cs[0].variance(sensitive())), Some("ab".to_string()));
}

#[test]
fn literals_found_in_nested_tokens() {
    let tokens = vec![
        lit("foo"),
        sep(),
        star(),
        alt(vec![vec![lit("x"), sep(), lit("y")], vec![star()]]),
        sep(),
        rep(vec![lit("z")], 0, None),
        sep(),
        lit(".."),
    ];
    let found = literals(&tokens);
    let texts: Vec<String> = found.iter().map(|(_, l)| l.text()).collect();
    assert_eq!(texts, vec!["foo", "x", "y", "z", ".."]);
    assert!(found[4].1.is_semantic_literal());
    assert!(!found[0].1.is_semantic_literal());
    assert_eq!(found[1].0.tokens().len(), 1);
}

#[test]
fn unannotated_tree_keeps_shape() {
    let t = Token::new(TokenKind::Literal(Literal { text: "a".to_string(), is_case_insensitive: false }), 7u32);
    let branch = vec![t, Token::new(TokenKind::Separator(Separator), 9u32)];
    let u = any(vec![branch]);
    match u.kind() {
        TokenKind::Alternative(a) => {
            assert_eq!(a.branches().len(), 1);
            assert_eq!(a.branches()[0].len(), 2);
            assert!(matches!(a.branches()[0][1].kind(), TokenKind::Separator(_)));
        },
        _ => panic!("expected an alternative"),
    }
}

#[test]
fn separator_text() {
    let s = Separator::invariant_text();
    assert_eq!(s, std::path::MAIN_SEPARATOR.to_string());
    let p = Policy::native(true);
    assert!(p.case_insensitive);
    assert_eq!(p.separator, std::path::MAIN_SEPARATOR);
}

fn size_of(v: Variance<usize>) -> Option<usize> {
    match v {
        Variance::Invariant(n) => Some(n),
        Variance::Variant(_) => None,
    }
}

#[test]
fn size_of_empty_sequence_is_zero() {
    let tokens: Vec<Token<()>> = Vec::new();
    assert_eq!(size_of(conjunctive_size_variance(&tokens, sensitive())), Some(0));
}

#[test]
fn size_adds_up_bytes() {
    let tokens = vec![lit("foo"), sep(), lit("é")];
    assert_eq!(size_of(conjunctive_size_variance(&tokens, sensitive())), Some(6));
    let pattern = Tokenized::new("foo/é".to_string(), tokens);
    assert_eq!(size_of(pattern.size_variance(sensitive())), Some(6));
}

#[test]
fn class_size_is_pessimistic() {
    let two = class(false, vec![Archetype::Character('a'), Archetype::Character('b')]);
    assert_eq!(size_of(two.size_variance(sensitive())), Some(4));
    let negated = class(true, vec![Archetype::Character('a')]);
    assert!(matches!(negated.size_variance(sensitive()), Variance::Variant(Boundedness::Closed)));
    let range = class(false, vec![Archetype::Range('a', 'z')]);
    assert!(matches!(range.size_variance(sensitive()), Variance::Variant(Boundedness::Closed)));
}

#[test]
fn repetition_size() {
    let r = rep(vec![lit("ab")], 3, Some(3));
    assert_eq!(size_of(r.size_variance(sensitive())), Some(6));
    let open = rep(vec![lit("ab")], 2, None);
    assert!(matches!(open.size_variance(sensitive()), Variance::Variant(Boundedness::Open)));
}

#[test]
fn open_unit_opens_size() {
    let tokens = vec![lit("a"), tree(false), lit("b")];
    assert!(matches!(conjunctive_size_variance(&tokens, sensitive()), Variance::Variant(Boundedness::Open)));
    let alternative = alt(vec![vec![lit("ab")], vec![lit("cd")]]);
    assert_eq!(size_of(alternative.size_variance(sensitive())), Some(2));
}

#[test]
fn repeated_separators_in_repetition() {
    let r = rep(vec![star(), sep(), sep()], 2, Some(2));
    assert!(matches!(r.variance(sensitive()), Variance::Variant(Boundedness::Open)));
    assert!(matches!(r.size_variance(sensitive()), Variance::Variant(Boundedness::Open)));
    let leading = rep(vec![sep(), sep(), star()], 2, Some(2));
    assert!(matches!(leading.variance(sensitive()), Variance::Variant(Boundedness::Open)));
    let apart = rep(vec![star(), lit("a"), sep()], 2, Some(2));
    assert!(matches!(apart.variance(sensitive()), Variance::Variant(Boundedness::Closed)));
    let open = rep(vec![tree(false), sep(), sep()], 2, Some(2));
    assert!(matches!(open.variance(sensitive()), Variance::Variant(Boundedness::Open)));
    let plain = rep(vec![lit("a"), sep(), sep()], 2, Some(2));
    assert_eq!(text_of(plain.variance(sensitive())), Some("a//a//".to_string()));
}

#[test]
fn branches_agree_when_case_is_ignored() {
    let a = alt(vec![vec![lit_ci("Foo")], vec![lit_ci("fOO")]]);
    assert_eq!(text_of(a.variance(insensitive())), Some("Foo".to_string()));
    let caseless = alt(vec![vec![lit("12")], vec![lit("12")]]);
    assert_eq!(text_of(caseless.variance(insensitive())), Some("12".to_string()));
    let sensitive_literals = alt(vec![vec![lit("foo")], vec![lit("foo")]]);
    assert!(is_variant(&sensitive_literals.variance(insensitive()), Boundedness::Closed));
    let p = insensitive();
    assert!(p.texts_agree(&"ÀB".to_string(), &"àb".to_string()));
    assert!(!sensitive().texts_agree(&"AB".to_string(), &"ab".to_string()));
}

#[test]
fn case_folding() {
    assert_eq!(text_fold_case("ABC/dÉ"), "abc/dé");
    assert_eq!(text_fold_case("İ"), "i\u{307}");
}

#[test]
fn conversions() {
    assert_eq!(Archetype::from('a'), Archetype::Character('a'));
    assert_eq!(Archetype::from(('a', 'f')), Archetype::Range('a', 'f'));
    let t: Token<()> = Token::from(TokenKind::from(Wildcard::One));
    assert!(matches!(t.kind(), TokenKind::Wildcard(Wildcard::One)));
    let a: Alternative<()> = Alternative::from(vec![vec![lit("x")]]);
    assert_eq!(a.branches().len(), 1);
}

#[test]
fn separator_coalesces_with_open_unit() {
    let r = rep(vec![star(), sep()], 2, Some(2));
    assert!(matches!(r.variance(sensitive()), Variance::Variant(Boundedness::Open)));
    assert!(matches!(r.size_variance(sensitive()), Variance::Variant(Boundedness::Open)));
    let nested = rep(vec![sep(), alt(vec![vec![star()], vec![lit("a")]])], 3, Some(3));
    assert!(matches!(nested.size_variance(sensitive()), Variance::Variant(Boundedness::Open)));
    let one_char = rep(vec![one(), sep()], 2, Some(2));
    assert!(matches!(one_char.variance(sensitive()), Variance::Variant(Boundedness::Closed)));
    assert!(matches!(one_char.size_variance(sensitive()), Variance::Variant(Boundedness::Closed)));
    let plain = rep(vec![lit("ab"), sep()], 2, Some(2));
    assert_eq!(size_of(plain.size_variance(sensitive())), Some(6));
}

#[test]
fn component_size() {
    let tokens = vec![lit("ab"), class(false, vec![Archetype::Character('x')]), sep(), star()];
    let cs = components(&tokens);
    assert_eq!(size_of(cs[0].size_variance(sensitive())), Some(6));
    assert!(matches!(cs[1].size_variance(sensitive()), Variance::Variant(Boundedness::Closed)));
}

#[test]
fn half_open_repetition_bounds() {
    assert!(Repetition::new_half_open(vec![lit("a")], 0, 1).is_none());
    assert!(Repetition::new_half_open(vec![lit("a")], 0, 0).is_none());
    assert!(Repetition::new_half_open(vec![lit("a")], 3, 3).is_none());
    let r = Repetition::new_half_open(vec![lit("a")], 2, 4).unwrap();
    assert_eq!(r.bounds(), (2, Some(3)));
    let exact = Repetition::new_half_open(vec![lit("a")], 3, 4).unwrap();
    assert_eq!(exact.bounds(), (3, Some(3)));
}

#[test]
fn ascii_casing() {
    assert!(!text_has_casing("12-_/."));
    assert!(text_has_casing("12a"));
    assert!(text_has_casing("Z"));
    assert!(text_has_casing("ß"));
}
