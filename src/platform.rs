//! Path conventions that the analysis depends on: case sensitivity, the
//! separator, and what the standard library says about characters.
use vstd::prelude::*;

verus! {

/// What `char::is_lowercase` answers for `c` (the Unicode `Lowercase` property).
pub uninterp spec fn is_lowercase_char(c: char) -> bool;

/// What `char::is_uppercase` answers for `c` (the Unicode `Uppercase` property).
pub uninterp spec fn is_uppercase_char(c: char) -> bool;

/// Relies on `char::is_lowercase`: its answer depends on the character alone;
/// among ASCII characters exactly `a` to `z` have the `Lowercase` property.
#[verifier::external_body]
fn char_is_lowercase(c: char) -> (r: bool)
    ensures
        r == is_lowercase_char(c),
        c <= '\u{7f}' ==> (r <==> ('a' <= c && c <= 'z')),
{
    c.is_lowercase()
}

/// Relies on `char::is_uppercase`: its answer depends on the character alone;
/// among ASCII characters exactly `A` to `Z` have the `Uppercase` property.
#[verifier::external_body]
fn char_is_uppercase(c: char) -> (r: bool)
    ensures
        r == is_uppercase_char(c),
        c <= '\u{7f}' ==> (r <==> ('A' <= c && c <= 'Z')),
{
    c.is_uppercase()
}

/// What `char::to_lowercase` yields for `c`: its lowercase mapping, one or
/// more characters.
pub uninterp spec fn lowercase_of(c: char) -> Seq<char>;

/// Relies on `char::to_lowercase`: the characters it yields depend on `c`
/// alone, and a character without a lowercase mapping (an ASCII character
/// other than `A` to `Z`) is yielded as it is.
#[verifier::external_body]
fn char_to_lowercase(c: char) -> (r: String)
    ensures
        r@ == lowercase_of(c),
        c <= '\u{7f}' && !('A' <= c && c <= 'Z') ==> r@ == seq![c],
{
    c.to_lowercase().collect()
}

/// `s` with each character replaced by its lowercase mapping.
pub open spec fn fold_case(s: Seq<char>) -> Seq<char>
    decreases s.len(),
{
    if s.len() == 0 {
        Seq::empty()
    } else {
        fold_case(s.drop_last()) + lowercase_of(s.last())
    }
}

/// `s` with each character replaced by its lowercase mapping.
pub fn text_fold_case(s: &str) -> (r: String)
    ensures
        r@ == fold_case(s@),
{
    let n = s.unicode_len();
    let mut r = String::new();
    let mut i: usize = 0;
    while i < n
        invariant
            n == s@.len(),
            i <= n,
            r@ == fold_case(s@.take(i as int)),
        decreases n - i,
    {
        assert(s@.take(i + 1).drop_last() == s@.take(i as int));
        let lower = char_to_lowercase(s.get_char(i));
        r = r.concat(lower.as_str());
        i += 1;
    }
    assert(s@.take(n as int) == s@);
    r
}

/// Relies on `std::path::MAIN_SEPARATOR`, which is `/` or `\` depending on the platform.
#[verifier::external_body]
fn main_separator() -> (c: char)
    ensures
        c == '/' || c == '\\',
{
    std::path::MAIN_SEPARATOR
}

/// Relies on `char`'s `to_string`: a string of exactly that character.
#[verifier::external_body]
pub(crate) fn char_to_string(c: char) -> (r: String)
    ensures
        r@ == seq![c],
{
    c.to_string()
}

/// A character with casing: one that is lowercase or uppercase.
pub open spec fn is_cased(c: char) -> bool {
    is_lowercase_char(c) || is_uppercase_char(c)
}

/// Whether any character of `s` has casing.
pub open spec fn has_casing(s: Seq<char>) -> bool {
    exists|i: int| 0 <= i < s.len() && #[trigger] is_cased(s[i])
}

/// An ASCII letter.
pub open spec fn is_ascii_letter(c: char) -> bool {
    ('A' <= c && c <= 'Z') || ('a' <= c && c <= 'z')
}

/// Whether any character of `s` has casing. An ASCII text has casing exactly
/// where it has a letter.
pub fn text_has_casing(s: &str) -> (r: bool)
    ensures
        r == has_casing(s@),
        (forall|i: int| 0 <= i < s@.len() ==> s@[i] <= '\u{7f}') ==> (r <==> exists|i: int|
            0 <= i < s@.len() && #[trigger] is_ascii_letter(s@[i])),
{
    let n = s.unicode_len();
    let mut i: usize = 0;
    while i < n
        invariant
            n == s@.len(),
            i <= n,
            forall|j: int| 0 <= j < i ==> !#[trigger] is_cased(s@[j]),
            forall|j: int| 0 <= j < i && s@[j] <= '\u{7f}' ==> !#[trigger] is_ascii_letter(s@[j]),
        decreases n - i,
    {
        let c = s.get_char(i);
        let lower = char_is_lowercase(c);
        let upper = char_is_uppercase(c);
        if lower || upper {
            assert(is_cased(s@[i as int]));
            assert(c <= '\u{7f}' ==> is_ascii_letter(s@[i as int]));
            return true;
        }
        i += 1;
    }
    false
}

/// How paths compare and are written: whether case is ignored, and the
/// character that separates path components.
#[derive(Clone, Copy, Debug, PartialEq, Eq, Structural)]
pub struct Policy {
    pub case_insensitive: bool,
    pub separator: char,
}

impl Policy {
    /// The platform's path separator, with the given case policy.
    pub fn native(case_insensitive: bool) -> (p: Policy)
        ensures
            p.case_insensitive == case_insensitive,
            p.separator == '/' || p.separator == '\\',
    {
        Policy { case_insensitive, separator: main_separator() }
    }

    /// Whether two texts name the same path text: equal, or, where case is
    /// ignored, equal once case is folded.
    pub open spec fn same_text(&self, x: Seq<char>, y: Seq<char>) -> bool {
        if self.case_insensitive {
            fold_case(x) == fold_case(y)
        } else {
            x == y
        }
    }

    pub fn texts_agree(&self, x: &String, y: &String) -> (r: bool)
        ensures
            r == self.same_text(x@, y@),
    {
        if self.case_insensitive {
            let fx = text_fold_case(x.as_str());
            let fy = text_fold_case(y.as_str());
            fx == fy
        } else {
            x.eq(y)
        }
    }

    /// The platform's path separator as text.
    pub fn separator_text(&self) -> (r: String)
        ensures
            r@ == seq![self.separator],
    {
        char_to_string(self.separator)
    }
}

} // verus!
