//! The forms that repository names and e-mail addresses take.

use vstd::prelude::*;

use crate::text::{is_space, texts};

verus! {

/// `owner/repo`, each part made of letters, digits, dots, underscores and
/// hyphens.
pub const REPO_PATTERN: &'static str = "^[A-Za-z0-9._-]+/[A-Za-z0-9._-]+$";

/// `local@domain`, with a dot in the domain and no whitespace.
pub const EMAIL_PATTERN: &'static str = "^[^\\s@]+@[^\\s@]+\\.[^\\s@]+$";

/// A letter, a digit, a dot, an underscore or a hyphen of ASCII.
pub open spec fn is_name_char(c: char) -> bool {
    ||| 'A' <= c <= 'Z'
    ||| 'a' <= c <= 'z'
    ||| '0' <= c <= '9'
    ||| c == '.'
    ||| c == '_'
    ||| c == '-'
}

/// Names on both sides of a slash.
pub open spec fn is_repo(s: Seq<char>) -> bool {
    exists|slash: int|
        {
            &&& 0 < slash < s.len() - 1
            &&& #[trigger] s[slash] == '/'
            &&& forall|i: int| 0 <= i < s.len() && i != slash ==> is_name_char(#[trigger] s[i])
        }
}

/// One at sign with something in front of it, and behind it a dot that has
/// something on both sides; no whitespace anywhere.
pub open spec fn is_email(s: Seq<char>) -> bool {
    exists|at: int, dot: int|
        {
            &&& 0 < at
            &&& at + 1 < dot < s.len() - 1
            &&& #[trigger] s[at] == '@'
            &&& #[trigger] s[dot] == '.'
            &&& forall|i: int|
                0 <= i < s.len() && i != at ==> #[trigger] s[i] != '@' && !is_space(s[i])
        }
}

/// The first text of a list that lacks a form.
pub open spec fn first_without(v: Seq<Seq<char>>, form: spec_fn(Seq<char>) -> bool) -> Option<
    Seq<char>,
>
    decreases v.len(),
{
    if v.len() == 0 {
        None
    } else if !form(v[0]) {
        Some(v[0])
    } else {
        first_without(v.drop_first(), form)
    }
}

pub open spec fn repo_form() -> spec_fn(Seq<char>) -> bool {
    |t: Seq<char>| is_repo(t)
}

pub open spec fn email_form() -> spec_fn(Seq<char>) -> bool {
    |t: Seq<char>| is_email(t)
}

/// Whether a text matches one of the two patterns: `regex::Regex::new`, which
/// accepts both of them, and `is_match`. Each pattern is anchored at both ends
/// of the text, and `\s` stands for the Unicode property White_Space.
#[verifier::external_body]
pub(crate) fn matches_pattern(pattern: &str, text: &str) -> (r: bool)
    requires
        pattern@ == REPO_PATTERN@ || pattern@ == EMAIL_PATTERN@,
    ensures
        pattern@ == REPO_PATTERN@ ==> r == is_repo(text@),
        pattern@ == EMAIL_PATTERN@ ==> r == is_email(text@),
{
    regex::Regex::new(pattern).unwrap().is_match(text)
}

/// The position of the first text that does not match a pattern.
pub(crate) fn first_mismatch(v: &Vec<String>, pattern: &str) -> (r: Option<usize>)
    requires
        pattern@ == REPO_PATTERN@ || pattern@ == EMAIL_PATTERN@,
    ensures
        r matches Some(i) ==> i < v@.len(),
        pattern@ == REPO_PATTERN@ ==> first_without(texts(v@), repo_form()) == (match r {
            Some(i) => Some(v@[i as int]@),
            None => None,
        }),
        pattern@ == EMAIL_PATTERN@ ==> first_without(texts(v@), email_form()) == (match r {
            Some(i) => Some(v@[i as int]@),
            None => None,
        }),
{
    let ghost all = texts(v@);
    let mut i: usize = 0;
    assert(all.skip(0) =~= all);
    while i < v.len()
        invariant
            i <= v@.len(),
            all == texts(v@),
            pattern@ == REPO_PATTERN@ || pattern@ == EMAIL_PATTERN@,
            pattern@ == REPO_PATTERN@ ==> first_without(all, repo_form()) == first_without(
                all.skip(i as int),
                repo_form(),
            ),
            pattern@ == EMAIL_PATTERN@ ==> first_without(all, email_form()) == first_without(
                all.skip(i as int),
                email_form(),
            ),
        decreases v@.len() - i,
    {
        assert(all.skip(i as int)[0] == v@[i as int]@);
        assert(all.skip(i as int).drop_first() =~= all.skip(i + 1));
        if !matches_pattern(pattern, v[i].as_str()) {
            return Some(i);
        }
        i = i + 1;
    }
    None
}

} // verus!
