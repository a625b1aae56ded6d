//! Regular expressions: what a pattern captures in a text.

use vstd::prelude::*;

verus! {

/// The error that the `regex` crate gives for a pattern that it refuses.
#[verifier::external_type_specification]
#[verifier::external_body]
pub struct ExRegexError(regex::Error);

/// What the first match of a pattern in a text captures, group by group,
/// the whole match being group 0. The outer `None`: the pattern is refused.
/// The inner `None`: the pattern matches nowhere in the text. A group within
/// a match is `None` where it took no part in the match.
pub uninterp spec fn captured(pattern: Seq<char>, text: Seq<char>) -> Option<
    Option<Seq<Option<Seq<char>>>>,
>;

/// Compiles `pattern` with `regex::Regex::new` and searches `text` with
/// `Regex::captures`; the groups of the leftmost match are handed out in the
/// order of `Captures::iter`, each as the text it matched. Both steps depend
/// on the pattern and the text alone.
#[verifier::external_body]
pub(crate) fn captures(pattern: &str, text: &str) -> (found: Result<
    Option<Vec<Option<String>>>,
    regex::Error,
>)
    ensures
        match found {
            Ok(Some(groups)) => captured(pattern@, text@) == Some(Some(groups.deep_view())),
            Ok(None) => captured(pattern@, text@) == Some(None::<Seq<Option<Seq<char>>>>),
            Err(_) => captured(pattern@, text@) is None,
        },
{
    let compiled = regex::Regex::new(pattern)?;
    Ok(
        compiled.captures(text).map(
            |caps| caps.iter().map(|group| group.map(|m| m.as_str().to_owned())).collect(),
        ),
    )
}

/// The groups that a pattern captures in a text; `None` where the pattern
/// is refused or matches nowhere.
pub open spec fn groups_in(pattern: Seq<char>, text: Seq<char>) -> Option<Seq<Option<Seq<char>>>> {
    match captured(pattern, text) {
        Some(Some(groups)) => Some(groups),
        _ => None,
    }
}

/// Searches `text` for `pattern` and gives the groups of the first match.
pub fn find_groups(pattern: &str, text: &str) -> (groups: Option<Vec<Option<String>>>)
    ensures
        groups.deep_view() == groups_in(pattern@, text@),
{
    match captures(pattern, text) {
        Ok(Some(groups)) => Some(groups),
        Ok(None) => None,
        Err(_) => None,
    }
}

/// The text of group `index` among captured groups, where there is such a
/// group and it took part in the match.
pub open spec fn group_text(groups: Seq<Option<Seq<char>>>, index: int) -> Option<Seq<char>> {
    if 0 <= index < groups.len() {
        groups[index]
    } else {
        None
    }
}

/// A copy of the text of group `index`.
pub fn group(groups: &Vec<Option<String>>, index: usize) -> (text: Option<String>)
    ensures
        text.deep_view() == group_text(groups.deep_view(), index as int),
{
    if index < groups.len() {
        match &groups[index] {
            Some(text) => Some(text.clone()),
            None => None,
        }
    } else {
        None
    }
}

} // verus!
