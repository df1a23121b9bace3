//! Calls into `regex` and into the parts of `str` that have no specification
//! in vstd. Each result that takes more than a few lines to describe is given a
//! name; the scanner's contracts are stated over those names.

use vstd::prelude::*;

verus! {

/// The capture groups of the leftmost-first match of `pattern` in `text` (group 0
/// is the whole match, a group that took part in no match is empty), or `None`
/// when nothing matches.
pub uninterp spec fn regex_first(pattern: Seq<char>, text: Seq<char>) -> Option<Seq<Seq<char>>>;

/// The capture groups of each successive non-overlapping match of `pattern` in
/// `text`, in the same form as `regex_first`.
pub uninterp spec fn regex_all(pattern: Seq<char>, text: Seq<char>) -> Seq<Seq<Seq<char>>>;

/// `s` with every match of `from` replaced by `to`.
pub uninterp spec fn replaced(s: Seq<char>, from: Seq<char>, to: Seq<char>) -> Seq<char>;

/// The lines of `s`, without their line endings.
pub uninterp spec fn lines_of(s: Seq<char>) -> Seq<Seq<char>>;

/// `p` occurs somewhere in `s`.
pub open spec fn occurs(s: Seq<char>, p: Seq<char>) -> bool {
    exists|i: int| 0 <= i && i + p.len() <= s.len() && #[trigger] s.subrange(i, i + p.len()) == p
}

pub open spec fn strings_view(v: Seq<String>) -> Seq<Seq<char>> {
    v.map_values(|x: String| x@)
}

/// Relies on `regex::Regex::new` and `regex::Regex::captures`: compiles
/// `pattern` and returns the groups of its first match in `text`.
#[verifier::external_body]
pub(crate) fn captures(pattern: &str, text: &str) -> (r: Option<Vec<String>>)
    ensures
        match r {
            Some(v) => regex_first(pattern@, text@) == Some(strings_view(v@)),
            None => regex_first(pattern@, text@) is None,
        },
{
    let re = regex::Regex::new(pattern).ok()?;
    let caps = re.captures(text)?;
    Some(caps.iter().map(|m| m.map_or(String::new(), |m| m.as_str().to_string())).collect())
}

/// Relies on `regex::Regex::new` and `regex::Regex::captures_iter`: compiles
/// `pattern` and returns the groups of each of its matches in `text`, in order.
#[verifier::external_body]
pub(crate) fn captures_all(pattern: &str, text: &str) -> (r: Vec<Vec<String>>)
    ensures
        r@.map_values(|v: Vec<String>| strings_view(v@)) == regex_all(pattern@, text@),
{
    match regex::Regex::new(pattern) {
        Ok(re) => re
            .captures_iter(text)
            .map(|c| c.iter().map(|m| m.map_or(String::new(), |m| m.as_str().to_string())).collect())
            .collect(),
        Err(_) => Vec::new(),
    }
}

/// Relies on `str::replace`: every match of `from` is replaced by `to`, and a
/// text in which `from` does not occur is copied unchanged.
#[verifier::external_body]
pub(crate) fn replace_all(s: &str, from: &str, to: &str) -> (r: String)
    ensures
        r@ == replaced(s@, from@, to@),
        from@.len() > 0 && !occurs(s@, from@) ==> r@ == s@,
{
    s.replace(from, to)
}

/// Relies on `str::lines`: the text split at each `\n` or `\r\n`.
#[verifier::external_body]
pub(crate) fn split_lines(s: &str) -> (r: Vec<String>)
    ensures
        strings_view(r@) == lines_of(s@),
{
    s.lines().map(|l| l.to_string()).collect()
}

} // verus!
