use regex::Regex;
use vstd::prelude::*;

verus! {

#[verifier::external_type_specification]
#[verifier::external_body]
pub struct ExRegex(Regex);

/// Whether `Regex::new` accepts the pattern.
pub uninterp spec fn regex_compiles(pattern: Seq<char>) -> bool;

/// What `Regex::captures` finds in `text` under `pattern`: None where the
/// pattern does not match; else the whole match first, then each group in
/// order, None for a group that took no part in the match.
pub uninterp spec fn regex_captures(pattern: Seq<char>, text: Seq<char>) -> Option<
    Seq<Option<Seq<char>>>,
>;

/// What `Regex::replace_all` gives for `text` under `pattern` with the
/// replacement `replacement`: every match, left to right and without
/// overlap, replaced.
pub uninterp spec fn regex_replace_all(
    pattern: Seq<char>,
    text: Seq<char>,
    replacement: Seq<char>,
) -> Seq<char>;

/// The texts of captured groups.
pub open spec fn group_texts(groups: Seq<Option<String>>) -> Seq<Option<Seq<char>>> {
    groups.map_values(
        |g: Option<String>|
            match g {
                Some(s) => Some(s@),
                None => None,
            },
    )
}

/// The text of group `i`, None where there is no such group or it took no
/// part in the match.
pub open spec fn group(groups: Seq<Option<Seq<char>>>, i: int) -> Option<Seq<char>> {
    if 0 <= i < groups.len() {
        groups[i]
    } else {
        None
    }
}

/// A compiled regex, with the pattern it was compiled from.
pub struct Pattern {
    source: String,
    regex: Regex,
}

/// `Regex::new`: compiles the pattern, None standing for the error. The
/// contract says whether it compiles; nothing is promised of the value,
/// which only a `Pattern` holds, beside its pattern.
#[verifier::external_body]
fn compile(pattern: &str) -> (r: Option<Regex>)
    ensures
        r is Some <==> regex_compiles(pattern@),
{
    Regex::new(pattern).ok()
}

/// `Regex::captures` with the pattern's regex, which `compile` built from
/// its source; each group taken as its text.
#[verifier::external_body]
fn captures_of(pattern: &Pattern, text: &str) -> (r: Option<Vec<Option<String>>>)
    ensures
        r matches Some(v) ==> regex_captures(pattern.source@, text@) == Some(group_texts(v@)),
        r is None ==> regex_captures(pattern.source@, text@) is None,
{
    pattern.regex.captures(text).map(
        |caps| caps.iter().map(|m| m.map(|m| m.as_str().to_string())).collect(),
    )
}

/// `Regex::replace_all` with the pattern's regex, which `compile` built
/// from its source.
#[verifier::external_body]
fn replace_all_of(pattern: &Pattern, text: &str, replacement: &str) -> (r: String)
    ensures
        r@ == regex_replace_all(pattern.source@, text@, replacement@),
{
    pattern.regex.replace_all(text, replacement).to_string()
}

impl Pattern {
    /// The pattern the regex was compiled from.
    pub closed spec fn source(&self) -> Seq<char> {
        self.source@
    }

    /// The compiled `source`, or None where it does not compile.
    pub fn new(source: &str) -> (r: Option<Self>)
        ensures
            r is Some <==> regex_compiles(source@),
            r matches Some(p) ==> p.source() == source@,
    {
        match compile(source) {
            Some(regex) => Some(Pattern { source: String::from_str(source), regex }),
            None => None,
        }
    }

    /// The groups of the match in `text`, if the pattern matches.
    pub fn captures(&self, text: &str) -> (r: Option<Vec<Option<String>>>)
        ensures
            r matches Some(v) ==> regex_captures(self.source(), text@) == Some(group_texts(v@)),
            r is None ==> regex_captures(self.source(), text@) is None,
    {
        captures_of(self, text)
    }

    /// `text` with every match replaced by `replacement`.
    pub fn replace_all(&self, text: &str, replacement: &str) -> (r: String)
        ensures
            r@ == regex_replace_all(self.source(), text@, replacement@),
    {
        replace_all_of(self, text, replacement)
    }
}

} // verus!
