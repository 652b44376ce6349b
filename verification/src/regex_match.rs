//! Regular expressions, through the `regex_lite` crate. A compiled pattern keeps its
//! source text; what the crate computes from a pattern and a line is named over
//! those two texts.
use vstd::prelude::*;
use regex_lite::Regex;

verus! {

#[verifier::external_type_specification]
#[verifier::external_body]
pub struct ExRegex(regex_lite::Regex);

/// What `Regex::new` gives for the pattern `p`: success, or the text of the error.
pub uninterp spec fn regex_compile(p: Seq<char>) -> Result<(), Seq<char>>;

/// What `Regex::captures` gives for the pattern `p` on the text `line`: `None` when
/// nothing matches; otherwise each capture group of the leftmost match, group 0
/// (the whole match) first, with its text when it took part in the match.
pub uninterp spec fn regex_captures(p: Seq<char>, line: Seq<char>) -> Option<Seq<Option<Seq<char>>>>;

/// A pattern compiled by `regex_lite`, with the text it was compiled from.
pub struct CompiledPattern {
    source: String,
    re: Regex,
}

impl View for CompiledPattern {
    type V = Seq<char>;

    /// The pattern's source text.
    closed spec fn view(&self) -> Seq<char> {
        self.source@
    }
}

/// The texts of optional capture groups.
pub open spec fn groups_view(v: Seq<Option<String>>) -> Seq<Option<Seq<char>>> {
    v.map_values(|g: Option<String>| match g {
        Some(s) => Some(s@),
        None => None,
    })
}

/// `Regex::new(p)`: the compiled pattern, or the text of the crate's error
/// (`regex_compile(p)` names which).
#[verifier::external_body]
pub(crate) fn compile(p: &str) -> (r: Result<CompiledPattern, String>)
    ensures
        match r {
            Ok(c) => c@ == p@ && regex_compile(p@) == Ok::<(), Seq<char>>(()),
            Err(e) => regex_compile(p@) == Err::<(), Seq<char>>(e@),
        },
{
    match Regex::new(p) {
        Ok(re) => Ok(CompiledPattern { source: p.to_string(), re }),
        Err(e) => Err(e.to_string()),
    }
}

/// `Regex::captures(line)`, each group taken as an owned string: the result is
/// named `regex_captures(pattern, line)`. When something matches there is at least
/// one group, the whole match, as the crate's documentation of `Captures::len` states.
#[verifier::external_body]
pub(crate) fn captures(c: &CompiledPattern, line: &str) -> (r: Option<Vec<Option<String>>>)
    ensures
        match r {
            Some(g) => regex_captures(c@, line@) == Some(groups_view(g@)) && g@.len() >= 1,
            None => regex_captures(c@, line@) is None,
        },
{
    c.re.captures(line).map(|caps| caps.iter().map(|m| m.map(|m| m.as_str().to_string())).collect())
}

} // verus!
