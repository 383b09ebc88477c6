use vstd::prelude::*;

verus! {

/// Whether `p` is a regular expression that the regex engine accepts.
pub uninterp spec fn regex_valid(p: Seq<char>) -> bool;

/// Whether some part of `s` matches the regular expression `p`.
pub uninterp spec fn regex_matches(p: Seq<char>, s: Seq<char>) -> bool;

/// Relies on `regex::Regex::new`: whether `p` compiles; the answer depends on
/// `p` alone.
#[verifier::external_body]
pub(crate) fn pattern_compiles(p: &str) -> (r: bool)
    ensures
        r == regex_valid(p@),
{
    regex::Regex::new(p).is_ok()
}

/// Relies on `regex::Regex::new` and `regex::Regex::is_match`: whether `s`
/// holds a match of the valid expression `p`.
#[verifier::external_body]
pub(crate) fn pattern_finds(p: &str, s: &str) -> (r: bool)
    requires
        regex_valid(p@),
    ensures
        r == regex_matches(p@, s@),
{
    match regex::Regex::new(p) {
        Ok(re) => re.is_match(s),
        Err(_) => false,
    }
}

} // verus!
