//! Compiled regular-expression patterns, used for conditional attributes and
//! for extracting named captures from input lines. The regex engine is an
//! outside collaborator: what it computes is named, not restated.

use vstd::prelude::*;

verus! {

/// Whether the regex engine accepts `pattern` as a valid expression
/// (the outcome of `regex::Regex::new`).
pub uninterp spec fn regex_valid(pattern: Seq<char>) -> bool;

/// Whether `text` matches the compiled `pattern`
/// (the outcome of `regex::Regex::is_match`).
pub uninterp spec fn regex_match(pattern: Seq<char>, text: Seq<char>) -> bool;

/// For every match of `pattern` in `hay`, in order, the text captured by the
/// group named `group` (`None` where the group did not participate): the
/// outcome of walking `regex::Regex::captures_iter`.
pub uninterp spec fn captured_values(pattern: Seq<char>, hay: Seq<char>, group: Seq<char>) -> Seq<
    Option<Seq<char>>,
>;

/// The names of the capture groups of `pattern`, in index order, `None` for
/// unnamed groups (the outcome of `regex::Regex::capture_names`).
pub uninterp spec fn group_names(pattern: Seq<char>) -> Seq<Option<Seq<char>>>;

/// A pattern together with its compiled form. Values exist only through
/// [`CompiledPattern::compile`], so the compiled form always corresponds to
/// the pattern text the view exposes.
#[derive(Debug)]
pub struct CompiledPattern {
    pattern: String,
    compiled: regex::Regex,
}

#[verifier::external_type_specification]
#[verifier::external_body]
pub struct ExRegex(regex::Regex);

impl View for CompiledPattern {
    type V = Seq<char>;

    closed spec fn view(&self) -> Seq<char> {
        self.pattern@
    }
}

impl CompiledPattern {
    /// Relies on `regex::Regex::new`: it accepts exactly the valid patterns,
    /// and the compiled value matches per the pattern handed to it.
    #[verifier::external_body]
    pub fn compile(pattern: &str) -> (r: Option<CompiledPattern>)
        ensures
            r is Some <==> regex_valid(pattern@),
            r is Some ==> r.unwrap()@ == pattern@,
    {
        match regex::Regex::new(pattern) {
            Ok(compiled) => Some(CompiledPattern { pattern: pattern.to_owned(), compiled }),
            Err(_) => None,
        }
    }

    /// Relies on `regex::Regex::is_match`: whether the text matches is a
    /// function of the pattern and the text alone.
    #[verifier::external_body]
    pub fn is_match(&self, text: &str) -> (r: bool)
        ensures
            r == regex_match(self@, text@),
    {
        self.compiled.is_match(text)
    }

    /// Relies on `regex::Regex::captures_iter` with `Captures::name`: one
    /// entry per match of the pattern in `hay`, in match order, holding what
    /// the group named `group` captured in that match.
    #[verifier::external_body]
    pub fn captures_of_group(&self, hay: &str, group: &str) -> (r: Vec<Option<String>>)
        ensures
            r.deep_view() == captured_values(self@, hay@, group@),
    {
        self.compiled.captures_iter(hay).map(
            |c| c.name(group).map(|m| m.as_str().to_owned()),
        ).collect()
    }

    /// Relies on `regex::Regex::capture_names`: the group names of the
    /// pattern, in index order, `None` for unnamed groups.
    #[verifier::external_body]
    pub fn group_names(&self) -> (r: Vec<Option<String>>)
        ensures
            r.deep_view() == group_names(self@),
    {
        self.compiled.capture_names().map(|o| o.map(|s| s.to_owned())).collect()
    }

    pub fn pattern(&self) -> (r: &String)
        ensures
            r@ == self@,
    {
        &self.pattern
    }
}

} // verus!
