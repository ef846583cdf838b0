//! The compiled log pattern: a regular expression with named capture groups,
//! held together with its source text.
//!
//! The regex engine is outside code.  What the library relies on is stated by
//! the trusted items below: compilation succeeds or fails on the pattern text
//! alone, a compiled value keeps its pattern text, and what a pattern
//! captures on a line is a function of the pattern text and the line.

use vstd::prelude::*;

verus! {

#[verifier::external_type_specification]
#[verifier::external_body]
pub struct ExRegex(regex::Regex);

/// Whether `regex::Regex::new` accepts a pattern: compilation succeeds or
/// fails on the pattern text alone.
pub uninterp spec fn regex_compiles(pattern: Seq<char>) -> bool;

/// The pattern text a compiled regex was built from, as `regex::Regex::as_str`
/// returns it.
pub uninterp spec fn regex_source(re: regex::Regex) -> Seq<char>;

/// Whether the pattern matches somewhere in the line: the result of
/// `regex::Regex::captures` being present, a function of the pattern text and
/// the line.
pub uninterp spec fn regex_matches(pattern: Seq<char>, line: Seq<char>) -> bool;

/// The text captured by a named group when the pattern matches the line:
/// what `regex::Captures::name` reports, a function of the pattern text, the
/// line and the group name.  `None` when the group did not participate in
/// the match.
pub uninterp spec fn regex_group(pattern: Seq<char>, line: Seq<char>, group: Seq<char>) -> Option<
    Seq<char>,
>;

/// Relies on `regex::Regex::new`: compiling a pattern succeeds or fails on
/// the pattern text alone; and on `regex::Regex::as_str`: a compiled regex
/// keeps the pattern text it was built from.
#[verifier::external_body]
fn regex_new(pattern: &str) -> (r: Option<regex::Regex>)
    ensures
        r is Some <==> regex_compiles(pattern@),
        r matches Some(re) ==> regex_source(re) == pattern@,
{
    regex::Regex::new(pattern).ok()
}

/// Relies on `regex::Regex::captures` and `regex::Captures::name`: whether a
/// pattern matches a line, and what each named group captured, depend on the
/// pattern text and the line alone.  The four groups read here are the ones
/// the log format defines: `message`, `func`, `file` and `line`.
#[verifier::external_body]
fn regex_apply(re: &regex::Regex, line: &str) -> (r: Option<
    (Option<String>, Option<String>, Option<String>, Option<String>),
>)
    ensures
        r is Some <==> regex_matches(regex_source(*re), line@),
        r matches Some(g) ==> {
            let pat = regex_source(*re);
            &&& opt_str_view(g.0) == regex_group(pat, line@, "message"@)
            &&& opt_str_view(g.1) == regex_group(pat, line@, "func"@)
            &&& opt_str_view(g.2) == regex_group(pat, line@, "file"@)
            &&& opt_str_view(g.3) == regex_group(pat, line@, "line"@)
        },
{
    match re.captures(line) {
        None => None,
        Some(c) => Some(
            (
                c.name("message").map(|m| m.as_str().to_string()),
                c.name("func").map(|m| m.as_str().to_string()),
                c.name("file").map(|m| m.as_str().to_string()),
                c.name("line").map(|m| m.as_str().to_string()),
            ),
        ),
    }
}

/// The view of an optional string.
pub open spec fn opt_str_view(s: Option<String>) -> Option<Seq<char>> {
    match s {
        Some(t) => Some(t@),
        None => None,
    }
}

/// A compiled log pattern and the text it was compiled from.
pub struct LogPattern {
    regex: regex::Regex,
    source: String,
}

impl LogPattern {
    /// The pattern text.
    pub closed spec fn pattern(self) -> Seq<char> {
        self.source@
    }

    /// The compiled regex is the compilation of the stored text.
    pub closed spec fn wf(self) -> bool {
        regex_source(self.regex) == self.source@
    }

    /// Compile a pattern.  Returns `None` exactly when the regex engine
    /// rejects the text.
    pub fn new(text: &str) -> (r: Option<LogPattern>)
        ensures
            r is Some <==> regex_compiles(text@),
            r matches Some(p) ==> p.wf() && p.pattern() == text@,
    {
        match regex_new(text) {
            Some(re) => Some(LogPattern { regex: re, source: text.to_owned() }),
            None => None,
        }
    }

    /// The pattern text, for display.
    pub fn text(&self) -> (r: &str)
        ensures
            r@ == self.pattern(),
    {
        self.source.as_str()
    }

    /// Apply the pattern to a line and hand back the four named groups.
    pub fn apply(&self, line: &str) -> (r: Option<
        (Option<String>, Option<String>, Option<String>, Option<String>),
    >)
        requires
            self.wf(),
        ensures
            r is Some <==> regex_matches(self.pattern(), line@),
            r matches Some(g) ==> {
                &&& opt_str_view(g.0) == regex_group(self.pattern(), line@, "message"@)
                &&& opt_str_view(g.1) == regex_group(self.pattern(), line@, "func"@)
                &&& opt_str_view(g.2) == regex_group(self.pattern(), line@, "file"@)
                &&& opt_str_view(g.3) == regex_group(self.pattern(), line@, "line"@)
            },
    {
        regex_apply(&self.regex, line)
    }
}

} // verus!
