//! Regular expressions compiled with the `regex` and `fancy-regex` crates.
//! A compiled expression is kept together with the pattern it was compiled
//! from; its fields are private, so the only way to obtain one is `compile`,
//! and its view is that pattern.
use vstd::prelude::*;

verus! {

#[verifier::external_type_specification]
#[verifier::external_body]
pub struct ExStdRegex(regex::Regex);

#[verifier::external_type_specification]
#[verifier::external_body]
pub struct ExFancyRegex(fancy_regex::Regex);

/// `regex::Regex::new` accepts `pattern`.
pub uninterp spec fn std_regex_compiles(pattern: Seq<char>) -> bool;

/// `regex::Regex::is_match` of the regex compiled from `pattern` on `text`.
pub uninterp spec fn std_regex_matches(pattern: Seq<char>, text: Seq<char>) -> bool;

/// `fancy_regex::Regex::new` accepts `pattern`.
pub uninterp spec fn fancy_regex_compiles(pattern: Seq<char>) -> bool;

/// `fancy_regex::Regex::is_match` of the regex compiled from `pattern` on
/// `text`: `Some(b)` for an answer, `None` where the engine reports an error
/// (such as its backtracking limit).
pub uninterp spec fn fancy_regex_outcome(pattern: Seq<char>, text: Seq<char>) -> Option<bool>;

/// A `regex` crate expression with the pattern it was compiled from.
#[derive(Debug)]
pub struct StdRegex {
    pattern: String,
    re: regex::Regex,
}

impl View for StdRegex {
    type V = Seq<char>;

    closed spec fn view(&self) -> Seq<char> {
        self.pattern@
    }
}

impl StdRegex {
    /// `regex::Regex::new(pattern)`; `None` where the crate refuses the pattern.
    #[verifier::external_body]
    pub(crate) fn build(pattern: &str) -> (r: Option<StdRegex>)
        ensures
            r is Some <==> std_regex_compiles(pattern@),
            r matches Some(c) ==> c@ == pattern@,
    {
        regex::Regex::new(pattern).ok().map(|re| StdRegex { pattern: pattern.to_string(), re })
    }

    /// Compiles `pattern`; `None` where the crate refuses it.
    pub fn compile(pattern: &str) -> (r: Option<StdRegex>)
        ensures
            r is Some <==> std_regex_compiles(pattern@),
            r matches Some(c) ==> c@ == pattern@,
    {
        Self::build(pattern)
    }

    /// The pattern this expression was compiled from.
    pub fn pattern(&self) -> (r: &String)
        ensures
            r@ == self@,
    {
        &self.pattern
    }

    /// `regex::Regex::is_match` on `text`.
    #[verifier::external_body]
    pub(crate) fn is_match(&self, text: &str) -> (r: bool)
        ensures
            r == std_regex_matches(self@, text@),
    {
        self.re.is_match(text)
    }
}

/// A `fancy-regex` expression (look-around, back-references) with its pattern.
#[derive(Debug)]
pub struct FancyRegex {
    pattern: String,
    re: fancy_regex::Regex,
}

impl View for FancyRegex {
    type V = Seq<char>;

    closed spec fn view(&self) -> Seq<char> {
        self.pattern@
    }
}

impl FancyRegex {
    /// `fancy_regex::Regex::new(pattern)`; `None` where the crate refuses it.
    #[verifier::external_body]
    pub(crate) fn build(pattern: &str) -> (r: Option<FancyRegex>)
        ensures
            r is Some <==> fancy_regex_compiles(pattern@),
            r matches Some(c) ==> c@ == pattern@,
    {
        fancy_regex::Regex::new(pattern).ok().map(|re| FancyRegex { pattern: pattern.to_string(), re })
    }

    /// Compiles `pattern`; `None` where the crate refuses it.
    pub fn compile(pattern: &str) -> (r: Option<FancyRegex>)
        ensures
            r is Some <==> fancy_regex_compiles(pattern@),
            r matches Some(c) ==> c@ == pattern@,
    {
        Self::build(pattern)
    }

    /// The pattern this expression was compiled from.
    pub fn pattern(&self) -> (r: &String)
        ensures
            r@ == self@,
    {
        &self.pattern
    }

    /// `fancy_regex::Regex::is_match` on `text`, its error mapped to `None`.
    #[verifier::external_body]
    pub(crate) fn is_match(&self, text: &str) -> (r: Option<bool>)
        ensures
            r == fancy_regex_outcome(self@, text@),
    {
        self.re.is_match(text).ok()
    }
}

} // verus!

verus! {

#[verifier::external_type_specification]
#[verifier::external_body]
pub struct ExBytesRegex(regex::bytes::Regex);

/// `regex::bytes::RegexBuilder` builds `pattern`, case-insensitive.
pub uninterp spec fn bytes_regex_builds(pattern: Seq<char>) -> bool;

/// The case-insensitive bytes expression `pattern` finds a match in `line`.
pub uninterp spec fn bytes_regex_matches(pattern: Seq<char>, line: Seq<u8>) -> bool;

/// The matcher of `keyword` (its escaped form, case-insensitive) builds.
pub open spec fn keyword_matcher_builds(keyword: Seq<char>) -> bool {
    bytes_regex_builds(regex_escaped(keyword))
}

/// The matcher of `keyword` finds it in the bytes `line`.
pub open spec fn keyword_matches_bytes(keyword: Seq<char>, line: Seq<u8>) -> bool {
    bytes_regex_matches(regex_escaped(keyword), line)
}

/// A byte-level matcher for one literal keyword, case-insensitive: the
/// keyword and the expression built from its escaped form.
#[derive(Debug)]
pub struct KeywordByteMatcher {
    keyword: String,
    re: regex::bytes::Regex,
}

impl View for KeywordByteMatcher {
    type V = Seq<char>;

    closed spec fn view(&self) -> Seq<char> {
        self.keyword@
    }
}

impl KeywordByteMatcher {
    /// `RegexBuilder::new(pattern).case_insensitive(true).build()`, kept
    /// with the keyword whose escaped form `pattern` is.
    #[verifier::external_body]
    fn build(keyword: &str, pattern: &str) -> (r: Option<KeywordByteMatcher>)
        requires
            pattern@ == regex_escaped(keyword@),
        ensures
            r is Some <==> bytes_regex_builds(pattern@),
            r matches Some(m) ==> m@ == keyword@,
    {
        regex::bytes::RegexBuilder::new(pattern)
            .case_insensitive(true)
            .build()
            .ok()
            .map(|re| KeywordByteMatcher { keyword: keyword.to_string(), re })
    }

    /// The matcher of a keyword: its escaped form, case-insensitive.
    pub(crate) fn compile(keyword: &str) -> (r: Option<KeywordByteMatcher>)
        ensures
            r is Some <==> keyword_matcher_builds(keyword@),
            r matches Some(m) ==> m@ == keyword@,
    {
        let pattern = regex_escape(keyword);
        Self::build(keyword, pattern.as_str())
    }

    /// `regex::bytes::Regex::is_match` on `line`; the expression is the
    /// escaped form of the matcher's keyword.
    #[verifier::external_body]
    pub(crate) fn is_match(&self, line: &[u8]) -> (r: bool)
        ensures
            r == bytes_regex_matches(regex_escaped(self@), line@),
    {
        self.re.is_match(line)
    }
}

/// A regular-expression meta character, which `regex::escape` escapes.
pub open spec fn is_regex_meta(c: char) -> bool {
    c == '\\' || c == '.' || c == '+' || c == '*' || c == '?' || c == '(' || c == ')' || c == '|'
        || c == '[' || c == ']' || c == '{' || c == '}' || c == '^' || c == '$' || c == '#' || c == '&'
        || c == '-' || c == '~'
}

/// `s` with a backslash before each meta character.
pub open spec fn regex_escaped(s: Seq<char>) -> Seq<char>
    decreases s.len(),
{
    if s.len() == 0 {
        Seq::empty()
    } else {
        regex_escaped(s.drop_last()) + if is_regex_meta(s.last()) { seq!['\\', s.last()] } else { seq![s.last()] }
    }
}

/// `regex::escape`: puts a backslash before each meta character of `s`.
#[verifier::external_body]
pub(crate) fn regex_escape(s: &str) -> (r: String)
    ensures
        r@ == regex_escaped(s@),
{
    regex::escape(s)
}

} // verus!
