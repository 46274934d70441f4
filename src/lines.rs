use vstd::prelude::*;

verus! {

#[verifier::external_type_specification]
#[verifier::external_body]
pub struct ExRegex(regex::Regex);

#[verifier::external_type_specification]
#[verifier::external_body]
pub struct ExRegexError(regex::Error);

/// Whether `regex::Regex::new` accepts `pattern`.
pub uninterp spec fn regex_accepts(pattern: Seq<char>) -> bool;

/// Whether the regex compiled from `pattern` matches anywhere in `haystack`.
pub uninterp spec fn regex_finds(pattern: Seq<char>, haystack: Seq<char>) -> bool;

/// Relies on `regex::Regex::new`: whether it accepts a pattern depends on the
/// pattern alone.
#[verifier::external_body]
fn compile_regex(pattern: &str) -> (r: Result<regex::Regex, regex::Error>)
    ensures
        r is Ok <==> regex_accepts(pattern@),
{
    regex::Regex::new(pattern)
}

/// Relies on `regex::Error`'s `Display`, for the message only.
#[verifier::external_body]
fn regex_error_message(e: &regex::Error) -> String {
    e.to_string()
}

/// A regular expression together with the pattern it was compiled from.
pub struct LinePattern {
    source: String,
    regex: regex::Regex,
}

/// A pattern that `regex` refuses, with its explanation.
#[derive(Debug, PartialEq, Eq)]
pub struct InvalidPattern {
    pub message: String,
}

impl View for LinePattern {
    type V = Seq<char>;

    closed spec fn view(&self) -> Seq<char> {
        self.source@
    }
}

/// Relies on `regex::Regex::is_match`: whether the regex matches anywhere in
/// `line`, which depends on its pattern and the line alone. A `LinePattern`'s
/// regex is always compiled from its source.
#[verifier::external_body]
fn pattern_is_match(p: &LinePattern, line: &str) -> (r: bool)
    ensures
        r == regex_finds(p@, line@),
{
    p.regex.is_match(line)
}

impl LinePattern {
    /// Compiles `pattern`; fails exactly when `regex` refuses it.
    pub fn new(pattern: &str) -> (r: Result<LinePattern, InvalidPattern>)
        ensures
            r is Ok <==> regex_accepts(pattern@),
            r matches Ok(p) ==> p@ == pattern@,
    {
        match compile_regex(pattern) {
            Ok(regex) => Ok(LinePattern { source: pattern.to_owned(), regex }),
            Err(e) => Err(InvalidPattern { message: regex_error_message(&e) }),
        }
    }

    /// Whether the pattern matches anywhere in `line`.
    pub fn is_match(&self, line: &str) -> (r: bool)
        ensures
            r == regex_finds(self@, line@),
    {
        pattern_is_match(self, line)
    }
}

/// The views of a list of lines.
pub open spec fn lines_view(lines: Seq<String>) -> Seq<Seq<char>> {
    lines.map_values(|l: String| l@)
}

/// The lines in which `pattern` finds no match, in their order.
pub open spec fn kept_lines(lines: Seq<Seq<char>>, pattern: Seq<char>) -> Seq<Seq<char>> {
    lines.filter(|l: Seq<char>| !regex_finds(pattern, l))
}

/// The lines that `pattern` does not match, in their order.
pub fn remove_matching_lines(lines: &Vec<String>, pattern: &LinePattern) -> (r: Vec<String>)
    ensures
        lines_view(r@) == kept_lines(lines_view(lines@), pattern@),
{
    let mut r: Vec<String> = Vec::new();
    let mut i: usize = 0;
    while i < lines.len()
        invariant
            i <= lines@.len(),
            lines_view(r@) == kept_lines(lines_view(lines@).take(i as int), pattern@),
        decreases lines@.len() - i,
    {
        let line = &lines[i];
        let ghost before = r@;
        proof {
            reveal(Seq::filter);
            assert(lines_view(lines@).take(i + 1).drop_last() =~= lines_view(lines@).take(
                i as int,
            ));
            assert(lines_view(lines@).take(i + 1).last() == line@);
        }
        if !pattern.is_match(line.as_str()) {
            r.push(line.clone());
            proof {
                assert(lines_view(r@) =~= lines_view(before).push(line@));
            }
        }
        i += 1;
    }
    proof {
        assert(lines_view(lines@).take(lines@.len() as int) =~= lines_view(lines@));
    }
    r
}

} // verus!
