//! The line filter of a small grep: a line is kept when the pattern finds a
//! match anywhere in it.
use vstd::prelude::*;

verus! {

/// `regex::Regex`, a compiled regular expression (opaque here).
#[verifier::external_type_specification]
#[verifier::external_body]
pub struct ExRegex(regex::Regex);

/// Whether `regex::Regex::new` accepts `pattern`: its syntax is valid and the
/// compiled regex stays within the default size limit.
pub uninterp spec fn regex_accepts(pattern: Seq<char>) -> bool;

/// The message `regex::Regex::new` gives (the `Display` text of its
/// `regex::Error`) when it rejects `pattern`.
pub uninterp spec fn regex_error_text(pattern: Seq<char>) -> Seq<char>;

/// Whether the regex compiled from `pattern` finds a match anywhere in
/// `haystack`.
pub uninterp spec fn regex_finds(pattern: Seq<char>, haystack: Seq<char>) -> bool;

/// Calls `regex::Regex::new` and keeps the regex together with the pattern
/// it was compiled from; it succeeds exactly when the pattern is accepted,
/// and otherwise gives the text of the error.
#[verifier::external_body]
fn compile(pattern: &str) -> (r: Result<LineFilter, String>)
    ensures
        r is Ok == regex_accepts(pattern@),
        r matches Ok(f) ==> f@ == pattern@,
        r matches Err(m) ==> m@ == regex_error_text(pattern@),
{
    match regex::Regex::new(pattern) {
        Ok(re) => Ok(LineFilter { re, pattern: pattern.to_owned() }),
        Err(e) => Err(e.to_string()),
    }
}

/// Calls `regex::Regex::find` on the filter's regex, which `compile` built
/// from the filter's pattern, and tells whether it found a match.
#[verifier::external_body]
fn find_in(filter: &LineFilter, line: &str) -> (found: bool)
    ensures
        found == regex_finds(filter@, line@),
{
    filter.re.find(line).is_some()
}

/// Why a filter could not be built.
#[derive(Debug, Clone, PartialEq, Eq)]
pub enum GrepError {
    /// The pattern is not a regex that compiles; the message says why.
    InvalidPattern(String),
}

/// A compiled search pattern.
pub struct LineFilter {
    re: regex::Regex,
    pattern: String,
}

impl View for LineFilter {
    type V = Seq<char>;

    /// The pattern the filter was compiled from.
    closed spec fn view(&self) -> Seq<char> {
        self.pattern@
    }
}

/// The lines of `lines` whose flag in `found` is set, in order.
pub open spec fn kept_lines(lines: Seq<Seq<char>>, found: Seq<bool>) -> Seq<Seq<char>>
    decreases lines.len(),
{
    if lines.len() == 0 {
        Seq::empty()
    } else {
        let rest = kept_lines(lines.drop_last(), found.take(lines.len() - 1));
        if found[lines.len() - 1] {
            rest.push(lines.last())
        } else {
            rest
        }
    }
}

/// The lines of `lines` in which `pattern` finds a match, in order.
pub open spec fn matching_lines(pattern: Seq<char>, lines: Seq<Seq<char>>) -> Seq<Seq<char>> {
    kept_lines(lines, lines.map_values(|l: Seq<char>| regex_finds(pattern, l)))
}

proof fn lemma_kept_lines(lines: Seq<Seq<char>>, found: Seq<bool>)
    requires
        found.len() == lines.len(),
    ensures
        kept_lines(lines, found).len() <= lines.len(),
        forall|i: int|
            #![trigger kept_lines(lines, found)[i]]
            0 <= i < kept_lines(lines, found).len() ==> exists|j: int|
                0 <= j < lines.len() && found[j] && #[trigger] lines[j] == kept_lines(lines, found)[i],
    decreases lines.len(),
{
    if lines.len() > 0 {
        let n = lines.len() - 1;
        let rest_lines = lines.drop_last();
        let rest_found = found.take(n);
        lemma_kept_lines(rest_lines, rest_found);
        let out = kept_lines(lines, found);
        let rest = kept_lines(rest_lines, rest_found);
        assert(rest_lines.len() == n && rest_found.len() == n);
        if found[n] {
            assert(out == rest.push(lines[n]));
        } else {
            assert(out == rest);
        }
        assert forall|i: int| #![trigger out[i]] 0 <= i < out.len() implies exists|j: int|
            0 <= j < lines.len() && found[j] && #[trigger] lines[j] == out[i] by {
            if i < rest.len() {
                assert(rest[i] == kept_lines(rest_lines, rest_found)[i]);
                let j = choose|j: int|
                    0 <= j < rest_lines.len() && rest_found[j] && #[trigger] rest_lines[j] == rest[i];
                assert(lines[j] == rest_lines[j] && found[j] == rest_found[j]);
                assert(out[i] == rest[i]);
                assert(0 <= j < lines.len() && found[j] && lines[j] == out[i]);
            } else {
                assert(found[n]);
                assert(out[i] == lines[n]);
                assert(0 <= n < lines.len() && found[n] && lines[n] == out[i]);
            }
        }
    }
}

/// Every line grep keeps has a match of the pattern and is one of the input
/// lines; it keeps no more lines than it is given.
pub proof fn law_kept_lines_match(pattern: Seq<char>, lines: Seq<Seq<char>>)
    ensures
        matching_lines(pattern, lines).len() <= lines.len(),
        forall|i: int|
            0 <= i < matching_lines(pattern, lines).len() ==> regex_finds(
                pattern,
                #[trigger] matching_lines(pattern, lines)[i],
            ) && lines.contains(matching_lines(pattern, lines)[i]),
{
    let found = lines.map_values(|l: Seq<char>| regex_finds(pattern, l));
    lemma_kept_lines(lines, found);
    let out = matching_lines(pattern, lines);
    assert forall|i: int| 0 <= i < out.len() implies regex_finds(pattern, #[trigger] out[i])
        && lines.contains(out[i]) by {
        assert(out[i] == kept_lines(lines, found)[i]);
        let j = choose|j: int| 0 <= j < lines.len() && found[j] && #[trigger] lines[j] == out[i];
        assert(found[j] == regex_finds(pattern, lines[j]));
    }
}

/// Every line that has a match of the pattern is kept: grep drops exactly
/// the lines without a match.
pub proof fn law_matching_line_is_kept(pattern: Seq<char>, lines: Seq<Seq<char>>, j: int)
    requires
        0 <= j < lines.len(),
        regex_finds(pattern, lines[j]),
    ensures
        matching_lines(pattern, lines).contains(lines[j]),
    decreases lines.len(),
{
    let found = lines.map_values(|l: Seq<char>| regex_finds(pattern, l));
    let n = lines.len() - 1;
    let rest = lines.drop_last();
    assert(found.take(n) =~= rest.map_values(|l: Seq<char>| regex_finds(pattern, l)));
    if j == n {
        assert(matching_lines(pattern, lines).last() == lines[j]);
    } else {
        law_matching_line_is_kept(pattern, rest, j);
        let k = choose|k: int|
            0 <= k < matching_lines(pattern, rest).len() && matching_lines(pattern, rest)[k] == rest[j];
        assert(matching_lines(pattern, lines)[k] == lines[j]);
    }
}

/// The lines of `lines` whose flag in `found` is set, in order.
pub fn keep_lines(lines: &Vec<String>, found: &Vec<bool>) -> (out: Vec<String>)
    requires
        found@.len() == lines@.len(),
    ensures
        out@.len() == kept_lines(lines@.map_values(|l: String| l@), found@).len(),
        forall|i: int|
            0 <= i < out@.len() ==> #[trigger] out@[i]@ == kept_lines(
                lines@.map_values(|l: String| l@),
                found@,
            )[i],
{
    let ghost views = lines@.map_values(|l: String| l@);
    let mut out: Vec<String> = Vec::new();
    let mut i: usize = 0;
    while i < lines.len()
        invariant
            i <= lines@.len(),
            found@.len() == lines@.len(),
            views == lines@.map_values(|l: String| l@),
            out@.len() == kept_lines(views.take(i as int), found@.take(i as int)).len(),
            forall|k: int|
                0 <= k < out@.len() ==> #[trigger] out@[k]@ == kept_lines(
                    views.take(i as int),
                    found@.take(i as int),
                )[k],
        decreases lines@.len() - i,
    {
        assert(views.take(i + 1).drop_last() =~= views.take(i as int));
        assert(found@.take(i + 1).take(i as int) =~= found@.take(i as int));
        assert(views.take(i + 1).last() == lines@[i as int]@);
        if found[i] {
            out.push(lines[i].clone());
        }
        i = i + 1;
    }
    assert(views.take(lines@.len() as int) =~= views);
    assert(found@.take(lines@.len() as int) =~= found@);
    out
}

impl LineFilter {
    /// Compiles `pattern`; the error carries the regex library's message.
    pub fn new(pattern: &str) -> (r: Result<LineFilter, GrepError>)
        ensures
            r is Ok == regex_accepts(pattern@),
            r matches Ok(f) ==> f@ == pattern@,
            r matches Err(GrepError::InvalidPattern(m)) ==> m@ == regex_error_text(pattern@),
    {
        match compile(pattern) {
            Ok(f) => Ok(f),
            Err(m) => Err(GrepError::InvalidPattern(m)),
        }
    }

    /// Whether the pattern finds a match in `line`, that is, whether grep
    /// prints it.
    pub fn is_match(&self, line: &str) -> (found: bool)
        ensures
            found == regex_finds(self@, line@),
    {
        find_in(self, line)
    }

    /// The lines of `lines` in which the pattern finds a match, in order.
    pub fn grep_lines(&self, lines: &Vec<String>) -> (out: Vec<String>)
        ensures
            out@.len() == matching_lines(self@, lines@.map_values(|l: String| l@)).len(),
            forall|i: int|
                0 <= i < out@.len() ==> #[trigger] out@[i]@ == matching_lines(
                    self@,
                    lines@.map_values(|l: String| l@),
                )[i],
    {
        let ghost views = lines@.map_values(|l: String| l@);
        let mut found: Vec<bool> = Vec::new();
        let mut i: usize = 0;
        while i < lines.len()
            invariant
                i <= lines@.len(),
                views == lines@.map_values(|l: String| l@),
                found@.len() == i,
                forall|k: int| 0 <= k < i ==> #[trigger] found@[k] == regex_finds(self@, views[k]),
            decreases lines@.len() - i,
        {
            let f = self.is_match(lines[i].as_str());
            found.push(f);
            i = i + 1;
        }
        assert(found@ =~= views.map_values(|l: Seq<char>| regex_finds(self@, l)));
        keep_lines(lines, &found)
    }
}

} // verus!
