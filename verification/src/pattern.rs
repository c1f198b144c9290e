// Regular-expression patterns of the lexer, matched by the `regex` crate.
use vstd::prelude::*;
use crate::lexer::rule_spec;

verus! {

#[verifier::external_type_specification]
#[verifier::external_body]
pub struct ExRegex(regex::Regex);

/// A compiled regular expression together with the pattern text it was compiled from.
/// Only `compile` builds one, so `compiled` is always the compilation of `source`.
pub struct Pattern {
    source: String,
    compiled: regex::Regex,
}

impl View for Pattern {
    type V = Seq<char>;

    closed spec fn view(&self) -> Seq<char> {
        self.source@
    }
}

/// The first match that `regex::Regex::find` reports for a pattern on a haystack:
/// the byte offset of its start and the text it matched.
pub uninterp spec fn regex_first_match(pattern: Seq<char>, haystack: Seq<char>) -> Option<(int, Seq<char>)>;

/// Compiles one of the lexer's patterns with `regex::Regex::new`.  Each of those patterns
/// is valid syntax of the `regex` crate, so compilation succeeds; the pattern text is kept.
#[verifier::external_body]
pub(crate) fn compile(source: &str) -> (p: Pattern)
    requires
        exists|j: int| 0 <= j < 39 && #[trigger] rule_spec(j).0 == source@,
    ensures
        p@ == source@,
{
    Pattern { source: source.to_string(), compiled: regex::Regex::new(source).unwrap() }
}

/// Calls `regex::Regex::find`: the leftmost-first match of the pattern in `haystack`, as
/// its start offset and matched text (`Match::start`, `Match::as_str`).  The claim is that
/// the result is the named first match, and that a match starting at offset 0 is a prefix
/// of the haystack (`as_str` is `haystack[start..end]`).
#[verifier::external_body]
pub(crate) fn find<'h>(p: &Pattern, haystack: &'h str) -> (r: Option<(usize, &'h str)>)
    ensures
        r is None <==> regex_first_match(p@, haystack@) is None,
        r matches Some((s, m)) ==> regex_first_match(p@, haystack@) == Some((s as int, m@)),
        r matches Some((s, m)) ==> (s == 0 ==> m@.len() <= haystack@.len() && m@ == haystack@.take(
            m@.len() as int,
        )),
{
    p.compiled.find(haystack).map(|m| (m.start(), m.as_str()))
}

} // verus!
