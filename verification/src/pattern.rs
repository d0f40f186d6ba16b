//! Regular expressions that must match at the start of a text.

use crate::text::opt_ref;
use vstd::prelude::*;

verus! {

/// Whether a pattern is found in a text; none where the pattern is no regular
/// expression that can be compiled.
pub uninterp spec fn regex_found(
    pattern: Seq<char>,
    ignore_case: bool,
    text: Seq<char>,
) -> Option<bool>;

/// `regex::RegexBuilder::build` on a pattern with `case_insensitive`, and
/// `regex::Regex::is_match` of what it built on a text. Both depend on nothing
/// but their arguments. The result is only named here.
#[verifier::external_body]
fn regex_search(pattern: &str, ignore_case: bool, text: &str) -> (found: Option<bool>)
    ensures
        found == regex_found(pattern@, ignore_case, text@),
{
    match regex::RegexBuilder::new(pattern).case_insensitive(ignore_case).build() {
        Ok(regex) => Some(regex.is_match(text)),
        Err(_) => None,
    }
}

/// A pattern bound to the start of the text.
pub open spec fn anchored(pattern: Seq<char>) -> Seq<char> {
    "^(?:"@ + pattern + ")"@
}

/// Whether a pattern matches at the start of a text, in any letter case. A
/// pattern that cannot be compiled matches nothing.
pub open spec fn matches_start(pattern: Seq<char>, text: Seq<char>) -> bool {
    regex_found(anchored(pattern), true, text) == Some(true)
}

/// Whether both are present and the pattern matches the text.
pub open spec fn hits(pattern: Option<Seq<char>>, value: Option<Seq<char>>) -> bool {
    pattern is Some && value is Some && matches_start(pattern->0, value->0)
}

/// Binds a pattern to the start of the text.
pub fn anchor(pattern: &str) -> (out: String)
    ensures
        out@ == anchored(pattern@),
{
    let mut out: String = "^(?:".to_owned();
    out.append(pattern);
    out.append(")");
    out
}

/// What a search means: a pattern that cannot be compiled matches nothing.
pub fn is_hit(found: Option<bool>) -> (r: bool)
    ensures
        r == (found == Some(true)),
{
    match found {
        Some(found) => found,
        None => false,
    }
}

/// Whether a pattern matches at the start of a text, in any letter case.
pub fn regex_match(pattern: Option<&str>, value: Option<&str>) -> (r: bool)
    ensures
        r == hits(opt_ref(pattern), opt_ref(value)),
{
    match (pattern, value) {
        (Some(pattern), Some(value)) => {
            let pattern = anchor(pattern);
            is_hit(regex_search(pattern.as_str(), true, value))
        },
        _ => false,
    }
}

/// A pattern is looked for at the start of a text and in any letter case: what
/// is searched for is the pattern as one group behind a mark for the start. An
/// absent pattern or text and a pattern that cannot be compiled match nothing.
pub proof fn law_match_at_the_start(
    pattern: Option<&str>,
    value: Option<&str>,
    r: bool,
    searched: Seq<char>,
)
    requires
        call_ensures(regex_match, (pattern, value), r),
        pattern is Some ==> {
            &&& searched.len() == pattern->0@.len() + 5
            &&& searched[0] == '^'
            &&& searched[1] == '('
            &&& searched[2] == '?'
            &&& searched[3] == ':'
            &&& searched.subrange(4, 4 + pattern->0@.len() as int) == pattern->0@
            &&& searched.last() == ')'
        },
    ensures
        pattern is None || value is None ==> !r,
        pattern is Some && value is Some ==> (r <==> regex_found(searched, true, value->0@) == Some(
            true,
        )),
        pattern is Some && value is Some ==> (r <==> matches_start(pattern->0@, value->0@)),
{
    if pattern is Some {
        reveal_strlit("^(?:");
        reveal_strlit(")");
        let text = pattern->0@;
        let out = anchored(text);
        assert forall|i: int| 0 <= i < searched.len() implies searched[i] == #[trigger] out[i] by {
            if 4 <= i < 4 + text.len() {
                assert(searched.subrange(4, 4 + text.len() as int)[i - 4] == text[i - 4]);
            }
        }
        assert(searched =~= out);
    }
}

} // verus!
