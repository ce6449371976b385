use vstd::prelude::*;

use regex::Regex;

verus! {

/// Index in `s` of the `]` that closes a tag opened just before `s`: the
/// first `]`, provided no line feed comes before it.
pub open spec fn close_index(s: Seq<char>) -> Option<int>
    decreases s.len(),
{
    if s.len() == 0 {
        None
    } else if s[0] == ']' {
        Some(0)
    } else if s[0] == '\n' {
        None
    } else {
        match close_index(s.drop_first()) {
            Some(k) => Some(k + 1),
            None => None,
        }
    }
}

/// `s` with every inline tag removed: scanning from the left, each `[` that
/// has a closing `]` later on its line starts a tag that runs to the first
/// such `]`; the scan resumes after it.
pub open spec fn without_tags(s: Seq<char>) -> Seq<char>
    decreases s.len(),
{
    if s.len() == 0 {
        s
    } else if s[0] == '[' && close_index(s.drop_first()) is Some && 0 <= close_index(
        s.drop_first(),
    )->0 && close_index(s.drop_first())->0 + 2 <= s.len() {
        without_tags(s.skip(close_index(s.drop_first())->0 + 2))
    } else {
        seq![s[0]] + without_tags(s.drop_first())
    }
}

/// No `[` in `s` starts a tag.
pub open spec fn tag_free(s: Seq<char>) -> bool
    decreases s.len(),
{
    s.len() == 0 || ((s[0] != '[' || close_index(s.drop_first()) is None) && tag_free(
        s.drop_first(),
    ))
}

pub proof fn lemma_close_index_bounds(s: Seq<char>)
    ensures
        close_index(s) is Some ==> 0 <= close_index(s)->0 < s.len() && s[close_index(s)->0]
            == ']',
    decreases s.len(),
{
    if s.len() > 0 && s[0] != ']' && s[0] != '\n' {
        lemma_close_index_bounds(s.drop_first());
    }
}

/// Removing tags adds no `]` before the first line feed.
proof fn lemma_unclosed_stays_unclosed(s: Seq<char>)
    requires
        close_index(s) is None,
    ensures
        close_index(without_tags(s)) is None,
    decreases s.len(),
{
    if s.len() > 0 {
        if s[0] == '\n' {
            assert((seq![s[0]] + without_tags(s.drop_first()))[0] == '\n');
        } else {
            lemma_unclosed_stays_unclosed(s.drop_first());
            let w = without_tags(s.drop_first());
            assert((seq![s[0]] + w).drop_first() == w);
        }
    }
}

/// What remains after removing tags holds no tag.
proof fn lemma_without_tags_is_tag_free(s: Seq<char>)
    ensures
        tag_free(without_tags(s)),
    decreases s.len(),
{
    if s.len() > 0 {
        let rest = s.drop_first();
        if s[0] == '[' && close_index(rest) is Some && 0 <= close_index(rest)->0
            && close_index(rest)->0 + 2 <= s.len() {
            lemma_without_tags_is_tag_free(s.skip(close_index(rest)->0 + 2));
        } else {
            lemma_without_tags_is_tag_free(rest);
            let w = without_tags(rest);
            assert((seq![s[0]] + w).drop_first() == w);
            if s[0] == '[' {
                lemma_close_index_bounds(rest);
                lemma_unclosed_stays_unclosed(rest);
            }
        }
    }
}

/// Removing tags from text that holds none changes nothing.
proof fn lemma_tag_free_unchanged(s: Seq<char>)
    requires
        tag_free(s),
    ensures
        without_tags(s) == s,
    decreases s.len(),
{
    if s.len() > 0 {
        lemma_tag_free_unchanged(s.drop_first());
        assert(seq![s[0]] + s.drop_first() == s);
    }
}

/// Removing inline tags a second time changes nothing.
pub proof fn without_tags_idempotent(s: Seq<char>)
    ensures
        without_tags(without_tags(s)) == without_tags(s),
{
    lemma_without_tags_is_tag_free(s);
    lemma_tag_free_unchanged(without_tags(s));
}

#[verifier::external_type_specification]
#[verifier::external_body]
pub struct ExRegex(Regex);

/// Relies on regex::Regex::new to compile a pattern; nothing is assumed of
/// the outcome.
#[verifier::external_body]
fn compile_pattern(pattern: &str) -> (r: Option<Regex>) {
    Regex::new(pattern).ok()
}

/// Removes inline tags: each shortest run from `[` to the next `]` on the
/// same line.
pub struct TagStripper {
    re: Regex,
}

impl TagStripper {
    /// Compiles the inline-tag pattern.
    pub fn new() -> (r: Option<TagStripper>) {
        match compile_pattern("\\[.*?\\]") {
            Some(re) => Some(TagStripper { re }),
            None => None,
        }
    }

    /// Relies on regex::Regex::replace_all with an empty replacement, on the
    /// pattern `\[.*?\]` that `new` alone compiles into `re`: matches are found
    /// leftmost first and without overlap, `.*?` takes the fewest characters,
    /// and `.` matches any character but a line feed.
    #[verifier::external_body]
    pub(crate) fn strip(&self, s: &Vec<char>) -> (r: String)
        ensures
            r@ == without_tags(s@),
    {
        let text: String = s.iter().collect();
        self.re.replace_all(&text, "").into_owned()
    }
}

} // verus!
