use vstd::prelude::*;

verus! {

/// The lower-case form of a text, as `str::to_lowercase` gives it.
pub uninterp spec fn lower_of(s: Seq<char>) -> Seq<char>;

/// Relies on `str::to_lowercase`: the result depends on the characters alone.
#[verifier::external_body]
fn lowercase(s: &str) -> (r: String)
    ensures
        r@ == lower_of(s@),
{
    s.to_lowercase()
}

/// Whether the selected text is an occurrence of `search`: equal to it, or,
/// when the search ignores case, equal to it once both are lower-cased.
pub open spec fn selection_is_match(selected: Seq<char>, search: Seq<char>, case_sensitive: bool) -> bool {
    if case_sensitive {
        selected == search
    } else {
        lower_of(selected) == lower_of(search)
    }
}

/// Whether the selected text is an occurrence of `search`, so that "replace"
/// may overwrite it.
pub fn selection_matches(selected: &str, search: &str, case_sensitive: bool) -> (r: bool)
    ensures
        r == selection_is_match(selected@, search@, case_sensitive),
{
    if case_sensitive {
        String::from_str(selected) == String::from_str(search)
    } else {
        lowercase(selected) == lowercase(search)
    }
}

} // verus!
