use vstd::prelude::*;

use syntect::highlighting::{Theme, ThemeSet};

use crate::config::ThemeMode;

verus! {

/// syntect's `ThemeSet`, themes by name; carried through unopened.
#[verifier::external_type_specification]
#[verifier::external_body]
pub struct ExThemeSet(ThemeSet);

/// The theme a set stores under a name.
pub uninterp spec fn theme_entry(ts: ThemeSet, name: Seq<char>) -> Option<Theme>;

/// The theme a set stores under its least name, if it stores any.
pub uninterp spec fn first_theme(ts: ThemeSet) -> Option<Theme>;

/// Relies on `BTreeMap::get` on `ThemeSet::themes`: the theme stored under
/// `name`, if any.
#[verifier::external_body]
fn theme_named<'a>(ts: &'a ThemeSet, name: &str) -> (r: Option<&'a Theme>)
    ensures
        r matches Some(t) ==> theme_entry(*ts, name@) == Some(*t),
        r is None ==> theme_entry(*ts, name@) is None,
{
    ts.themes.get(name)
}

/// Relies on `BTreeMap::first_key_value` on `ThemeSet::themes`: the theme
/// with the least name, if the set stores any.
#[verifier::external_body]
fn first_theme_of<'a>(ts: &'a ThemeSet) -> (r: Option<&'a Theme>)
    ensures
        r matches Some(t) ==> first_theme(*ts) == Some(*t),
        r is None ==> first_theme(*ts) is None,
{
    ts.themes.first_key_value().map(|(_, theme)| theme)
}

/// The highlighting theme for a colour mode: the mode's own theme, else
/// `InspiredGitHub`, else whichever theme the set stores first; none for an
/// empty set.
pub open spec fn chosen_theme(ts: ThemeSet, preferred: Seq<char>) -> Option<Theme> {
    match theme_entry(ts, preferred) {
        Some(t) => Some(t),
        None => match theme_entry(ts, "InspiredGitHub"@) {
            Some(t) => Some(t),
            None => first_theme(ts),
        },
    }
}

/// The highlighting theme for a colour mode, falling back when the set lacks
/// the mode's own theme.
pub fn pick_theme<'a>(ts: &'a ThemeSet, mode: ThemeMode) -> (r: Option<&'a Theme>)
    ensures
        r matches Some(t) ==> chosen_theme(*ts, mode.theme_name()) == Some(*t),
        r is None ==> chosen_theme(*ts, mode.theme_name()) is None,
{
    let name = mode.syntax_theme_name();
    match theme_named(ts, name) {
        Some(t) => Some(t),
        None => match theme_named(ts, "InspiredGitHub") {
            Some(t) => Some(t),
            None => first_theme_of(ts),
        },
    }
}

} // verus!
