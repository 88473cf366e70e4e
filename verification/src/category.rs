//! Category inference: a resolved target path is classified by
//! case-insensitive substring markers, tested in a fixed priority order
//! (games before development before media before utilities); the first
//! matching group wins, and `Other` is the default. Web shortcuts are
//! assigned `Web` directly by the resolver and never go through the
//! marker test.

use vstd::prelude::*;
use crate::text::{chars_of, contains_seq, contains_sub, lower, to_lower};

verus! {

#[derive(Clone, Copy, PartialEq, Eq, Structural, Debug)]
pub enum Category {
    Games,
    Development,
    Media,
    Utilities,
    Web,
    Other,
}

impl Category {
    /// The display name of the category, as the catalog file stores it.
    pub open spec fn spec_name(self) -> Seq<char> {
        match self {
            Category::Games => "Games"@,
            Category::Development => "Development"@,
            Category::Media => "Media"@,
            Category::Utilities => "Utilities"@,
            Category::Web => "Web"@,
            Category::Other => "Other"@,
        }
    }

    pub fn name(&self) -> (r: &'static str)
        ensures
            r@ == self.spec_name(),
    {
        match self {
            Category::Games => "Games",
            Category::Development => "Development",
            Category::Media => "Media",
            Category::Utilities => "Utilities",
            Category::Web => "Web",
            Category::Other => "Other",
        }
    }
}

/// A lowercased path carries a games marker.
pub open spec fn has_games_marker(p: Seq<char>) -> bool {
    ||| contains_seq(p, "\\games\\"@)
    ||| contains_seq(p, "\\steam\\"@)
    ||| contains_seq(p, "\\epic games\\"@)
    ||| contains_seq(p, "\\riot games\\"@)
}

/// A lowercased path carries a development marker.
pub open spec fn has_development_marker(p: Seq<char>) -> bool {
    ||| contains_seq(p, "\\development\\"@)
    ||| contains_seq(p, "\\visual studio\\"@)
    ||| contains_seq(p, "\\jetbrains\\"@)
    ||| contains_seq(p, "\\git\\"@)
}

/// A lowercased path carries a media marker.
pub open spec fn has_media_marker(p: Seq<char>) -> bool {
    ||| contains_seq(p, "\\media\\"@)
    ||| contains_seq(p, "\\adobe\\"@)
    ||| contains_seq(p, "\\music\\"@)
    ||| contains_seq(p, "\\video\\"@)
}

/// A lowercased path carries a utilities marker.
pub open spec fn has_utilities_marker(p: Seq<char>) -> bool {
    ||| contains_seq(p, "\\utilities\\"@)
    ||| contains_seq(p, "\\system tools\\"@)
    ||| contains_seq(p, "\\accessories\\"@)
}

/// The category of a target path: marker groups are tested in priority
/// order against the lowercased path, and the first match wins.
pub open spec fn spec_category(path: Seq<char>) -> Category {
    let p = lower(path);
    if has_games_marker(p) {
        Category::Games
    } else if has_development_marker(p) {
        Category::Development
    } else if has_media_marker(p) {
        Category::Media
    } else if has_utilities_marker(p) {
        Category::Utilities
    } else {
        Category::Other
    }
}

/// `h` (already lowercased) contains the marker `lit`.
fn contains_lit(h: &Vec<char>, lit: &str) -> (r: bool)
    ensures
        r == contains_seq(h@, lit@),
{
    let n = chars_of(lit);
    contains_sub(h, &n)
}

pub fn determine_category(path: &str) -> (r: Category)
    ensures
        r == spec_category(path@),
{
    let cs = chars_of(path);
    let p = to_lower(&cs);
    if contains_lit(&p, "\\games\\") || contains_lit(&p, "\\steam\\") || contains_lit(
        &p,
        "\\epic games\\",
    ) || contains_lit(&p, "\\riot games\\") {
        Category::Games
    } else if contains_lit(&p, "\\development\\") || contains_lit(&p, "\\visual studio\\")
        || contains_lit(&p, "\\jetbrains\\") || contains_lit(&p, "\\git\\") {
        Category::Development
    } else if contains_lit(&p, "\\media\\") || contains_lit(&p, "\\adobe\\") || contains_lit(
        &p,
        "\\music\\",
    ) || contains_lit(&p, "\\video\\") {
        Category::Media
    } else if contains_lit(&p, "\\utilities\\") || contains_lit(&p, "\\system tools\\")
        || contains_lit(&p, "\\accessories\\") {
        Category::Utilities
    } else {
        Category::Other
    }
}

/// Priority of the marker groups: a path with a games marker is always
/// categorized `Games`, whatever other markers it also carries.
pub proof fn lemma_games_priority(path: Seq<char>)
    requires
        has_games_marker(lower(path)),
    ensures
        spec_category(path) == Category::Games,
{
}

/// A path without a games marker but with a development marker is
/// always categorized `Development`.
pub proof fn lemma_development_priority(path: Seq<char>)
    requires
        !has_games_marker(lower(path)),
        has_development_marker(lower(path)),
    ensures
        spec_category(path) == Category::Development,
{
}

/// A path without games and development markers but with a media marker
/// is always categorized `Media`.
pub proof fn lemma_media_priority(path: Seq<char>)
    requires
        !has_games_marker(lower(path)),
        !has_development_marker(lower(path)),
        has_media_marker(lower(path)),
    ensures
        spec_category(path) == Category::Media,
{
}

/// A path without games, development and media markers but with a
/// utilities marker is always categorized `Utilities`.
pub proof fn lemma_utilities_priority(path: Seq<char>)
    requires
        !has_games_marker(lower(path)),
        !has_development_marker(lower(path)),
        !has_media_marker(lower(path)),
        has_utilities_marker(lower(path)),
    ensures
        spec_category(path) == Category::Utilities,
{
}

/// A path without any marker is categorized `Other`.
pub proof fn lemma_default_category(path: Seq<char>)
    requires
        !has_games_marker(lower(path)),
        !has_development_marker(lower(path)),
        !has_media_marker(lower(path)),
        !has_utilities_marker(lower(path)),
    ensures
        spec_category(path) == Category::Other,
{
}

} // verus!
