//! The glyph grammar: the fixed masks that the rows of a clef drawing, a center
//! row and a delimiter row have to fit, and the test of a row against a mask.
//!
//! A mask is a regular expression, anchored at the start of the row. The test
//! itself is left to the `regex` crate, which compiles the mask for each test.

use crate::data_types::StaffType;
use regex::Regex;
use vstd::prelude::*;

verus! {

/// How many rows a clef drawing has.
pub const CLEF_ROWS: usize = 11;

pub const TREBLE_ROW_0: &'static str = r"^ {3}\/\\";

pub const TREBLE_ROW_1: &'static str = r"^ {3}\| \\ l";

pub const TREBLE_ROW_2: &'static str = r"^ {3}\| \/ l";

pub const TREBLE_ROW_3: &'static str = r"^ {3}\|\/  l";

pub const TREBLE_ROW_4: &'static str = r"^  \/\| {3}l";

pub const TREBLE_ROW_5: &'static str = r"^ \/ \| {3}l";

pub const TREBLE_ROW_6: &'static str = r"^\|  \|\\  l";

pub const TREBLE_ROW_7: &'static str = r"^ \\ \| \| l";

pub const TREBLE_ROW_8: &'static str = r"^  \\\|\/  l";

pub const TREBLE_ROW_9: &'static str = r"^\/@ \| {3}l";

pub const TREBLE_ROW_10: &'static str = r"^\\_\/";

pub const BASS_ROW_0: &'static str = r"^ __";

pub const BASS_ROW_1: &'static str = r"^";

pub const BASS_ROW_2: &'static str = r"^\/  \\ {4}l";

pub const BASS_ROW_3: &'static str = r"^\| {3}\\ @ l";

pub const BASS_ROW_4: &'static str = r"^\\@@ \| {3}l";

pub const BASS_ROW_5: &'static str = r"^ @@ \/ @ l";

pub const BASS_ROW_6: &'static str = r"^ {3}\/ {4}l";

pub const BASS_ROW_7: &'static str = r"^ {2}\/ {5}l";

pub const BASS_ROW_8: &'static str = r"^ \/ {6}l";

pub const BASS_ROW_9: &'static str = r"^\/ {7}l";

pub const BASS_ROW_10: &'static str = r"^ {8}l";

/// The row of a treble staff that carries its center pitch.
pub const TREBLE_CENTER_ROW: &'static str = r"^\ \/\ \|\ {3}l";

/// The row of a bass staff that carries its center pitch.
pub const BASS_CENTER_ROW: &'static str = r"^\ {3}\/\ {4}l";

/// A row that parts one staff from the next: one or more `=` and nothing else.
pub const DELIMITER_ROW: &'static str = r"^=+$";

/// Whether `regex::Regex::new` builds a regex from `pattern`: the pattern is
/// well formed and the regex stays within the size that `Regex::new` allows.
pub uninterp spec fn regex_compiles(pattern: Seq<char>) -> bool;

/// Whether the regex that `regex::Regex::new` builds from `pattern` finds a
/// match somewhere in `haystack`, as `regex::Regex::is_match` reports it.
pub uninterp spec fn regex_is_match(pattern: Seq<char>, haystack: Seq<char>) -> bool;

/// Builds a regex from `pattern` with `regex::Regex::new` and asks
/// `regex::Regex::is_match` whether it matches in `haystack`.
///
/// Believed, not proved: `None` comes back exactly where `Regex::new` refuses
/// the pattern, and otherwise the answer of `is_match`; both depend on the
/// two texts alone. What a pattern matches is nowhere stated here.
#[verifier::external_body]
fn regex_search(pattern: &str, haystack: &str) -> (found: Option<bool>)
    ensures
        found is Some <==> regex_compiles(pattern@),
        found matches Some(hit) ==> hit == regex_is_match(pattern@, haystack@),
{
    match Regex::new(pattern) {
        Ok(re) => Some(re.is_match(haystack)),
        Err(_) => None,
    }
}

/// A row fits a mask when the mask is a regular expression that matches in the
/// row. A mask that is no regular expression fits no row.
pub open spec fn fits(mask: Seq<char>, row: Seq<char>) -> bool {
    regex_compiles(mask) && regex_is_match(mask, row)
}

/// What a search that came back means for the row: see `fits`.
pub fn search_verdict(found: Option<bool>) -> (fit: bool)
    ensures
        fit == (found == Some(true)),
{
    match found {
        Some(hit) => hit,
        None => false,
    }
}

/// Tests a row against a mask.
pub fn row_fits(mask: &str, row: &str) -> (fit: bool)
    ensures
        fit == fits(mask@, row@),
{
    search_verdict(regex_search(mask, row))
}

/// The mask of row `index` of the drawing of a clef.
pub open spec fn clef_mask(kind: StaffType, index: int) -> Seq<char> {
    match kind {
        StaffType::Treble => if index == 0 {
            TREBLE_ROW_0@
        } else if index == 1 {
            TREBLE_ROW_1@
        } else if index == 2 {
            TREBLE_ROW_2@
        } else if index == 3 {
            TREBLE_ROW_3@
        } else if index == 4 {
            TREBLE_ROW_4@
        } else if index == 5 {
            TREBLE_ROW_5@
        } else if index == 6 {
            TREBLE_ROW_6@
        } else if index == 7 {
            TREBLE_ROW_7@
        } else if index == 8 {
            TREBLE_ROW_8@
        } else if index == 9 {
            TREBLE_ROW_9@
        } else {
            TREBLE_ROW_10@
        },
        StaffType::Bass => if index == 0 {
            BASS_ROW_0@
        } else if index == 1 {
            BASS_ROW_1@
        } else if index == 2 {
            BASS_ROW_2@
        } else if index == 3 {
            BASS_ROW_3@
        } else if index == 4 {
            BASS_ROW_4@
        } else if index == 5 {
            BASS_ROW_5@
        } else if index == 6 {
            BASS_ROW_6@
        } else if index == 7 {
            BASS_ROW_7@
        } else if index == 8 {
            BASS_ROW_8@
        } else if index == 9 {
            BASS_ROW_9@
        } else {
            BASS_ROW_10@
        },
    }
}

/// The mask of the center row of a staff with this clef.
pub open spec fn center_mask(kind: StaffType) -> Seq<char> {
    match kind {
        StaffType::Treble => TREBLE_CENTER_ROW@,
        StaffType::Bass => BASS_CENTER_ROW@,
    }
}

/// The mask of row `index` of the drawing of a clef.
pub fn clef_row_mask(kind: StaffType, index: usize) -> (mask: &'static str)
    requires
        index < CLEF_ROWS,
    ensures
        mask@ == clef_mask(kind, index as int),
{
    match kind {
        StaffType::Treble => match index {
            0 => TREBLE_ROW_0,
            1 => TREBLE_ROW_1,
            2 => TREBLE_ROW_2,
            3 => TREBLE_ROW_3,
            4 => TREBLE_ROW_4,
            5 => TREBLE_ROW_5,
            6 => TREBLE_ROW_6,
            7 => TREBLE_ROW_7,
            8 => TREBLE_ROW_8,
            9 => TREBLE_ROW_9,
            _ => TREBLE_ROW_10,
        },
        StaffType::Bass => match index {
            0 => BASS_ROW_0,
            1 => BASS_ROW_1,
            2 => BASS_ROW_2,
            3 => BASS_ROW_3,
            4 => BASS_ROW_4,
            5 => BASS_ROW_5,
            6 => BASS_ROW_6,
            7 => BASS_ROW_7,
            8 => BASS_ROW_8,
            9 => BASS_ROW_9,
            _ => BASS_ROW_10,
        },
    }
}

/// The mask of the center row of a staff with this clef.
pub fn center_row_mask(kind: StaffType) -> (mask: &'static str)
    ensures
        mask@ == center_mask(kind),
{
    match kind {
        StaffType::Treble => TREBLE_CENTER_ROW,
        StaffType::Bass => BASS_CENTER_ROW,
    }
}

} // verus!
