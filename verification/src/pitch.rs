//! The pitch calculator: from the distance between a note's row and the center
//! row of its staff to the note's letter and octave.
//!
//! The letters run `A` to `G` and then start again one octave higher. Each row
//! of a staff is one letter apart from the next.

use crate::data_types::{same_text, Accidental, Note, NoteView, StaffType};
use vstd::arithmetic::div_mod::{lemma_mod_multiples_vanish, lemma_small_mod};
use vstd::prelude::*;

verus! {

/// How many letters the scale has.
pub const LETTERS: usize = 7;

/// The name of the letter at a place of the scale, `A` at place 0.
pub open spec fn letter_name(index: int) -> Seq<char> {
    if index == 0 {
        "A"@
    } else if index == 1 {
        "B"@
    } else if index == 2 {
        "C"@
    } else if index == 3 {
        "D"@
    } else if index == 4 {
        "E"@
    } else if index == 5 {
        "F"@
    } else {
        "G"@
    }
}

/// The place in the scale of the note on the center row.
pub open spec fn center_letter(clef: StaffType) -> int {
    match clef {
        StaffType::Treble => 1,
        StaffType::Bass => 3,
    }
}

/// The octave of the note on the center row.
pub open spec fn center_octave(clef: StaffType) -> int {
    match clef {
        StaffType::Treble => 5,
        StaffType::Bass => 3,
    }
}

/// The place of a note counted in letters from the `A` of the center octave:
/// a positive offset leads down the scale.
pub open spec fn raw_index(offset: int, clef: StaffType) -> int {
    center_letter(clef) - offset
}

/// The place in the scale of the note at an offset from the center row.
pub open spec fn letter_at(offset: int, clef: StaffType) -> int {
    raw_index(offset, clef) % (LETTERS as int)
}

/// The octave of the note at an offset from the center row.
pub open spec fn octave_at(offset: int, clef: StaffType) -> int {
    center_octave(clef) + raw_index(offset, clef) / (LETTERS as int)
}

/// The note at an offset from the center row: a natural, never a rest.
pub open spec fn pitch_at(offset: int, clef: StaffType) -> NoteView {
    NoteView {
        accidental: Accidental::Natural,
        name: letter_name(letter_at(offset, clef)),
        octave: octave_at(offset, clef) as nat,
        rest: false,
    }
}

/// Whether there is a note at an offset from the center row: its octave is
/// not negative, and its place in the scale fits a machine word.
pub open spec fn pitch_in_range(offset: int, clef: StaffType) -> bool {
    &&& octave_at(offset, clef) >= 0
    &&& raw_index(offset, clef) <= isize::MAX
}

/// The note seven rows further from the center has the same letter, one
/// octave apart: lower for rows counted in the positive direction.
pub proof fn lemma_octave_steps(offset: int, octaves: int, clef: StaffType)
    ensures
        letter_at(offset + 7 * octaves, clef) == letter_at(offset, clef),
        octave_at(offset + 7 * octaves, clef) == octave_at(offset, clef) - octaves,
        pitch_at(offset + 7 * octaves, clef).name == pitch_at(offset, clef).name,
{
}

/// The letters of the scale are seven different names.
pub proof fn lemma_letters_differ(i: int, j: int)
    requires
        0 <= i < LETTERS,
        0 <= j < LETTERS,
        i != j,
    ensures
        letter_name(i) != letter_name(j),
{
    reveal_strlit("A");
    reveal_strlit("B");
    reveal_strlit("C");
    reveal_strlit("D");
    reveal_strlit("E");
    reveal_strlit("F");
    reveal_strlit("G");
    assert(letter_name(i)[0] != letter_name(j)[0]);
}

/// The name of the letter at a place of the scale.
pub fn note_order(index: usize) -> (name: &'static str)
    requires
        index < LETTERS,
    ensures
        name@ == letter_name(index as int),
{
    match index {
        0 => "A",
        1 => "B",
        2 => "C",
        3 => "D",
        4 => "E",
        5 => "F",
        _ => "G",
    }
}

/// The place in the scale of the letter with this name, if it is one.
pub fn letter_position(name: &str) -> (place: Option<usize>)
    ensures
        match place {
            Some(index) => index < LETTERS && letter_name(index as int) == name@,
            None => forall|i: int| 0 <= i < LETTERS ==> letter_name(i) != name@,
        },
{
    let mut index: usize = 0;
    while index < LETTERS
        invariant
            index <= LETTERS,
            forall|i: int| 0 <= i < index ==> letter_name(i) != name@,
        decreases LETTERS - index,
    {
        if same_text(note_order(index), name) {
            return Some(index);
        }
        index += 1;
    }
    None
}

/// The note on the center row of a treble staff: `B` of octave 5.
pub fn treble_center() -> (note: Note)
    ensures
        note@ == pitch_at(0, StaffType::Treble),
{
    Note { accidental: Accidental::Natural, note_name: "B", octave: 5, rest: false }
}

/// The note on the center row of a bass staff: `D` of octave 3.
pub fn bass_center() -> (note: Note)
    ensures
        note@ == pitch_at(0, StaffType::Bass),
{
    Note { accidental: Accidental::Natural, note_name: "D", octave: 3, rest: false }
}

/// The least number that is not negative and differs from `x` by a multiple
/// of `y`.
pub fn modulo(x: isize, y: usize) -> (rest: usize)
    requires
        y > 0,
    ensures
        rest == (x as int) % (y as int),
{
    if x >= 0 {
        x as usize % y
    } else {
        let below: usize = (-(x + 1)) as usize;
        let back: usize = below % y;
        proof {
            let d = y as int;
            let q = (below as int) / d;
            let a = -q - 1;
            let b = d - 1 - back;
            assert(below as int == d * q + back) by {
                vstd::arithmetic::div_mod::lemma_fundamental_div_mod(below as int, d);
            }
            assert(d * a == -(d * q) - d) by (nonlinear_arith)
                requires
                    a == -q - 1,
            ;
            lemma_mod_multiples_vanish(a, b, d);
            lemma_small_mod(b as nat, d as nat);
        }
        y - 1 - back
    }
}

/// Finds the note that stands `offset` rows from the center row of a staff.
///
/// Offset 0 is the center note itself. Each step of the offset is one letter;
/// seven steps are one octave. Notes found by this rule are naturals.
pub fn calculate_note(offset: isize, clef: &StaffType) -> (note: Note)
    requires
        pitch_in_range(offset as int, *clef),
    ensures
        note@ == pitch_at(offset as int, *clef),
{
    let center: Note = match clef {
        StaffType::Bass => bass_center(),
        StaffType::Treble => treble_center(),
    };
    let found = letter_position(center.note_name);
    let center_index: usize = match found {
        Some(index) => index,
        None => 0,
    };
    proof {
        if found is Some && center_index != center_letter(*clef) {
            lemma_letters_differ(center_index as int, center_letter(*clef));
        }
    }
    let next_index: isize = center_index as isize - offset;
    let mut octave_offset: isize = next_index / 7;
    let letter = modulo(next_index, LETTERS);
    if next_index < 0 && letter != 0 {
        octave_offset -= 1;
    }
    Note {
        accidental: Accidental::Natural,
        note_name: note_order(letter),
        octave: (center.octave as isize + octave_offset) as usize,
        rest: false,
    }
}

/// Whether there is a note at an offset from the center row.
pub fn has_pitch(offset: isize, clef: &StaffType) -> (found: bool)
    ensures
        found == pitch_in_range(offset as int, *clef),
{
    let (letter, octave): (isize, isize) = match clef {
        StaffType::Treble => (1, 5),
        StaffType::Bass => (3, 3),
    };
    offset <= letter + 7 * octave && offset >= letter - isize::MAX
}

/// Finds the note that stands `offset` rows from the center row of a staff,
/// if there is one.
pub fn note_at(offset: isize, clef: &StaffType) -> (found: Option<Note>)
    ensures
        match found {
            Some(note) => pitch_in_range(offset as int, *clef) && note@ == pitch_at(
                offset as int,
                *clef,
            ),
            None => !pitch_in_range(offset as int, *clef),
        },
{
    if has_pitch(offset, clef) {
        Some(calculate_note(offset, clef))
    } else {
        None
    }
}

} // verus!
