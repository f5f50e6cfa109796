//! The notehead scanner: reads the rows of one measure column by column and
//! turns each notehead into a note.
//!
//! A notehead is the glyph `@` (solid) or `O` (open). It counts where a stem
//! `|` stands directly beside it, in its own row; the row of the notehead is
//! the row of its pitch. Where stems stand on both sides, the one to the right
//! is taken for the stem of the note. A column yields at most one note, that
//! of its topmost notehead with a stem.

use crate::data_types::{note_views, Bar, BarView, Beats, Note, NoteView, ParsingError, StaffType};
use crate::pitch::{note_at, pitch_at, pitch_in_range};
use vstd::prelude::*;
use vstd::string::StrSliceExecFns;

verus! {

/// The glyph of a solid notehead.
pub const SOLID_HEAD: char = '@';

/// The glyph of an open notehead.
pub const OPEN_HEAD: char = 'O';

/// The glyph of a stem.
pub const STEM: char = '|';

/// The glyph in a column of a row, if the row is that wide.
pub open spec fn glyph_at(row: Seq<char>, column: int) -> Option<char> {
    if 0 <= column < row.len() {
        Some(row[column])
    } else {
        None
    }
}

/// On which side of the notehead in column `head` its stem stands: 1 for the
/// right, -1 for the left, 0 where there is no stem beside it.
pub open spec fn tail_side(row: Seq<char>, head: int) -> int {
    if glyph_at(row, head + 1) == Some(STEM) {
        1
    } else if glyph_at(row, head - 1) == Some(STEM) {
        -1
    } else {
        0
    }
}

/// Whether the row has a notehead in the column.
pub open spec fn holds_head(row: Seq<char>, column: int) -> bool {
    glyph_at(row, column) == Some(SOLID_HEAD) || glyph_at(row, column) == Some(OPEN_HEAD)
}

/// Whether the row has a notehead with a stem in the column.
pub open spec fn holds_stemmed_head(row: Seq<char>, column: int) -> bool {
    holds_head(row, column) && tail_side(row, column) != 0
}

/// Whether some row has a notehead in the column.
pub open spec fn column_has_head(rows: Seq<Seq<char>>, column: int) -> bool {
    exists|r: int| 0 <= r < rows.len() && holds_head(#[trigger] rows[r], column)
}

/// The index of the first row from `from` on with a stemmed notehead in the
/// column, or the number of rows where there is none.
pub open spec fn first_stemmed_row(rows: Seq<Seq<char>>, column: int, from: int) -> int
    decreases rows.len() - from,
{
    if from < 0 || from >= rows.len() {
        rows.len() as int
    } else if holds_stemmed_head(rows[from], column) {
        from
    } else {
        first_stemmed_row(rows, column, from + 1)
    }
}

/// What a column of a measure holds.
#[derive(Clone, Copy, Debug, PartialEq, Eq, Structural)]
pub enum ColumnFind {
    /// No notehead.
    Blank,
    /// Noteheads, none of them with a stem.
    Loose,
    /// The topmost notehead with a stem is in this row.
    Head(usize),
}

/// What a column of a measure holds.
pub open spec fn column_find(rows: Seq<Seq<char>>, column: int) -> ColumnFind {
    let top = first_stemmed_row(rows, column, 0);
    if top < rows.len() {
        ColumnFind::Head(top as usize)
    } else if column_has_head(rows, column) {
        ColumnFind::Loose
    } else {
        ColumnFind::Blank
    }
}

/// The note of a column: the pitch of its topmost stemmed notehead, whose
/// offset is the index of the center row less the index of its own row.
pub open spec fn column_note(
    rows: Seq<Seq<char>>,
    column: int,
    center: int,
    clef: StaffType,
) -> Option<NoteView> {
    let top = first_stemmed_row(rows, column, 0);
    if top < rows.len() && pitch_in_range(center - top, clef) {
        Some(pitch_at(center - top, clef))
    } else {
        None
    }
}

/// Whether a column has a notehead and yet no note: none of its noteheads has
/// a stem, or there is no pitch that far from the center row.
pub open spec fn column_is_invalid(
    rows: Seq<Seq<char>>,
    column: int,
    center: int,
    clef: StaffType,
) -> bool {
    column_has_head(rows, column) && column_note(rows, column, center, clef) is None
}

/// The index of the first row from `from` on that is not empty, or the number
/// of rows where there is none.
pub open spec fn first_filled_row(rows: Seq<Seq<char>>, from: int) -> int
    decreases rows.len() - from,
{
    if from < 0 || from >= rows.len() {
        rows.len() as int
    } else if rows[from].len() != 0 {
        from
    } else {
        first_filled_row(rows, from + 1)
    }
}

/// The width of a measure: that of its first row that is not empty, and 0
/// where all its rows are empty.
pub open spec fn measure_width(rows: Seq<Seq<char>>) -> nat {
    let first = first_filled_row(rows, 0);
    if first < rows.len() {
        rows[first].len()
    } else {
        0
    }
}

/// Whether two rows of the measure that are not empty differ in width.
pub open spec fn is_ragged(rows: Seq<Seq<char>>) -> bool {
    exists|i: int, j: int|
        #![trigger rows[i], rows[j]]
        0 <= i < rows.len() && 0 <= j < rows.len() && rows[i].len() != 0 && rows[j].len() != 0
            && rows[i].len() != rows[j].len()
}

/// The first column from `from` on that is invalid, or the width of the
/// measure where there is none.
pub open spec fn first_invalid_column(
    rows: Seq<Seq<char>>,
    center: int,
    clef: StaffType,
    from: int,
) -> int
    decreases measure_width(rows) - from,
{
    if from < 0 || from >= measure_width(rows) {
        measure_width(rows) as int
    } else if column_is_invalid(rows, from, center, clef) {
        from
    } else {
        first_invalid_column(rows, center, clef, from + 1)
    }
}

/// The notes of the columns before column `end`, from left to right.
pub open spec fn notes_before(
    rows: Seq<Seq<char>>,
    center: int,
    clef: StaffType,
    end: int,
) -> Seq<NoteView>
    decreases end,
{
    if end <= 0 {
        Seq::empty()
    } else {
        let earlier = notes_before(rows, center, clef, end - 1);
        match column_note(rows, end - 1, center, clef) {
            Some(note) => earlier.push(note),
            None => earlier,
        }
    }
}

/// So many quarter notes.
pub open spec fn quarters(count: nat) -> Seq<Beats> {
    Seq::new(count, |i: int| Beats::Quarter)
}

/// What the scanner makes of a measure.
///
/// A ragged measure is refused as a whole. Else the first invalid column is
/// reported. Else the bar holds the notes of the columns, a quarter each.
pub open spec fn bar_reading(
    rows: Seq<Seq<char>>,
    measure_count: usize,
    center: int,
    clef: StaffType,
) -> Result<BarView, ParsingError> {
    let width = measure_width(rows) as int;
    let bad = first_invalid_column(rows, center, clef, 0);
    let notes = notes_before(rows, center, clef, width);
    if is_ragged(rows) {
        Err(ParsingError::InvalidMeasureLenghts(measure_count))
    } else if bad < width {
        Err(ParsingError::InvalidNoteDeclaration(measure_count, bad as usize))
    } else {
        Ok(
            BarView {
                pitches: notes,
                durations: quarters(notes.len()),
                measure_number: measure_count as nat,
            },
        )
    }
}

/// `first_stemmed_row` names a row with a stemmed notehead in the column, and
/// no row before it has one.
pub proof fn lemma_first_stemmed_row(rows: Seq<Seq<char>>, column: int, from: int)
    requires
        0 <= from <= rows.len(),
    ensures
        from <= first_stemmed_row(rows, column, from) <= rows.len(),
        first_stemmed_row(rows, column, from) < rows.len() ==> holds_stemmed_head(
            rows[first_stemmed_row(rows, column, from)],
            column,
        ),
        forall|j: int|
            from <= j < first_stemmed_row(rows, column, from) ==> !holds_stemmed_head(
                #[trigger] rows[j],
                column,
            ),
    decreases rows.len() - from,
{
    if from < rows.len() && !holds_stemmed_head(rows[from], column) {
        lemma_first_stemmed_row(rows, column, from + 1);
    }
}

/// `first_filled_row` names a row that is not empty, and every row before it
/// is empty.
pub proof fn lemma_first_filled_row(rows: Seq<Seq<char>>, from: int)
    requires
        0 <= from <= rows.len(),
    ensures
        from <= first_filled_row(rows, from) <= rows.len(),
        first_filled_row(rows, from) < rows.len() ==> rows[first_filled_row(rows, from)].len()
            != 0,
        forall|j: int| from <= j < first_filled_row(rows, from) ==> (#[trigger] rows[j]).len() == 0,
    decreases rows.len() - from,
{
    if from < rows.len() && rows[from].len() == 0 {
        lemma_first_filled_row(rows, from + 1);
    }
}

/// In a measure that is not ragged, every row is empty or as wide as the
/// measure; in a ragged one, some row is neither.
pub proof fn lemma_ragged_by_width(rows: Seq<Seq<char>>)
    ensures
        is_ragged(rows) <==> exists|r: int|
            0 <= r < rows.len() && (#[trigger] rows[r]).len() != 0 && rows[r].len()
                != measure_width(rows),
{
    lemma_first_filled_row(rows, 0);
    let first = first_filled_row(rows, 0);
    if is_ragged(rows) {
        let (i, j) = choose|i: int, j: int|
            #![trigger rows[i], rows[j]]
            0 <= i < rows.len() && 0 <= j < rows.len() && rows[i].len() != 0 && rows[j].len() != 0
                && rows[i].len() != rows[j].len();
        assert(rows[i].len() != measure_width(rows) || rows[j].len() != measure_width(rows));
    }
    if exists|r: int|
        0 <= r < rows.len() && (#[trigger] rows[r]).len() != 0 && rows[r].len() != measure_width(
            rows,
        ) {
        let r = choose|r: int|
            0 <= r < rows.len() && (#[trigger] rows[r]).len() != 0 && rows[r].len()
                != measure_width(rows);
        assert(rows[first].len() != 0 && rows[r].len() != 0 && rows[first].len() != rows[r].len());
    }
}

/// `first_invalid_column` names an invalid column, and no column before it is
/// invalid.
pub proof fn lemma_first_invalid_column(
    rows: Seq<Seq<char>>,
    center: int,
    clef: StaffType,
    from: int,
)
    requires
        0 <= from <= measure_width(rows),
    ensures
        from <= first_invalid_column(rows, center, clef, from) <= measure_width(rows),
        first_invalid_column(rows, center, clef, from) < measure_width(rows) ==> column_is_invalid(
            rows,
            first_invalid_column(rows, center, clef, from),
            center,
            clef,
        ),
        forall|c: int|
            from <= c < first_invalid_column(rows, center, clef, from) ==> !column_is_invalid(
                rows,
                c,
                center,
                clef,
            ),
    decreases measure_width(rows) - from,
{
    if from < measure_width(rows) && !column_is_invalid(rows, from, center, clef) {
        lemma_first_invalid_column(rows, center, clef, from + 1);
    }
}

/// A bar has as many notes as lengths, and no more notes than the measure has
/// columns.
pub proof fn lemma_bar_reading_wf(
    rows: Seq<Seq<char>>,
    measure_count: usize,
    center: int,
    clef: StaffType,
)
    ensures
        bar_reading(rows, measure_count, center, clef) matches Ok(bar) ==> bar.wf()
            && bar.pitches.len() <= measure_width(rows) && bar.measure_number == measure_count,
{
    lemma_notes_before_len(rows, center, clef, measure_width(rows) as int);
}

/// The columns before `end` yield at most `end` notes.
pub proof fn lemma_notes_before_len(rows: Seq<Seq<char>>, center: int, clef: StaffType, end: int)
    requires
        0 <= end,
    ensures
        notes_before(rows, center, clef, end).len() <= end,
    decreases end,
{
    if end > 0 {
        lemma_notes_before_len(rows, center, clef, end - 1);
    }
}

/// The glyph in a column of a row, if the row is that wide.
pub fn glyph(row: &str, column: usize) -> (found: Option<char>)
    ensures
        found == glyph_at(row@, column as int),
{
    if column < row.unicode_len() {
        Some(row.get_char(column))
    } else {
        None
    }
}

/// Tells on which side of the notehead in column `head_idx` its stem stands:
/// 1 for the right, -1 for the left, 0 where there is no stem beside it.
pub fn find_tail(line: &String, head_idx: usize) -> (side: isize)
    ensures
        side == tail_side(line@, head_idx as int),
{
    let row = line.as_str();
    let width = row.unicode_len();
    let mut side: isize = 0;
    if head_idx > 0 {
        if let Some(tail) = glyph(row, head_idx - 1) {
            if tail == STEM {
                side = -1;
            }
        }
    }
    if head_idx < width {
        if let Some(tail) = glyph(row, head_idx + 1) {
            if tail == STEM {
                side = 1;
            }
        }
    }
    side
}

/// Looks through a column of a measure from the top.
pub fn read_column(measure: &Vec<String>, column: usize) -> (found: ColumnFind)
    ensures
        found == column_find(measure.deep_view(), column as int),
{
    let ghost rows = measure.deep_view();
    let mut seen = false;
    let mut r: usize = 0;
    while r < measure.len()
        invariant
            r <= measure.len(),
            rows == measure.deep_view(),
            rows.len() == measure.len(),
            first_stemmed_row(rows, column as int, 0) == first_stemmed_row(
                rows,
                column as int,
                r as int,
            ),
            seen == (exists|j: int| 0 <= j < r && holds_head(#[trigger] rows[j], column as int)),
        decreases measure.len() - r,
    {
        let row = &measure[r];
        if let Some(found) = glyph(row.as_str(), column) {
            if found == SOLID_HEAD || found == OPEN_HEAD {
                seen = true;
                if find_tail(row, column) != 0 {
                    return ColumnFind::Head(r);
                }
            }
        }
        r += 1;
    }
    if seen {
        ColumnFind::Loose
    } else {
        ColumnFind::Blank
    }
}

/// The offset of a row from the center row, where a machine word holds it.
pub fn row_offset(center: usize, row: usize) -> (offset: Option<isize>)
    ensures
        match offset {
            Some(distance) => distance == center - row,
            None => center - row > isize::MAX || center - row < -isize::MAX,
        },
{
    if center >= row {
        let distance = center - row;
        if distance <= isize::MAX as usize {
            Some(distance as isize)
        } else {
            None
        }
    } else {
        let distance = row - center;
        if distance <= isize::MAX as usize {
            Some(-(distance as isize))
        } else {
            None
        }
    }
}

/// Reads one measure into a bar.
///
/// The rows that are not empty must all be of one width, which is the width
/// of the measure; else the measure is refused with `InvalidMeasureLenghts`.
/// Empty rows may stand anywhere. Then the columns are read from left to
/// right. A column without a notehead yields nothing. A column
/// with a notehead yields the note of its topmost notehead that has a stem,
/// as a quarter; where there is no such notehead, or no pitch at its row,
/// the measure is refused with `InvalidNoteDeclaration` and the column.
pub fn tokenize_bars(
    measure: &Vec<String>,
    measure_count: usize,
    center: usize,
    clef: &StaffType,
) -> (verdict: Result<Bar, ParsingError>)
    ensures
        match verdict {
            Ok(bar) => bar_reading(measure.deep_view(), measure_count, center as int, *clef)
                == Ok::<BarView, ParsingError>(bar@),
            Err(error) => bar_reading(measure.deep_view(), measure_count, center as int, *clef)
                == Err::<BarView, ParsingError>(error),
        },
        is_ragged(measure.deep_view()) <==> verdict == Err::<Bar, ParsingError>(
            ParsingError::InvalidMeasureLenghts(measure_count),
        ),
        verdict matches Ok(bar) ==> bar@.wf() && bar.measure_number == measure_count,
{
    let ghost rows = measure.deep_view();
    proof {
        lemma_bar_reading_wf(rows, measure_count, center as int, *clef);
    }
    let mut length: usize = 0;
    let mut r: usize = 0;
    while r < measure.len()
        invariant
            r <= measure.len(),
            rows == measure.deep_view(),
            rows.len() == measure.len(),
            length == 0 ==> first_filled_row(rows, 0) == first_filled_row(rows, r as int),
            length != 0 ==> first_filled_row(rows, 0) < r && length == measure_width(rows),
            forall|j: int|
                0 <= j < r ==> (#[trigger] rows[j]).len() == length || rows[j].len() == 0,
        decreases measure.len() - r,
    {
        let width = measure[r].as_str().unicode_len();
        assert(width == rows[r as int].len());
        if width != 0 {
            if length == 0 {
                length = width;
            } else if width != length {
                proof {
                    lemma_ragged_by_width(rows);
                }
                return Err(ParsingError::InvalidMeasureLenghts(measure_count));
            }
        }
        r += 1;
    }
    proof {
        lemma_ragged_by_width(rows);
        lemma_first_filled_row(rows, 0);
    }
    let mut notes: Vec<Note> = Vec::new();
    let mut durs: Vec<Beats> = Vec::new();
    let mut pos: usize = 0;
    while pos < length
        invariant
            pos <= length,
            rows == measure.deep_view(),
            rows.len() == measure.len(),
            length == measure_width(rows),
            !is_ragged(rows),
            first_invalid_column(rows, center as int, *clef, 0) == first_invalid_column(
                rows,
                center as int,
                *clef,
                pos as int,
            ),
            note_views(notes@) == notes_before(rows, center as int, *clef, pos as int),
            durs@ == quarters(notes.len() as nat),
        decreases length - pos,
    {
        proof {
            lemma_first_stemmed_row(rows, pos as int, 0);
        }
        match read_column(measure, pos) {
            ColumnFind::Blank => {},
            ColumnFind::Loose => {
                return Err(ParsingError::InvalidNoteDeclaration(measure_count, pos));
            },
            ColumnFind::Head(row) => {
                let found = match row_offset(center, row) {
                    Some(offset) => note_at(offset, clef),
                    None => None,
                };
                match found {
                    Some(note) => {
                        notes.push(note);
                        durs.push(Beats::Quarter);
                    },
                    None => {
                        return Err(ParsingError::InvalidNoteDeclaration(measure_count, pos));
                    },
                }
            },
        }
        pos += 1;
    }
    proof {
        lemma_first_invalid_column(rows, center as int, *clef, 0);
    }
    let bar = Bar { pitches: notes, durations: durs, measure_number: measure_count };
    Ok(bar)
}

} // verus!
