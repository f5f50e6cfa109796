//! The clef classifier and the center-row locator.
//!
//! A staff opens with the drawing of its clef, eleven rows high. The
//! classifier reads the rows of a staff from the top, as a small state
//! machine: it waits for a row that opens a drawing, then holds every
//! following row against the next mask of that drawing.

use crate::data_types::{ParsingError, StaffType};
use crate::glyphs::{
    center_mask, center_row_mask, clef_mask, clef_row_mask, fits, row_fits, CLEF_ROWS,
};
use vstd::prelude::*;

verus! {

/// Where the classifier stands after the rows read so far.
#[derive(Clone, Copy, Debug, PartialEq, Eq, Structural)]
pub enum ClefState {
    /// No row has opened a drawing yet.
    Unclassified,
    /// A drawing of this kind is open and its rows up to `next - 1` were read.
    Matching { kind: StaffType, next: usize },
    /// All rows of the drawing were read.
    Classified(StaffType),
    /// A row inside the drawing did not fit its mask.
    Rejected,
}

impl ClefState {
    /// The state after a row read while no drawing was open, given whether the
    /// row fits the first mask of each clef. The bass clef is asked first.
    pub open spec fn opened(bass_head: bool, treble_head: bool) -> ClefState {
        if bass_head {
            ClefState::Matching { kind: StaffType::Bass, next: 1 }
        } else if treble_head {
            ClefState::Matching { kind: StaffType::Treble, next: 1 }
        } else {
            ClefState::Unclassified
        }
    }

    /// The state after a row read inside a drawing, given whether the row fits
    /// mask `next`. The last mask closes the drawing.
    pub open spec fn advanced(kind: StaffType, next: usize, fitted: bool) -> ClefState {
        if !fitted {
            ClefState::Rejected
        } else if next + 1 >= CLEF_ROWS {
            ClefState::Classified(kind)
        } else {
            ClefState::Matching { kind, next: (next + 1) as usize }
        }
    }

    /// Reads a row while no drawing is open.
    pub fn open(bass_head: bool, treble_head: bool) -> (state: ClefState)
        ensures
            state == ClefState::opened(bass_head, treble_head),
    {
        if bass_head {
            ClefState::Matching { kind: StaffType::Bass, next: 1 }
        } else if treble_head {
            ClefState::Matching { kind: StaffType::Treble, next: 1 }
        } else {
            ClefState::Unclassified
        }
    }

    /// Reads a row inside a drawing.
    pub fn advance(kind: StaffType, next: usize, fitted: bool) -> (state: ClefState)
        requires
            next < CLEF_ROWS,
        ensures
            state == ClefState::advanced(kind, next, fitted),
    {
        if !fitted {
            ClefState::Rejected
        } else if next + 1 >= CLEF_ROWS {
            ClefState::Classified(kind)
        } else {
            ClefState::Matching { kind, next: next + 1 }
        }
    }
}

/// Whether a row opens the drawing of a clef.
pub open spec fn opens_clef(row: Seq<char>) -> bool {
    fits(clef_mask(StaffType::Bass, 0), row) || fits(clef_mask(StaffType::Treble, 0), row)
}

/// The clef whose drawing a row opens.
pub open spec fn opened_kind(row: Seq<char>) -> StaffType {
    if fits(clef_mask(StaffType::Bass, 0), row) {
        StaffType::Bass
    } else {
        StaffType::Treble
    }
}

/// The index of the first row from `from` on that opens a drawing, or the
/// number of rows where there is none.
pub open spec fn first_clef_row(rows: Seq<Seq<char>>, from: int) -> int
    decreases rows.len() - from,
{
    if from < 0 || from >= rows.len() {
        rows.len() as int
    } else if opens_clef(rows[from]) {
        from
    } else {
        first_clef_row(rows, from + 1)
    }
}

/// Whether the rows after row `top` hold the rest of the drawing of `kind`:
/// row `top + i` fits mask `i`, for each of the masks 1 to 10.
pub open spec fn drawing_fits(rows: Seq<Seq<char>>, top: int, kind: StaffType) -> bool {
    &&& top + CLEF_ROWS <= rows.len()
    &&& forall|i: int| 1 <= i < CLEF_ROWS ==> fits(clef_mask(kind, i), #[trigger] rows[top + i])
}

/// The clef of a staff: that of the first drawing that its rows open, where
/// the whole drawing is there.
pub open spec fn clef_of(rows: Seq<Seq<char>>) -> Option<StaffType> {
    let top = first_clef_row(rows, 0);
    if top < rows.len() && drawing_fits(rows, top, opened_kind(rows[top])) {
        Some(opened_kind(rows[top]))
    } else {
        None
    }
}

/// `first_clef_row` names a row that opens a drawing, and no row before it
/// does.
pub proof fn lemma_first_clef_row(rows: Seq<Seq<char>>, from: int)
    requires
        0 <= from <= rows.len(),
    ensures
        from <= first_clef_row(rows, from) <= rows.len(),
        first_clef_row(rows, from) < rows.len() ==> opens_clef(rows[first_clef_row(rows, from)]),
        forall|j: int| from <= j < first_clef_row(rows, from) ==> !opens_clef(#[trigger] rows[j]),
    decreases rows.len() - from,
{
    if from < rows.len() && !opens_clef(rows[from]) {
        lemma_first_clef_row(rows, from + 1);
    }
}

/// What the classifier answers for the staff at `line_number` of the score.
pub open spec fn clef_verdict(rows: Seq<Seq<char>>, line_number: usize) -> Result<
    StaffType,
    ParsingError,
> {
    match clef_of(rows) {
        Some(kind) => Ok(kind),
        None => Err(ParsingError::InvalidStaffDeclaration(line_number)),
    }
}

/// A staff whose first eleven rows are the drawing of a clef has that clef.
/// For the treble clef the top row must not open a bass drawing as well,
/// since the bass clef is asked first.
pub proof fn lemma_drawing_at_top_classifies(
    rows: Seq<Seq<char>>,
    kind: StaffType,
    line_number: usize,
)
    requires
        rows.len() >= CLEF_ROWS,
        forall|i: int| 0 <= i < CLEF_ROWS ==> fits(clef_mask(kind, i), #[trigger] rows[i]),
        kind == StaffType::Treble ==> !fits(clef_mask(StaffType::Bass, 0), rows[0]),
    ensures
        clef_verdict(rows, line_number) == Ok::<StaffType, ParsingError>(kind),
{
    assert(drawing_fits(rows, 0, kind));
}

/// One row of an open drawing that does not fit its mask has the staff
/// refused with its index, whatever the other rows hold.
pub proof fn lemma_deviation_rejects(rows: Seq<Seq<char>>, index: int, line_number: usize)
    requires
        1 <= index < CLEF_ROWS,
        first_clef_row(rows, 0) + index < rows.len(),
        !fits(
            clef_mask(opened_kind(rows[first_clef_row(rows, 0)]), index),
            rows[first_clef_row(rows, 0) + index],
        ),
    ensures
        clef_verdict(rows, line_number) == Err::<StaffType, ParsingError>(
            ParsingError::InvalidStaffDeclaration(line_number),
        ),
{
}

/// A staff with fewer rows than a drawing has, from the row that opens it,
/// is refused with its index; so is one in which no row opens a drawing.
pub proof fn lemma_short_staff_rejects(rows: Seq<Seq<char>>, line_number: usize)
    requires
        first_clef_row(rows, 0) + CLEF_ROWS > rows.len(),
    ensures
        clef_verdict(rows, line_number) == Err::<StaffType, ParsingError>(
            ParsingError::InvalidStaffDeclaration(line_number),
        ),
{
}

/// Finds the clef of a staff from its rows.
///
/// The rows before the first one that opens a drawing are passed over. From
/// that row on, each of the next ten rows has to fit its mask; the staff is
/// refused at the first that does not, or when the rows end before the drawing
/// does.
pub fn get_clef_type(line: &Vec<String>, line_number: usize) -> (verdict: Result<
    StaffType,
    ParsingError,
>)
    ensures
        verdict == clef_verdict(line.deep_view(), line_number),
{
    let ghost rows = line.deep_view();
    let mut state = ClefState::Unclassified;
    let mut i: usize = 0;
    while i < line.len()
        invariant
            i <= line.len(),
            rows == line.deep_view(),
            rows.len() == line.len(),
            match state {
                ClefState::Unclassified => first_clef_row(rows, 0) == first_clef_row(
                    rows,
                    i as int,
                ),
                ClefState::Matching { kind, next } => {
                    &&& 1 <= next < CLEF_ROWS
                    &&& next <= i
                    &&& first_clef_row(rows, 0) == i - next
                    &&& kind == opened_kind(rows[i - next])
                    &&& forall|t: int|
                        1 <= t < next ==> fits(clef_mask(kind, t), #[trigger] rows[i - next + t])
                },
                _ => false,
            },
        decreases line.len() - i,
    {
        let row = line[i].as_str();
        match state {
            ClefState::Unclassified => {
                let bass_head = row_fits(clef_row_mask(StaffType::Bass, 0), row);
                let treble_head = row_fits(clef_row_mask(StaffType::Treble, 0), row);
                state = ClefState::open(bass_head, treble_head);
            },
            ClefState::Matching { kind, next } => {
                let fitted = row_fits(clef_row_mask(kind, next), row);
                state = ClefState::advance(kind, next, fitted);
                let ghost top = i - next;
                match state {
                    ClefState::Classified(found) => {
                        assert(drawing_fits(rows, top, kind));
                        return Ok(found);
                    },
                    ClefState::Rejected => {
                        assert(rows[top + next] == rows[i as int]);
                        return Err(ParsingError::InvalidStaffDeclaration(line_number));
                    },
                    _ => {},
                }
            },
            _ => {},
        }
        i += 1;
    }
    proof {
        lemma_first_clef_row(rows, 0);
    }
    Err(ParsingError::InvalidStaffDeclaration(line_number))
}

/// The index of the first row from `from` on that fits the center mask of the
/// clef, or the number of rows where there is none.
pub open spec fn first_center_row(rows: Seq<Seq<char>>, kind: StaffType, from: int) -> int
    decreases rows.len() - from,
{
    if from < 0 || from >= rows.len() {
        rows.len() as int
    } else if fits(center_mask(kind), rows[from]) {
        from
    } else {
        first_center_row(rows, kind, from + 1)
    }
}

/// The index of the center row of a staff: the first row that fits the center
/// mask of its clef, and 0 where no row does.
pub open spec fn center_line_of(rows: Seq<Seq<char>>, kind: StaffType) -> int {
    let found = first_center_row(rows, kind, 0);
    if found < rows.len() {
        found
    } else {
        0
    }
}

/// `first_center_row` names a row that fits the center mask, and no row before
/// it does.
pub proof fn lemma_first_center_row(rows: Seq<Seq<char>>, kind: StaffType, from: int)
    requires
        0 <= from <= rows.len(),
    ensures
        from <= first_center_row(rows, kind, from) <= rows.len(),
        first_center_row(rows, kind, from) < rows.len() ==> fits(
            center_mask(kind),
            rows[first_center_row(rows, kind, from)],
        ),
        forall|j: int|
            from <= j < first_center_row(rows, kind, from) ==> !fits(
                center_mask(kind),
                #[trigger] rows[j],
            ),
    decreases rows.len() - from,
{
    if from < rows.len() && !fits(center_mask(kind), rows[from]) {
        lemma_first_center_row(rows, kind, from + 1);
    }
}

/// Finds the row of a staff that carries the center pitch of its clef.
///
/// A staff without such a row gets row 0 as its center.
pub fn get_center_line(line: &Vec<String>, clef_type: &StaffType) -> (center: usize)
    ensures
        center == center_line_of(line.deep_view(), *clef_type),
        line.len() > 0 ==> center < line.len(),
        center > 0 ==> fits(center_mask(*clef_type), line.deep_view()[center as int]),
        forall|j: int|
            0 <= j < center ==> !fits(center_mask(*clef_type), #[trigger] line.deep_view()[j]),
{
    let ghost rows = line.deep_view();
    proof {
        lemma_first_center_row(rows, *clef_type, 0);
    }
    let mask = center_row_mask(*clef_type);
    let mut i: usize = 0;
    while i < line.len()
        invariant
            i <= line.len(),
            rows == line.deep_view(),
            rows.len() == line.len(),
            mask@ == center_mask(*clef_type),
            first_center_row(rows, *clef_type, 0) == first_center_row(rows, *clef_type, i as int),
        decreases line.len() - i,
    {
        let row = line[i].as_str();
        if row_fits(mask, row) {
            proof {
                lemma_first_center_row(rows, *clef_type, 0);
            }
            return i;
        }
        i += 1;
    }
    0
}

} // verus!
