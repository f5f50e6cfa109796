//! The measure segmenter: cuts the rows of a staff at the bar separators and
//! hands each measure to the notehead scanner.
//!
//! The first row of a staff says how many measures the staff has: one after
//! each of its separators. What stands before the first separator of a row
//! is the margin with the clef drawing and belongs to no measure.

use crate::data_types::{bar_views, Bar, BarView, ParsingError, StaffType};
use crate::scanner::{bar_reading, lemma_bar_reading_wf, tokenize_bars};
use vstd::prelude::*;
use vstd::string::{StrSliceExecFns, StringExecFns};

verus! {

/// The glyph that parts one measure from the next.
pub const SEPARATOR: char = 'l';

/// How many separators a row has.
pub open spec fn separator_count(row: Seq<char>) -> nat
    decreases row.len(),
{
    if row.len() == 0 {
        0
    } else if row.last() == SEPARATOR {
        separator_count(row.drop_last()) + 1
    } else {
        separator_count(row.drop_last())
    }
}

/// The pieces into which the separators cut a row, from left to right. They
/// hold no separator. A row with `n` separators has `n + 1` pieces, some of
/// them empty where separators touch each other or an end of the row.
pub open spec fn pieces_of(row: Seq<char>) -> Seq<Seq<char>>
    decreases row.len(),
{
    if row.len() == 0 {
        seq![Seq::empty()]
    } else {
        let before = pieces_of(row.drop_last());
        if row.last() == SEPARATOR {
            before.push(Seq::empty())
        } else {
            before.update(before.len() - 1, before.last().push(row.last()))
        }
    }
}

/// The pieces put together again, with a separator between each two.
pub open spec fn joined(pieces: Seq<Seq<char>>) -> Seq<char>
    decreases pieces.len(),
{
    if pieces.len() == 0 {
        Seq::empty()
    } else if pieces.len() == 1 {
        pieces[0]
    } else {
        joined(pieces.drop_last()).push(SEPARATOR) + pieces.last()
    }
}

/// The pieces of a row hold no separator, and put together again they are the
/// row.
pub proof fn lemma_pieces_rejoin(row: Seq<char>)
    ensures
        pieces_of(row).len() >= 1,
        joined(pieces_of(row)) == row,
        forall|i: int, j: int|
            0 <= i < pieces_of(row).len() && 0 <= j < pieces_of(row)[i].len()
                ==> #[trigger] pieces_of(row)[i][j] != SEPARATOR,
    decreases row.len(),
{
    if row.len() > 0 {
        let pieces = pieces_of(row);
        let before = pieces_of(row.drop_last());
        lemma_pieces_rejoin(row.drop_last());
        if row.last() == SEPARATOR {
            assert(pieces.drop_last() =~= before);
        } else if before.len() > 1 {
            assert(pieces.drop_last() =~= before.drop_last());
            assert(joined(pieces) =~= joined(before).push(row.last()));
        }
    }
}

/// A row has one piece more than separators.
pub proof fn lemma_piece_count(row: Seq<char>)
    ensures
        pieces_of(row).len() == separator_count(row) + 1,
    decreases row.len(),
{
    if row.len() > 0 {
        lemma_piece_count(row.drop_last());
    }
}

/// The rows of measure `index` of a staff, counted from 0: of each row of the
/// staff that is cut into enough pieces, the piece after its separator
/// `index`, in the order of the rows.
pub open spec fn measure_rows(rows: Seq<Seq<char>>, index: int) -> Seq<Seq<char>>
    decreases rows.len(),
{
    if rows.len() == 0 {
        Seq::empty()
    } else {
        let above = measure_rows(rows.drop_last(), index);
        let pieces = pieces_of(rows.last());
        if 0 <= index && index + 1 < pieces.len() {
            above.push(pieces[index + 1])
        } else {
            above
        }
    }
}

/// How many measures a staff has: as many as its first row has separators.
pub open spec fn measure_total(rows: Seq<Seq<char>>) -> nat {
    if rows.len() == 0 {
        0
    } else {
        separator_count(rows[0])
    }
}

/// The bars of the first `end` measures of a staff, or the error of the first
/// measure among them that the scanner refuses. The first measure bears the
/// number `measure_count`, each further one the next number.
pub open spec fn bars_before(
    rows: Seq<Seq<char>>,
    measure_count: usize,
    center: int,
    clef: StaffType,
    end: int,
) -> Result<Seq<BarView>, ParsingError>
    decreases end,
{
    if end <= 0 {
        Ok(Seq::empty())
    } else {
        match bars_before(rows, measure_count, center, clef, end - 1) {
            Err(error) => Err(error),
            Ok(bars) => match bar_reading(
                measure_rows(rows, end - 1),
                (measure_count + end - 1) as usize,
                center,
                clef,
            ) {
                Ok(bar) => Ok(bars.push(bar)),
                Err(error) => Err(error),
            },
        }
    }
}

/// The bars of a staff, or the error of its first measure that the scanner
/// refuses.
pub open spec fn measures_reading(
    rows: Seq<Seq<char>>,
    measure_count: usize,
    center: int,
    clef: StaffType,
) -> Result<Seq<BarView>, ParsingError> {
    bars_before(rows, measure_count, center, clef, measure_total(rows) as int)
}

/// Where the first `end` measures are read, there are `end` bars; they are
/// numbered from `measure_count` on without a gap, and each has as many notes
/// as lengths.
pub proof fn lemma_bars_before_numbered(
    rows: Seq<Seq<char>>,
    measure_count: usize,
    center: int,
    clef: StaffType,
    end: int,
)
    requires
        0 <= end,
        measure_count + end <= usize::MAX,
    ensures
        bars_before(rows, measure_count, center, clef, end) matches Ok(bars) ==> {
            &&& bars.len() == end
            &&& forall|k: int|
                0 <= k < end ==> (#[trigger] bars[k]).measure_number == measure_count + k
                    && bars[k].wf()
        },
    decreases end,
{
    if end > 0 {
        lemma_bars_before_numbered(rows, measure_count, center, clef, end - 1);
        lemma_bar_reading_wf(
            measure_rows(rows, end - 1),
            (measure_count + end - 1) as usize,
            center,
            clef,
        );
    }
}

/// A staff whose first row has `k` separators is read into `k` bars with the
/// numbers `measure_count`, `measure_count + 1`, and so on.
pub proof fn lemma_measures_numbered(
    rows: Seq<Seq<char>>,
    measure_count: usize,
    center: int,
    clef: StaffType,
)
    requires
        measure_count + measure_total(rows) <= usize::MAX,
    ensures
        measures_reading(rows, measure_count, center, clef) matches Ok(bars) ==> {
            &&& bars.len() == measure_total(rows)
            &&& forall|k: int|
                0 <= k < bars.len() ==> (#[trigger] bars[k]).measure_number == measure_count + k
                    && bars[k].wf()
        },
{
    lemma_bars_before_numbered(rows, measure_count, center, clef, measure_total(rows) as int);
}

/// Counts the separators of a row.
pub fn count_separators(row: &str) -> (count: usize)
    ensures
        count == separator_count(row@),
{
    let width = row.unicode_len();
    let mut count: usize = 0;
    let mut i: usize = 0;
    while i < width
        invariant
            i <= width,
            width == row@.len(),
            count <= i,
            count == separator_count(row@.take(i as int)),
        decreases width - i,
    {
        assert(row@.take(i + 1).drop_last() =~= row@.take(i as int));
        if row.get_char(i) == SEPARATOR {
            count += 1;
        }
        i += 1;
    }
    assert(row@.take(width as int) =~= row@);
    count
}

/// Cuts a row at its separators.
pub fn split_row(row: &str) -> (pieces: Vec<String>)
    ensures
        pieces.deep_view() == pieces_of(row@),
        pieces.len() == separator_count(row@) + 1,
        joined(pieces.deep_view()) == row@,
{
    proof {
        lemma_piece_count(row@);
        lemma_pieces_rejoin(row@);
    }
    let width = row.unicode_len();
    let mut pieces: Vec<String> = Vec::new();
    let mut start: usize = 0;
    let mut i: usize = 0;
    assert(row@.take(0) =~= Seq::empty());
    while i < width
        invariant
            start <= i <= width,
            width == row@.len(),
            pieces.deep_view().push(row@.subrange(start as int, i as int)) == pieces_of(
                row@.take(i as int),
            ),
        decreases width - i,
    {
        let ghost open = row@.subrange(start as int, i as int);
        assert(row@.take(i + 1).drop_last() =~= row@.take(i as int));
        if row.get_char(i) == SEPARATOR {
            let piece = String::from_str(row.substring_char(start, i));
            pieces.push(piece);
            start = i + 1;
            assert(row@.subrange(start as int, i + 1) =~= Seq::empty());
        } else {
            assert(row@.subrange(start as int, i + 1) =~= open.push(row@[i as int]));
        }
        i += 1;
    }
    let last = String::from_str(row.substring_char(start, width));
    pieces.push(last);
    assert(row@.take(width as int) =~= row@);
    pieces
}

/// Gathers the rows of measure `index` from the pieces of the rows of a staff.
fn gather_measure(
    cut: &Vec<Vec<String>>,
    index: usize,
    Ghost(rows): Ghost<Seq<Seq<char>>>,
) -> (measure: Vec<String>)
    requires
        index < usize::MAX,
        cut.len() == rows.len(),
        forall|r: int| 0 <= r < cut.len() ==> (#[trigger] cut[r]).deep_view() == pieces_of(rows[r]),
    ensures
        measure.deep_view() == measure_rows(rows, index as int),
{
    let mut measure: Vec<String> = Vec::new();
    let mut r: usize = 0;
    while r < cut.len()
        invariant
            r <= cut.len(),
            index < usize::MAX,
            cut.len() == rows.len(),
            forall|j: int|
                0 <= j < cut.len() ==> (#[trigger] cut[j]).deep_view() == pieces_of(rows[j]),
            measure.deep_view() == measure_rows(rows.take(r as int), index as int),
        decreases cut.len() - r,
    {
        assert(rows.take(r + 1).drop_last() =~= rows.take(r as int));
        let pieces = &cut[r];
        if index + 1 < pieces.len() {
            let piece = pieces[index + 1].clone();
            measure.push(piece);
        }
        r += 1;
    }
    assert(rows.take(cut.len() as int) =~= rows);
    measure
}

/// Reads the measures of a staff into bars.
///
/// The staff has as many measures as its first row has separators. Pieces of
/// a row beyond that number belong to no measure. The first measure bears the
/// number `measure_count`. The first measure that the scanner refuses ends
/// the reading with its error.
pub fn get_measures(
    line: &Vec<String>,
    measure_count: usize,
    center: usize,
    clef: &StaffType,
) -> (verdict: Result<Vec<Bar>, ParsingError>)
    requires
        measure_count + measure_total(line.deep_view()) <= usize::MAX,
    ensures
        match verdict {
            Ok(bars) => measures_reading(line.deep_view(), measure_count, center as int, *clef)
                == Ok::<Seq<BarView>, ParsingError>(bar_views(bars@)),
            Err(error) => measures_reading(line.deep_view(), measure_count, center as int, *clef)
                == Err::<Seq<BarView>, ParsingError>(error),
        },
        verdict matches Ok(bars) ==> {
            &&& bars.len() == measure_total(line.deep_view())
            &&& forall|k: int|
                0 <= k < bars.len() ==> (#[trigger] bars[k]).measure_number == measure_count + k
                    && bars[k]@.wf()
        },
{
    let ghost rows = line.deep_view();
    let mut bars: Vec<Bar> = Vec::new();
    if line.len() == 0 {
        assert(bar_views(bars@) =~= Seq::empty());
        return Ok(bars);
    }
    let new_measures = count_separators(line[0].as_str());
    let mut cut: Vec<Vec<String>> = Vec::new();
    let mut r: usize = 0;
    while r < line.len()
        invariant
            r <= line.len(),
            rows == line.deep_view(),
            rows.len() == line.len(),
            cut.len() == r,
            forall|j: int| 0 <= j < r ==> (#[trigger] cut[j]).deep_view() == pieces_of(rows[j]),
        decreases line.len() - r,
    {
        let pieces = split_row(line[r].as_str());
        cut.push(pieces);
        r += 1;
    }
    let mut index: usize = 0;
    assert(bar_views(bars@) =~= Seq::empty());
    while index < new_measures
        invariant
            index <= new_measures,
            new_measures == measure_total(rows),
            measure_count + new_measures <= usize::MAX,
            rows == line.deep_view(),
            cut.len() == rows.len(),
            forall|j: int|
                0 <= j < cut.len() ==> (#[trigger] cut[j]).deep_view() == pieces_of(rows[j]),
            bars.len() == index,
            bars_before(rows, measure_count, center as int, *clef, index as int) == Ok::<
                Seq<BarView>,
                ParsingError,
            >(bar_views(bars@)),
        decreases new_measures - index,
    {
        let measure = gather_measure(&cut, index, Ghost(rows));
        let ghost earlier = bar_views(bars@);
        match tokenize_bars(&measure, measure_count + index, center, clef) {
            Ok(bar) => {
                bars.push(bar);
                assert(bar_views(bars@) =~= earlier.push(bar@));
            },
            Err(error) => {
                proof {
                    lemma_error_ends_reading(
                        rows,
                        measure_count,
                        center as int,
                        *clef,
                        index + 1,
                        new_measures as int,
                    );
                }
                return Err(error);
            },
        }
        index += 1;
    }
    proof {
        lemma_measures_numbered(rows, measure_count, center as int, *clef);
        assert forall|k: int| 0 <= k < bars.len() implies (#[trigger] bars[k]).measure_number
            == measure_count + k && bars[k]@.wf() by {
            assert(bar_views(bars@)[k] == bars[k]@);
        }
    }
    Ok(bars)
}

/// Once a measure is refused, reading further measures leaves the error as
/// it is.
pub proof fn lemma_error_ends_reading(
    rows: Seq<Seq<char>>,
    measure_count: usize,
    center: int,
    clef: StaffType,
    failed: int,
    end: int,
)
    requires
        0 <= failed <= end,
        bars_before(rows, measure_count, center, clef, failed) is Err,
    ensures
        bars_before(rows, measure_count, center, clef, end) == bars_before(
            rows,
            measure_count,
            center,
            clef,
            failed,
        ),
    decreases end - failed,
{
    if failed < end {
        lemma_error_ends_reading(rows, measure_count, center, clef, failed, end - 1);
    }
}

} // verus!
