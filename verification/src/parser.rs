//! The parse of a whole score: staff by staff, with measure numbers that run
//! through the score from 1.

use crate::clef::{center_line_of, clef_of, get_center_line, get_clef_type};
use crate::data_types::{line_views, Bar, Line, LineView, ParsingError, StaffType};
use crate::measures::{
    count_separators, get_measures, lemma_measures_numbered, measure_total, measures_reading,
    separator_count,
};
use crate::splitter::{get_raw_lines, groups_of, is_delimiter, lemma_stave_count, staves_of};
use vstd::prelude::*;

verus! {

/// How many measures the staves before staff `end` have between them.
pub open spec fn measures_before(staves: Seq<Seq<Seq<char>>>, end: int) -> nat
    decreases end,
{
    if end <= 0 {
        0
    } else {
        measures_before(staves, end - 1) + measure_total(staves[end - 1])
    }
}

/// Whether a machine word holds the number of each measure of the staves, and
/// the number after the last.
pub open spec fn numbers_fit(staves: Seq<Seq<Seq<char>>>) -> bool {
    1 + measures_before(staves, staves.len() as int) <= usize::MAX
}

/// How many bars the lines have between them.
pub open spec fn bar_total(lines: Seq<LineView>) -> nat
    decreases lines.len(),
{
    if lines.len() == 0 {
        0
    } else {
        bar_total(lines.drop_last()) + lines.last().contents.len()
    }
}

/// The lines of the staves before staff `end`, or the error of the first
/// staff among them that cannot be read.
///
/// A staff without rows is passed over. Any other staff needs a clef, else it
/// is refused with its index among the staves. Its measures are numbered on
/// from the last measure of the lines before it, the first of the score being
/// measure 1.
pub open spec fn score_before(staves: Seq<Seq<Seq<char>>>, end: int) -> Result<
    Seq<LineView>,
    ParsingError,
>
    decreases end,
{
    if end <= 0 {
        Ok(Seq::empty())
    } else {
        match score_before(staves, end - 1) {
            Err(error) => Err(error),
            Ok(lines) => {
                let rows = staves[end - 1];
                if rows.len() == 0 {
                    Ok(lines)
                } else {
                    match clef_of(rows) {
                        None => Err(ParsingError::InvalidStaffDeclaration((end - 1) as usize)),
                        Some(kind) => {
                            let center = center_line_of(rows, kind);
                            match measures_reading(
                                rows,
                                (1 + bar_total(lines)) as usize,
                                center,
                                kind,
                            ) {
                                Err(error) => Err(error),
                                Ok(bars) => Ok(
                                    lines.push(
                                        LineView {
                                            clef_type: kind,
                                            line_height: rows.len(),
                                            center_line: center as nat,
                                            contents: bars,
                                        },
                                    ),
                                ),
                            }
                        },
                    }
                }
            },
        }
    }
}

/// The lines of a score, or the error of its first staff that cannot be read.
pub open spec fn score_reading(staves: Seq<Seq<Seq<char>>>) -> Result<Seq<LineView>, ParsingError> {
    score_before(staves, staves.len() as int)
}

/// Whether a parse that ended so is the reading of the staves: it holds the
/// lines of the score, each field of each line, or the error of the score.
pub open spec fn reads_as(
    verdict: Result<Vec<Line>, ParsingError>,
    staves: Seq<Seq<Seq<char>>>,
) -> bool {
    match verdict {
        Ok(read) => score_reading(staves) == Ok::<Seq<LineView>, ParsingError>(line_views(read@)),
        Err(error) => score_reading(staves) == Err::<Seq<LineView>, ParsingError>(error),
    }
}

/// Two readings of the same staves are the same: the same lines, field for
/// field, or the same error.
pub proof fn lemma_one_reading(
    staves: Seq<Seq<Seq<char>>>,
    once: Result<Vec<Line>, ParsingError>,
    again: Result<Vec<Line>, ParsingError>,
)
    requires
        reads_as(once, staves),
        reads_as(again, staves),
    ensures
        match (once, again) {
            (Ok(one), Ok(other)) => line_views(one@) == line_views(other@),
            (Err(one), Err(other)) => one == other,
            _ => false,
        },
{
}

/// The measures of the first staves are among the measures of more staves.
pub proof fn lemma_measures_before_grows(staves: Seq<Seq<Seq<char>>>, fewer: int, more: int)
    requires
        fewer <= more,
    ensures
        measures_before(staves, fewer) <= measures_before(staves, more),
    decreases more - fewer,
{
    if fewer < more {
        lemma_measures_before_grows(staves, fewer, more - 1);
    }
}

/// Once a staff is refused, reading further staves leaves the error as it is.
pub proof fn lemma_error_ends_score(staves: Seq<Seq<Seq<char>>>, failed: int, end: int)
    requires
        0 <= failed <= end,
        score_before(staves, failed) is Err,
    ensures
        score_before(staves, end) == score_before(staves, failed),
    decreases end - failed,
{
    if failed < end {
        lemma_error_ends_score(staves, failed, end - 1);
    }
}

/// Whether the bars of the lines are numbered through from 1: bar `k` of line
/// `i` bears the number of bars in the lines before line `i`, plus `k + 1`.
pub open spec fn numbered_through(lines: Seq<LineView>) -> bool {
    forall|i: int, k: int|
        0 <= i < lines.len() && 0 <= k < lines[i].contents.len() ==> (
        #[trigger] lines[i].contents[k]).measure_number == bar_total(lines.take(i)) + k + 1
}

/// More lines have no fewer bars between them.
pub proof fn lemma_bar_total_grows(lines: Seq<LineView>, fewer: int, more: int)
    requires
        0 <= fewer <= more <= lines.len(),
    ensures
        bar_total(lines.take(fewer)) <= bar_total(lines.take(more)),
        fewer < more ==> bar_total(lines.take(fewer)) + lines[fewer].contents.len() <= bar_total(
            lines.take(more),
        ),
    decreases more - fewer,
{
    if fewer < more {
        lemma_bar_total_grows(lines, fewer, more - 1);
        assert(lines.take(more).drop_last() =~= lines.take(more - 1));
    }
}

/// Where the bars are numbered through, the numbers grow from each bar to the
/// next, within a line and from line to line.
pub proof fn lemma_numbers_increase(lines: Seq<LineView>, i: int, k: int, j: int, m: int)
    requires
        numbered_through(lines),
        0 <= i <= j < lines.len(),
        0 <= k < lines[i].contents.len(),
        0 <= m < lines[j].contents.len(),
        i < j || k < m,
    ensures
        lines[i].contents[k].measure_number < lines[j].contents[m].measure_number,
{
    lemma_bar_total_grows(lines, i, j);
}

/// The lines read from the staves before staff `end` are numbered through
/// from 1, each bar has as many notes as lengths, and there are no more bars
/// than those staves have measures.
pub proof fn lemma_score_before_numbered(staves: Seq<Seq<Seq<char>>>, end: int)
    requires
        0 <= end <= staves.len(),
        numbers_fit(staves),
    ensures
        score_before(staves, end) matches Ok(lines) ==> {
            &&& numbered_through(lines)
            &&& bar_total(lines) <= measures_before(staves, end)
            &&& forall|i: int, k: int|
                0 <= i < lines.len() && 0 <= k < lines[i].contents.len() ==> (
                #[trigger] lines[i].contents[k]).wf()
        },
    decreases end,
{
    if end > 0 {
        lemma_score_before_numbered(staves, end - 1);
        lemma_measures_before_grows(staves, end, staves.len() as int);
        if let Ok(before) = score_before(staves, end - 1) {
            if let Ok(lines) = score_before(staves, end) {
                let rows = staves[end - 1];
                if rows.len() > 0 {
                    let kind = clef_of(rows)->0;
                    let center = center_line_of(rows, kind);
                    let first = (1 + bar_total(before)) as usize;
                    lemma_measures_numbered(rows, first, center, kind);
                    assert(lines.take(before.len() as int) =~= before);
                    assert forall|i: int, k: int|
                        0 <= i < lines.len() && 0 <= k < lines[i].contents.len() implies (
                    #[trigger] lines[i].contents[k]).measure_number == bar_total(lines.take(i))
                        + k + 1 && lines[i].contents[k].wf() by {
                        if i < before.len() {
                            assert(lines.take(i) =~= before.take(i));
                        }
                    }
                }
            }
        }
    }
}

/// A score that is read has its bars numbered through from 1, across its
/// lines, and each of its bars has as many notes as lengths.
pub proof fn lemma_score_numbered(staves: Seq<Seq<Seq<char>>>)
    requires
        numbers_fit(staves),
    ensures
        score_reading(staves) matches Ok(lines) ==> {
            &&& numbered_through(lines)
            &&& forall|i: int, k: int|
                0 <= i < lines.len() && 0 <= k < lines[i].contents.len() ==> (
                #[trigger] lines[i].contents[k]).wf()
        },
{
    lemma_score_before_numbered(staves, staves.len() as int);
}

/// Tells whether a machine word holds the number of each measure of the
/// staves, and the number after the last: `get_tokenized_lines` asks for this.
pub fn measure_numbers_fit(lines: &Vec<Vec<String>>) -> (fit: bool)
    ensures
        fit == numbers_fit(lines.deep_view()),
{
    let ghost staves = lines.deep_view();
    let mut sum: usize = 0;
    let mut i: usize = 0;
    while i < lines.len()
        invariant
            i <= lines.len(),
            staves == lines.deep_view(),
            staves.len() == lines.len(),
            sum == measures_before(staves, i as int),
            sum < usize::MAX,
        decreases lines.len() - i,
    {
        let line = &lines[i];
        let count = if line.len() == 0 {
            0
        } else {
            count_separators(line[0].as_str())
        };
        if count >= usize::MAX - sum {
            proof {
                lemma_measures_before_grows(staves, i + 1, staves.len() as int);
            }
            return false;
        }
        sum += count;
        i += 1;
    }
    true
}

/// Reads the staves of a score into lines.
///
/// The staves are read in order. A staff without rows is passed over; its
/// index still counts. The measures are numbered through the score from 1.
/// The first staff that cannot be read ends the parse with its error.
pub fn get_tokenized_lines(lines: Vec<Vec<String>>) -> (verdict: Result<Vec<Line>, ParsingError>)
    requires
        numbers_fit(lines.deep_view()),
    ensures
        reads_as(verdict, lines.deep_view()),
        verdict matches Ok(read) ==> numbered_through(line_views(read@)),
{
    let ghost staves = lines.deep_view();
    proof {
        lemma_score_numbered(staves);
    }
    let mut measure_count: usize = 1;
    let mut result: Vec<Line> = Vec::new();
    let mut line_number: usize = 0;
    assert(line_views(result@) =~= Seq::empty());
    while line_number < lines.len()
        invariant
            line_number <= lines.len(),
            staves == lines.deep_view(),
            staves.len() == lines.len(),
            numbers_fit(staves),
            measure_count == 1 + bar_total(line_views(result@)),
            measure_count <= 1 + measures_before(staves, line_number as int),
            score_before(staves, line_number as int) == Ok::<Seq<LineView>, ParsingError>(
                line_views(result@),
            ),
        decreases lines.len() - line_number,
    {
        let line = &lines[line_number];
        let ghost before = line_views(result@);
        proof {
            lemma_measures_before_grows(staves, line_number + 1, staves.len() as int);
        }
        if line.len() != 0 {
            let found_clef = match get_clef_type(line, line_number) {
                Ok(staff) => staff,
                Err(error) => {
                    proof {
                        lemma_error_ends_score(staves, line_number + 1, staves.len() as int);
                    }
                    return Err(error);
                },
            };
            let center_index = get_center_line(line, &found_clef);
            let measures = match get_measures(line, measure_count, center_index, &found_clef) {
                Ok(bars) => bars,
                Err(error) => {
                    proof {
                        lemma_error_ends_score(staves, line_number + 1, staves.len() as int);
                    }
                    return Err(error);
                },
            };
            measure_count += measures.len();
            let staff = Line {
                clef_type: found_clef,
                line_height: line.len(),
                center_line: center_index,
                contents: measures,
            };
            result.push(staff);
            assert(line_views(result@) =~= before.push(staff@));
            assert(line_views(result@).drop_last() =~= before);
        }
        line_number += 1;
    }
    Ok(result)
}

/// The separators of all rows, counted together.
pub open spec fn separator_sum(rows: Seq<Seq<char>>) -> nat
    decreases rows.len(),
{
    if rows.len() == 0 {
        0
    } else {
        separator_sum(rows.drop_last()) + separator_count(rows.last())
    }
}

/// The separators of all rows of all groups, counted together.
pub open spec fn group_separator_sum(groups: Seq<Seq<Seq<char>>>) -> nat
    decreases groups.len(),
{
    if groups.len() == 0 {
        0
    } else {
        group_separator_sum(groups.drop_last()) + separator_sum(groups.last())
    }
}

/// A staff has no more measures than its rows have separators.
pub proof fn lemma_measure_total_bound(rows: Seq<Seq<char>>)
    ensures
        measure_total(rows) <= separator_sum(rows),
    decreases rows.len(),
{
    if rows.len() > 1 {
        lemma_measure_total_bound(rows.drop_last());
    }
}

/// Parting rows into groups adds no separator.
pub proof fn lemma_groups_keep_separators(rows: Seq<Seq<char>>)
    ensures
        group_separator_sum(groups_of(rows)) <= separator_sum(rows),
    decreases rows.len(),
{
    let groups = groups_of(rows);
    if rows.len() == 0 {
        assert(group_separator_sum(groups.drop_last()) == 0);
    } else {
        let before = groups_of(rows.drop_last());
        lemma_groups_keep_separators(rows.drop_last());
        lemma_stave_count(rows.drop_last());
        if is_delimiter(rows.last()) {
            assert(groups.drop_last() =~= before);
        } else {
            assert(groups.drop_last() =~= before.drop_last());
            assert(groups.last().drop_last() =~= before.last());
        }
    }
}

/// More groups have no fewer separators between them.
pub proof fn lemma_group_separator_sum_grows(
    groups: Seq<Seq<Seq<char>>>,
    fewer: int,
    more: int,
)
    requires
        0 <= fewer <= more <= groups.len(),
    ensures
        group_separator_sum(groups.take(fewer)) <= group_separator_sum(groups.take(more)),
    decreases more - fewer,
{
    if fewer < more {
        lemma_group_separator_sum_grows(groups, fewer, more - 1);
        assert(groups.take(more).drop_last() =~= groups.take(more - 1));
    }
}

/// Staves that are taken from the groups after the first have, before staff
/// `end`, no more measures than the groups up to that staff have separators.
pub proof fn lemma_measures_in_groups(
    groups: Seq<Seq<Seq<char>>>,
    staves: Seq<Seq<Seq<char>>>,
    end: int,
)
    requires
        0 <= end <= staves.len() < groups.len(),
        forall|j: int| 0 <= j < staves.len() ==> #[trigger] staves[j] == groups[j + 1],
    ensures
        measures_before(staves, end) <= group_separator_sum(groups.take(end + 1)),
    decreases end,
{
    if end > 0 {
        lemma_measures_in_groups(groups, staves, end - 1);
        lemma_measure_total_bound(groups[end]);
        assert(staves[end - 1] == groups[end]);
        assert(groups.take(end + 1).drop_last() =~= groups.take(end));
    }
}

/// Where a machine word holds the number of separators of a score and one
/// more, it holds the number of each of its measures.
pub proof fn lemma_separators_bound_numbers(rows: Seq<Seq<char>>)
    requires
        1 + separator_sum(rows) <= usize::MAX,
    ensures
        numbers_fit(staves_of(rows)),
{
    let groups = groups_of(rows);
    let staves = staves_of(rows);
    lemma_stave_count(rows);
    lemma_groups_keep_separators(rows);
    lemma_measures_in_groups(groups, staves, staves.len() as int);
    lemma_group_separator_sum_grows(groups, staves.len() as int + 1, groups.len() as int);
    assert(groups.take(groups.len() as int) =~= groups);
}

/// Tells whether a machine word holds the number of separators of a score
/// and one more: `parse_file` asks for this.
pub fn separators_fit(code_lines: &Vec<String>) -> (fit: bool)
    ensures
        fit == (1 + separator_sum(code_lines.deep_view()) <= usize::MAX),
{
    let ghost rows = code_lines.deep_view();
    let mut sum: usize = 0;
    let mut i: usize = 0;
    while i < code_lines.len()
        invariant
            i <= code_lines.len(),
            rows == code_lines.deep_view(),
            rows.len() == code_lines.len(),
            sum == separator_sum(rows.take(i as int)),
            sum < usize::MAX,
        decreases code_lines.len() - i,
    {
        let count = count_separators(code_lines[i].as_str());
        assert(rows.take(i + 1).drop_last() =~= rows.take(i as int));
        if count >= usize::MAX - sum {
            proof {
                lemma_separator_sum_grows(rows, i + 1, rows.len() as int);
                assert(rows.take(rows.len() as int) =~= rows);
            }
            return false;
        }
        sum += count;
        i += 1;
    }
    assert(rows.take(code_lines.len() as int) =~= rows);
    true
}

/// The separators of the first rows are among the separators of more rows.
pub proof fn lemma_separator_sum_grows(rows: Seq<Seq<char>>, fewer: int, more: int)
    requires
        0 <= fewer <= more <= rows.len(),
    ensures
        separator_sum(rows.take(fewer)) <= separator_sum(rows.take(more)),
    decreases more - fewer,
{
    if fewer < more {
        lemma_separator_sum_grows(rows, fewer, more - 1);
        assert(rows.take(more).drop_last() =~= rows.take(more - 1));
    }
}

/// Reads the rows of a score file into lines: parts them into staves and
/// reads each staff.
pub fn parse_file(code_lines: Vec<String>) -> (verdict: Result<Vec<Line>, ParsingError>)
    requires
        1 + separator_sum(code_lines.deep_view()) <= usize::MAX,
    ensures
        reads_as(verdict, staves_of(code_lines.deep_view())),
        verdict matches Ok(read) ==> numbered_through(line_views(read@)),
{
    proof {
        lemma_separators_bound_numbers(code_lines.deep_view());
    }
    let raw_lines = get_raw_lines(code_lines);
    get_tokenized_lines(raw_lines)
}

} // verus!
