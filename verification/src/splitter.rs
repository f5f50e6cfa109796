//! The line splitter: parts the rows of a score into its staves.
//!
//! A staff stands between two delimiter rows. What stands before the first
//! delimiter row of a score, or after its last, belongs to no staff.

use crate::glyphs::{fits, row_fits, DELIMITER_ROW};
use vstd::prelude::*;

verus! {

/// Whether a row is a delimiter row.
pub open spec fn is_delimiter(row: Seq<char>) -> bool {
    fits(DELIMITER_ROW@, row)
}

/// The groups into which the delimiter rows part the rows, in order. They hold
/// no delimiter row. Rows with `n` delimiter rows among them make `n + 1`
/// groups, some of them empty where delimiter rows touch each other or an end
/// of the rows.
pub open spec fn groups_of(rows: Seq<Seq<char>>) -> Seq<Seq<Seq<char>>>
    decreases rows.len(),
{
    if rows.len() == 0 {
        seq![Seq::empty()]
    } else {
        let before = groups_of(rows.drop_last());
        if is_delimiter(rows.last()) {
            before.push(Seq::empty())
        } else {
            before.update(before.len() - 1, before.last().push(rows.last()))
        }
    }
}

/// The staves of a score: its groups of rows but the first and the last, so
/// the groups that stand between two delimiter rows.
pub open spec fn staves_of(rows: Seq<Seq<char>>) -> Seq<Seq<Seq<char>>> {
    let groups = groups_of(rows);
    if groups.len() >= 2 {
        groups.drop_first().drop_last()
    } else {
        Seq::empty()
    }
}

/// How many staves rows with so many delimiter rows hold: one fewer than
/// delimiter rows, and none where there is no delimiter row.
pub open spec fn stave_count(delimiters: nat) -> nat {
    if delimiters >= 1 {
        (delimiters - 1) as nat
    } else {
        0
    }
}

/// How many delimiter rows there are.
pub open spec fn delimiter_count(rows: Seq<Seq<char>>) -> nat
    decreases rows.len(),
{
    if rows.len() == 0 {
        0
    } else if is_delimiter(rows.last()) {
        delimiter_count(rows.drop_last()) + 1
    } else {
        delimiter_count(rows.drop_last())
    }
}

/// Rows have one group more than delimiter rows, and one staff fewer.
pub proof fn lemma_stave_count(rows: Seq<Seq<char>>)
    ensures
        groups_of(rows).len() == delimiter_count(rows) + 1,
        staves_of(rows).len() == stave_count(delimiter_count(rows)),
    decreases rows.len(),
{
    if rows.len() > 0 {
        lemma_stave_count(rows.drop_last());
    }
}

/// The groups hold the rows that are no delimiter rows, in their order, and
/// nothing else.
pub proof fn lemma_groups_hold_the_rows(rows: Seq<Seq<char>>)
    ensures
        groups_of(rows).len() >= 1,
        groups_of(rows).flatten() == rows.filter(|row: Seq<char>| !is_delimiter(row)),
    decreases rows.len(),
{
    reveal(Seq::filter);
    let groups = groups_of(rows);
    if rows.len() == 0 {
        groups.lemma_flatten_singleton();
    } else {
        let before = groups_of(rows.drop_last());
        lemma_groups_hold_the_rows(rows.drop_last());
        if is_delimiter(rows.last()) {
            before.lemma_flatten_push(Seq::empty());
        } else {
            let open = before.last();
            assert(before =~= before.drop_last().push(open));
            assert(groups =~= before.drop_last().push(open.push(rows.last())));
            before.drop_last().lemma_flatten_push(open);
            before.drop_last().lemma_flatten_push(open.push(rows.last()));
        }
    }
}

/// No group holds a delimiter row.
pub proof fn lemma_groups_hold_no_delimiter(rows: Seq<Seq<char>>)
    ensures
        forall|g: int, r: int|
            0 <= g < groups_of(rows).len() && 0 <= r < groups_of(rows)[g].len() ==> !is_delimiter(
                #[trigger] groups_of(rows)[g][r],
            ),
    decreases rows.len(),
{
    if rows.len() > 0 {
        let groups = groups_of(rows);
        let before = groups_of(rows.drop_last());
        lemma_groups_hold_no_delimiter(rows.drop_last());
        lemma_stave_count(rows.drop_last());
        assert forall|g: int, r: int|
            0 <= g < groups.len() && 0 <= r < groups[g].len() implies !is_delimiter(
            #[trigger] groups[g][r],
        ) by {
            if g < before.len() && r < before[g].len() {
                assert(groups[g][r] == before[g][r]);
            } else {
                assert(groups[g][r] == rows.last());
            }
        }
    }
}

/// The index of the first delimiter row, or the number of rows where there
/// is none.
pub open spec fn first_delimiter(rows: Seq<Seq<char>>) -> int
    decreases rows.len(),
{
    if rows.len() == 0 {
        0
    } else {
        let before = first_delimiter(rows.drop_last());
        if before < rows.len() - 1 {
            before
        } else if is_delimiter(rows.last()) {
            rows.len() - 1
        } else {
            rows.len() as int
        }
    }
}

/// The index of the last delimiter row, or -1 where there is none.
pub open spec fn last_delimiter(rows: Seq<Seq<char>>) -> int
    decreases rows.len(),
{
    if rows.len() == 0 {
        -1
    } else if is_delimiter(rows.last()) {
        rows.len() - 1
    } else {
        last_delimiter(rows.drop_last())
    }
}

/// The rows of the staves: those from the first delimiter row to the last
/// that are no delimiter rows, in their order.
pub open spec fn staff_rows(rows: Seq<Seq<char>>) -> Seq<Seq<char>> {
    let first = first_delimiter(rows);
    let last = last_delimiter(rows);
    if first <= last {
        rows.subrange(first, last + 1).filter(|row: Seq<char>| !is_delimiter(row))
    } else {
        Seq::empty()
    }
}

/// `first_delimiter` and `last_delimiter` name delimiter rows, with none
/// before the one and none after the other.
pub proof fn lemma_delimiter_ends(rows: Seq<Seq<char>>)
    ensures
        0 <= first_delimiter(rows) <= rows.len(),
        -1 <= last_delimiter(rows) < rows.len(),
        forall|j: int| 0 <= j < first_delimiter(rows) ==> !is_delimiter(#[trigger] rows[j]),
        forall|j: int| last_delimiter(rows) < j < rows.len() ==> !is_delimiter(#[trigger] rows[j]),
        first_delimiter(rows) < rows.len() ==> is_delimiter(rows[first_delimiter(rows)]),
        last_delimiter(rows) >= 0 ==> is_delimiter(rows[last_delimiter(rows)]),
        delimiter_count(rows) == 0 <==> first_delimiter(rows) == rows.len(),
        delimiter_count(rows) == 0 <==> last_delimiter(rows) == -1,
        delimiter_count(rows) > 0 ==> first_delimiter(rows) <= last_delimiter(rows),
    decreases rows.len(),
{
    if rows.len() > 0 {
        let shorter = rows.drop_last();
        lemma_delimiter_ends(shorter);
        assert forall|j: int| 0 <= j < first_delimiter(rows) implies !is_delimiter(
            #[trigger] rows[j],
        ) by {
            if j < shorter.len() {
                assert(shorter[j] == rows[j]);
            }
        }
        assert forall|j: int| last_delimiter(rows) < j < rows.len() implies !is_delimiter(
            #[trigger] rows[j],
        ) by {
            if j < shorter.len() {
                assert(shorter[j] == rows[j]);
            }
        }
    }
}

/// The first group holds the rows before the first delimiter row, the last
/// group those after the last.
pub proof fn lemma_outer_groups(rows: Seq<Seq<char>>)
    ensures
        groups_of(rows).first() == rows.take(first_delimiter(rows)),
        groups_of(rows).last() == rows.skip(last_delimiter(rows) + 1),
    decreases rows.len(),
{
    lemma_stave_count(rows);
    lemma_delimiter_ends(rows);
    if rows.len() > 0 {
        let shorter = rows.drop_last();
        lemma_outer_groups(shorter);
        lemma_stave_count(shorter);
        lemma_delimiter_ends(shorter);
    }
    assert(groups_of(rows).first() =~= rows.take(first_delimiter(rows)));
    assert(groups_of(rows).last() =~= rows.skip(last_delimiter(rows) + 1));
}

/// Rows without a delimiter row are all kept by the filter that drops
/// delimiter rows.
pub proof fn lemma_plain_rows_are_kept(rows: Seq<Seq<char>>)
    requires
        forall|j: int| 0 <= j < rows.len() ==> !is_delimiter(#[trigger] rows[j]),
    ensures
        rows.filter(|row: Seq<char>| !is_delimiter(row)) == rows,
    decreases rows.len(),
{
    reveal(Seq::filter);
    if rows.len() > 0 {
        lemma_plain_rows_are_kept(rows.drop_last());
    }
}

/// The staves hold the rows from the first delimiter row to the last that are
/// no delimiter rows, in their order, and nothing else.
pub proof fn lemma_staves_hold_the_rows(rows: Seq<Seq<char>>)
    ensures
        staves_of(rows).flatten() == staff_rows(rows),
{
    let kept = |row: Seq<char>| !is_delimiter(row);
    let groups = groups_of(rows);
    let staves = staves_of(rows);
    let first = first_delimiter(rows);
    let last = last_delimiter(rows);
    lemma_stave_count(rows);
    lemma_delimiter_ends(rows);
    if delimiter_count(rows) > 0 {
        lemma_outer_groups(rows);
        lemma_groups_hold_the_rows(rows);
        let head = rows.take(first);
        let middle = rows.subrange(first, last + 1);
        let tail = rows.skip(last + 1);
        lemma_plain_rows_are_kept(head);
        lemma_plain_rows_are_kept(tail);
        assert(rows =~= head + middle + tail);
        Seq::filter_distributes_over_add(head + middle, tail, kept);
        Seq::filter_distributes_over_add(head, middle, kept);
        assert(rows.filter(kept) == head + middle.filter(kept) + tail);
        assert(groups =~= seq![head] + staves + seq![tail]);
        vstd::seq_lib::lemma_flatten_concat(seq![head] + staves, seq![tail]);
        vstd::seq_lib::lemma_flatten_concat(seq![head], staves);
        seq![head].lemma_flatten_singleton();
        seq![tail].lemma_flatten_singleton();
        assert(groups.flatten() == head + staves.flatten() + tail);
        let inner = staves.flatten();
        let wanted = middle.filter(kept);
        assert(inner.len() == wanted.len()) by {
            assert((head + inner + tail).len() == (head + wanted + tail).len());
        }
        assert forall|i: int| 0 <= i < inner.len() implies inner[i] == wanted[i] by {
            assert((head + inner + tail)[head.len() + i] == inner[i]);
            assert((head + wanted + tail)[head.len() + i] == wanted[i]);
        }
        assert(inner =~= wanted);
    }
}

/// Parts the rows of a score into its staves.
///
/// Each delimiter row ends a group of rows and opens the next. The groups
/// between two delimiter rows are the staves; the rows before the first
/// delimiter row and those after the last are left out.
pub fn get_raw_lines(code_lines: Vec<String>) -> (music_lines: Vec<Vec<String>>)
    ensures
        music_lines.deep_view() == staves_of(code_lines.deep_view()),
        music_lines.len() == stave_count(delimiter_count(code_lines.deep_view())),
        music_lines.deep_view().flatten() == staff_rows(code_lines.deep_view()),
        forall|g: int, r: int|
            0 <= g < music_lines.len() && 0 <= r < music_lines.deep_view()[g].len()
                ==> !is_delimiter(#[trigger] music_lines.deep_view()[g][r]),
{
    let ghost rows = code_lines.deep_view();
    proof {
        lemma_stave_count(rows);
        lemma_staves_hold_the_rows(rows);
        lemma_groups_hold_no_delimiter(rows);
        assert forall|g: int, r: int|
            0 <= g < staves_of(rows).len() && 0 <= r < staves_of(rows)[g].len()
            implies !is_delimiter(#[trigger] staves_of(rows)[g][r]) by {
            assert(staves_of(rows)[g][r] == groups_of(rows)[g + 1][r]);
        }
    }
    let mut music_lines: Vec<Vec<String>> = Vec::new();
    let mut line_builder: Vec<String> = Vec::new();
    let mut i: usize = 0;
    assert(music_lines.deep_view().push(line_builder.deep_view()) =~~= groups_of(rows.take(0)));
    while i < code_lines.len()
        invariant
            i <= code_lines.len(),
            rows == code_lines.deep_view(),
            rows.len() == code_lines.len(),
            music_lines.deep_view().push(line_builder.deep_view()) == groups_of(
                rows.take(i as int),
            ),
        decreases code_lines.len() - i,
    {
        let ghost open = line_builder.deep_view();
        let row = &code_lines[i];
        assert(rows.take(i + 1).drop_last() =~= rows.take(i as int));
        if row_fits(DELIMITER_ROW, row.as_str()) {
            music_lines.push(line_builder);
            line_builder = Vec::new();
            assert(line_builder.deep_view() =~= Seq::empty());
        } else {
            line_builder.push(row.clone());
            assert(line_builder.deep_view() =~= open.push(rows[i as int]));
        }
        i += 1;
    }
    assert(rows.take(code_lines.len() as int) =~= rows);
    let ghost closed = music_lines.deep_view();
    assert(closed =~= groups_of(rows).drop_last());
    if music_lines.len() > 0 {
        music_lines.remove(0);
        assert(music_lines.deep_view() =~= closed.drop_first());
    }
    assert(music_lines.deep_view() =~= staves_of(rows));
    music_lines
}

} // verus!
