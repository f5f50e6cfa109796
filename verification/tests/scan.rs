use tablature::data_types::{Accidental, Beats, Note, ParsingError, StaffType};
use tablature::measures::{count_separators, get_measures, split_row};
use tablature::scanner::{find_tail, glyph, read_column, row_offset, tokenize_bars, ColumnFind};

fn rows(text: &[&str]) -> Vec<String> {
    text.iter().map(|row| row.to_string()).collect()
}

fn natural(note_name: &'static str, octave: usize) -> Note {
    Note { accidental: Accidental::Natural, note_name, octave, rest: false }
}

#[test]
fn glyphs_are_looked_up_within_the_row() {
    assert_eq!(glyph("a@|", 0), Some('a'));
    assert_eq!(glyph("a@|", 2), Some('|'));
    assert_eq!(glyph("a@|", 3), None);
    assert_eq!(glyph("", 0), None);
    assert_eq!(glyph("a", usize::MAX), None);
    assert_eq!(glyph("\u{e9}@", 1), Some('@'));
}

#[test]
fn the_stem_beside_a_notehead() {
    assert_eq!(find_tail(&" @| ".to_string(), 1), 1);
    assert_eq!(find_tail(&" |@ ".to_string(), 2), -1);
    assert_eq!(find_tail(&" @  ".to_string(), 1), 0);
    assert_eq!(find_tail(&"@".to_string(), 0), 0);
    assert_eq!(find_tail(&"@|".to_string(), 0), 1);
    assert_eq!(find_tail(&"|@".to_string(), 1), -1);
    assert_eq!(find_tail(&"|".to_string(), 1), -1);
    assert_eq!(find_tail(&"| @".to_string(), 2), 0);
    assert_eq!(find_tail(&"".to_string(), 0), 0);
    assert_eq!(find_tail(&"@|".to_string(), 7), 0);
    assert_eq!(find_tail(&"@|".to_string(), usize::MAX), 0);
}

#[test]
fn of_two_stems_the_right_one_is_taken() {
    assert_eq!(find_tail(&"|@|".to_string(), 1), 1);
    assert_eq!(find_tail(&"|O|".to_string(), 1), 1);
    let measure = rows(&["   ", "|@|", "   "]);
    let bar = tokenize_bars(&measure, 1, 1, &StaffType::Treble).unwrap();
    assert_eq!(bar.pitches, vec![natural("B", 5)]);
}

#[test]
fn what_a_column_holds() {
    let measure = rows(&["  @ ", " @| ", "O|@ ", "   |"]);
    assert_eq!(read_column(&measure, 0), ColumnFind::Head(2));
    assert_eq!(read_column(&measure, 1), ColumnFind::Head(1));
    assert_eq!(read_column(&measure, 2), ColumnFind::Head(2));
    assert_eq!(read_column(&measure, 3), ColumnFind::Blank);
    assert_eq!(read_column(&measure, 4), ColumnFind::Blank);
    let loose = rows(&["@ ", "  ", "O "]);
    assert_eq!(read_column(&loose, 0), ColumnFind::Loose);
    assert_eq!(read_column(&loose, 1), ColumnFind::Blank);
    assert_eq!(read_column(&rows(&[]), 0), ColumnFind::Blank);
}

#[test]
fn the_offset_of_a_row() {
    assert_eq!(row_offset(5, 5), Some(0));
    assert_eq!(row_offset(5, 11), Some(-6));
    assert_eq!(row_offset(6, 0), Some(6));
    assert_eq!(row_offset(usize::MAX, 0), None);
    assert_eq!(row_offset(0, usize::MAX), None);
    assert_eq!(row_offset(isize::MAX as usize, 0), Some(isize::MAX));
    assert_eq!(row_offset(0, isize::MAX as usize), Some(-isize::MAX));
    assert_eq!(row_offset(0, isize::MAX as usize + 1), None);
}

#[test]
fn a_notehead_sounds_at_its_own_row() {
    let measure = rows(&["@|      ", "  @|    ", "    |@  ", "      O|"]);
    let bar = tokenize_bars(&measure, 3, 1, &StaffType::Treble).unwrap();
    assert_eq!(
        bar.pitches,
        vec![natural("A", 5), natural("B", 5), natural("C", 5), natural("D", 5)]
    );
    assert_eq!(bar.durations, vec![Beats::Quarter; 4]);
    assert_eq!(bar.measure_number, 3);
    let bar = tokenize_bars(&measure, 3, 1, &StaffType::Bass).unwrap();
    assert_eq!(
        bar.pitches,
        vec![natural("C", 3), natural("D", 3), natural("E", 3), natural("F", 3)]
    );
}

#[test]
fn rows_above_the_center_row_sound_lower() {
    let measure = rows(&["@|", "  ", "  "]);
    let bar = tokenize_bars(&measure, 1, 2, &StaffType::Treble).unwrap();
    assert_eq!(bar.pitches, vec![natural("G", 4)]);
    let measure = rows(&["  ", "  ", "@|"]);
    let bar = tokenize_bars(&measure, 1, 0, &StaffType::Treble).unwrap();
    assert_eq!(bar.pitches, vec![natural("D", 5)]);
}

#[test]
fn stems_may_run_on_above_and_below() {
    let measure = rows(&[" | ", " | ", "@| ", "   ", " |@", " | "]);
    let bar = tokenize_bars(&measure, 1, 3, &StaffType::Treble).unwrap();
    assert_eq!(bar.pitches, vec![natural("A", 5), natural("C", 5)]);
}

#[test]
fn the_topmost_stemmed_notehead_of_a_column_is_its_note() {
    let measure = rows(&["@ ", "@|", "@|"]);
    let bar = tokenize_bars(&measure, 1, 1, &StaffType::Treble).unwrap();
    assert_eq!(bar.pitches, vec![natural("B", 5)]);
    assert_eq!(bar.durations, vec![Beats::Quarter]);
}

#[test]
fn a_measure_without_noteheads_is_an_empty_bar() {
    for measure in [rows(&[]), rows(&[""]), rows(&["", "", ""]), rows(&["   ", "|| ", "abc"])] {
        let bar = tokenize_bars(&measure, 8, 0, &StaffType::Bass).unwrap();
        assert!(bar.pitches.is_empty());
        assert!(bar.durations.is_empty());
        assert_eq!(bar.measure_number, 8);
    }
}

#[test]
fn a_notehead_without_a_stem_is_refused() {
    let measure = rows(&["@|  ", "  @ ", "   |"]);
    assert!(matches!(
        tokenize_bars(&measure, 4, 1, &StaffType::Treble),
        Err(ParsingError::InvalidNoteDeclaration(4, 2))
    ));
    let measure = rows(&["O"]);
    assert!(matches!(
        tokenize_bars(&measure, 4, 0, &StaffType::Treble),
        Err(ParsingError::InvalidNoteDeclaration(4, 0))
    ));
}

#[test]
fn the_first_column_without_a_note_is_reported() {
    let measure = rows(&["@| @  @ "]);
    assert!(matches!(
        tokenize_bars(&measure, 2, 0, &StaffType::Treble),
        Err(ParsingError::InvalidNoteDeclaration(2, 3))
    ));
}

#[test]
fn a_notehead_below_the_lowest_octave_is_refused() {
    let measure = rows(&["@|"]);
    assert_eq!(
        tokenize_bars(&measure, 1, 36, &StaffType::Treble).unwrap().pitches,
        vec![natural("A", 0)]
    );
    assert!(matches!(
        tokenize_bars(&measure, 1, 37, &StaffType::Treble),
        Err(ParsingError::InvalidNoteDeclaration(1, 0))
    ));
    assert!(matches!(
        tokenize_bars(&measure, 1, 25, &StaffType::Bass),
        Err(ParsingError::InvalidNoteDeclaration(1, 0))
    ));
    assert!(matches!(
        tokenize_bars(&measure, 1, usize::MAX, &StaffType::Bass),
        Err(ParsingError::InvalidNoteDeclaration(1, 0))
    ));
}

#[test]
fn rows_of_unequal_width_are_refused() {
    let measure = rows(&["@|  ", "    ", "   "]);
    assert!(matches!(
        tokenize_bars(&measure, 6, 0, &StaffType::Treble),
        Err(ParsingError::InvalidMeasureLenghts(6))
    ));
    let measure = rows(&["@ ", "   "]);
    assert!(matches!(
        tokenize_bars(&measure, 6, 0, &StaffType::Treble),
        Err(ParsingError::InvalidMeasureLenghts(6))
    ));
    let measure = rows(&["", "  ", "", "   "]);
    assert!(matches!(
        tokenize_bars(&measure, 6, 0, &StaffType::Treble),
        Err(ParsingError::InvalidMeasureLenghts(6))
    ));
    let measure = rows(&["@|", "", "@"]);
    assert!(matches!(
        tokenize_bars(&measure, 6, 0, &StaffType::Treble),
        Err(ParsingError::InvalidMeasureLenghts(6))
    ));
}

#[test]
fn empty_rows_do_not_make_a_measure_ragged() {
    let measure = rows(&["    ", "", " @| ", ""]);
    let bar = tokenize_bars(&measure, 6, 2, &StaffType::Treble).unwrap();
    assert_eq!(bar.pitches, vec![natural("B", 5)]);
}

#[test]
fn an_empty_first_row_does_not_make_a_measure_ragged() {
    let measure = rows(&["", "  ", "  "]);
    let bar = tokenize_bars(&measure, 6, 0, &StaffType::Treble).unwrap();
    assert!(bar.pitches.is_empty());
    assert!(bar.durations.is_empty());
    assert_eq!(bar.measure_number, 6);
}

#[test]
fn the_width_of_a_measure_is_that_of_its_first_row_with_glyphs() {
    let measure = rows(&["", "", "  @|", "", "@|  "]);
    let bar = tokenize_bars(&measure, 6, 3, &StaffType::Treble).unwrap();
    assert_eq!(bar.pitches, vec![natural("C", 5), natural("A", 5)]);
    assert_eq!(bar.durations, vec![Beats::Quarter; 2]);
    let measure = rows(&["", "   @"]);
    assert!(matches!(
        tokenize_bars(&measure, 6, 0, &StaffType::Treble),
        Err(ParsingError::InvalidNoteDeclaration(6, 3))
    ));
}

#[test]
fn width_is_counted_in_glyphs() {
    let measure = rows(&["\u{e9}\u{e9}", "@|"]);
    let bar = tokenize_bars(&measure, 1, 1, &StaffType::Treble).unwrap();
    assert_eq!(bar.pitches, vec![natural("B", 5)]);
}

#[test]
fn separators_are_counted() {
    assert_eq!(count_separators(""), 0);
    assert_eq!(count_separators("abc"), 0);
    assert_eq!(count_separators("l"), 1);
    assert_eq!(count_separators("   l  l l"), 3);
    assert_eq!(count_separators("lll"), 3);
    assert_eq!(count_separators("L|1I"), 0);
}

#[test]
fn rows_are_cut_at_the_separators() {
    assert_eq!(split_row(""), vec![""]);
    assert_eq!(split_row("abc"), vec!["abc"]);
    assert_eq!(split_row("l"), vec!["", ""]);
    assert_eq!(split_row("al"), vec!["a", ""]);
    assert_eq!(split_row("la"), vec!["", "a"]);
    assert_eq!(split_row(" / |   l @| l  ll"), vec![" / |   ", " @| ", "  ", "", ""]);
    assert_eq!(split_row("\u{e9}l\u{e9}\u{e9}"), vec!["\u{e9}", "\u{e9}\u{e9}"]);
}

#[test]
fn a_staff_has_a_bar_for_each_separator_of_its_first_row() {
    for count in 0..6 {
        let mut row = "   ".to_string();
        for _ in 0..count {
            row.push_str("l  ");
        }
        let staff = vec![row.clone(), row.clone(), row];
        let bars = get_measures(&staff, 10, 1, &StaffType::Treble).unwrap();
        assert_eq!(bars.len(), count);
        for (index, bar) in bars.iter().enumerate() {
            assert_eq!(bar.measure_number, 10 + index);
            assert!(bar.pitches.is_empty());
            assert!(bar.durations.is_empty());
        }
    }
}

#[test]
fn the_margin_belongs_to_no_measure() {
    let staff = rows(&["@| l   l", "@| l@| l", "@  l   l"]);
    let bars = get_measures(&staff, 1, 1, &StaffType::Treble).unwrap();
    assert_eq!(bars.len(), 2);
    assert_eq!(bars[0].pitches, vec![natural("B", 5)]);
    assert_eq!(bars[0].measure_number, 1);
    assert!(bars[1].pitches.is_empty());
    assert_eq!(bars[1].measure_number, 2);
}

#[test]
fn pieces_beyond_the_last_measure_are_left_out() {
    let staff = rows(&["  l   ", "  l@| l@ l@"]);
    let bars = get_measures(&staff, 1, 1, &StaffType::Treble).unwrap();
    assert_eq!(bars.len(), 1);
    assert_eq!(bars[0].pitches, vec![natural("B", 5)]);
}

#[test]
fn a_row_with_fewer_pieces_is_missing_from_the_later_measures() {
    let staff = rows(&["  l   l   ", "  l   ", "  l   l@| "]);
    let bars = get_measures(&staff, 1, 2, &StaffType::Treble).unwrap();
    assert_eq!(bars.len(), 2);
    assert!(bars[0].pitches.is_empty());
    assert_eq!(bars[1].pitches, vec![natural("A", 5)]);
}

#[test]
fn the_first_measure_that_is_refused_ends_the_staff() {
    let staff = rows(&["  l   l   l  ", "  l@| l@  l "]);
    assert!(matches!(
        get_measures(&staff, 5, 0, &StaffType::Treble),
        Err(ParsingError::InvalidNoteDeclaration(6, 0))
    ));
    let staff = rows(&["  l   l   l  ", "  l@  l@| l "]);
    assert!(matches!(
        get_measures(&staff, 5, 0, &StaffType::Treble),
        Err(ParsingError::InvalidNoteDeclaration(5, 0))
    ));
    let staff = rows(&["  l   l   l  ", "  l@| l@| l "]);
    assert!(matches!(
        get_measures(&staff, 5, 0, &StaffType::Treble),
        Err(ParsingError::InvalidMeasureLenghts(7))
    ));
}

#[test]
fn a_staff_without_rows_has_no_measures() {
    let bars = get_measures(&rows(&[]), 1, 0, &StaffType::Treble).unwrap();
    assert!(bars.is_empty());
}
