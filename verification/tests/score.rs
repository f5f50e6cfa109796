use tablature::data_types::{Accidental, Bar, Beats, Line, Note, ParsingError, StaffType};
use tablature::parser::{get_tokenized_lines, measure_numbers_fit, parse_file, separators_fit};
use tablature::splitter::get_raw_lines;

fn rows(text: &[&str]) -> Vec<String> {
    text.iter().map(|row| row.to_string()).collect()
}

fn natural(note_name: &'static str, octave: usize) -> Note {
    Note { accidental: Accidental::Natural, note_name, octave, rest: false }
}

/// A C major scale up and down in quarter notes under a treble clef, and two
/// measures without notes.
fn cmaj_scale_quarternotes() -> Vec<String> {
    rows(&[
        "=================================================================",
        "       l @|         l            l            l          @|ll",
        "   /\\  l    @|      l            l            l       @|   ll",
        "   | \\ l       @|   l            l            l    @|      ll",
        "   | / l          @|l            l            l @|         ll",
        "   |/  l            l @|         l          @|l            ll",
        "  /|   l            l    @|      l       @|   l            ll",
        " / |   l            l       @|   l    @|      l            ll",
        "|  |\\  l            l          @|l @|         l            ll",
        " \\ | | l            l            l            l            ll",
        "  \\|/  l            l            l            l            ll",
        "/@ |   l            l            l            l            ll",
        "\\_/    l            l            l            l            ll",
        "=================================================================",
    ])
}

/// A bass staff with one measure: the notes of its center row and of the rows
/// next to it.
fn bass_staff() -> Vec<&'static str> {
    vec![
        " __     l        ",
        "        l        ",
        "/  \\    l        ",
        "|   \\ @ l        ",
        "\\@@ |   l        ",
        " @@ / @ l@|      ",
        "   /    l   @|   ",
        "  /     l      @|",
        " /      l        ",
        "/       l        ",
        "        l        ",
    ]
}

/// A treble staff with two measures, a note on its center row in each.
fn treble_staff() -> Vec<&'static str> {
    vec![
        "   /\\  l   l   ",
        "   | \\ l   l   ",
        "   | / l   l   ",
        "   |/  l   l   ",
        "  /|   l   l   ",
        " / |   l@| l |O",
        "|  |\\  l   l   ",
        " \\ | | l   l   ",
        "  \\|/  l   l   ",
        "/@ |   l   l   ",
        "\\_/    l   l   ",
    ]
}

fn score(staves: &[Vec<&'static str>]) -> Vec<String> {
    let mut text = vec!["====".to_string()];
    for staff in staves {
        text.extend(staff.iter().map(|row| row.to_string()));
        text.push("====".to_string());
    }
    text
}

#[test]
fn test_parser_cmaj_scale() {
    let c4 = Note {
        accidental: Accidental::Natural,
        note_name: "C",
        octave: 4,
        rest: false,
    };
    let d4 = Note {
        accidental: Accidental::Natural,
        note_name: "D",
        octave: 4,
        rest: false,
    };
    let e4 = Note {
        accidental: Accidental::Natural,
        note_name: "E",
        octave: 4,
        rest: false,
    };
    let f4 = Note {
        accidental: Accidental::Natural,
        note_name: "F",
        octave: 4,
        rest: false,
    };
    let g4 = Note {
        accidental: Accidental::Natural,
        note_name: "G",
        octave: 4,
        rest: false,
    };
    let a5 = Note {
        accidental: Accidental::Natural,
        note_name: "A",
        octave: 5,
        rest: false,
    };
    let b5 = Note {
        accidental: Accidental::Natural,
        note_name: "B",
        octave: 5,
        rest: false,
    };
    let c5 = Note {
        accidental: Accidental::Natural,
        note_name: "C",
        octave: 5,
        rest: false,
    };

    let contents = cmaj_scale_quarternotes();
    let raw_lines = get_raw_lines(contents);
    let lines = get_tokenized_lines(raw_lines).unwrap();

    let mut expected: Vec<Line> = Vec::new();
    let mut expected_bars: Vec<Bar> = Vec::new();
    expected_bars.push(Bar {
        pitches: vec![c4.clone(), d4.clone(), e4.clone(), f4.clone()],
        durations: vec![Beats::Quarter; 4],
        measure_number: 1,
    });
    expected_bars.push(Bar {
        pitches: vec![g4.clone(), a5.clone(), b5.clone(), c5.clone()],
        durations: vec![Beats::Quarter; 4],
        measure_number: 2,
    });
    expected_bars.push(Bar {
        pitches: vec![c5, b5, a5, g4],
        durations: vec![Beats::Quarter; 4],
        measure_number: 3,
    });
    expected_bars.push(Bar {
        pitches: vec![f4, e4, d4, c4],
        durations: vec![Beats::Quarter; 4],
        measure_number: 4,
    });
    expected_bars.push(Bar {
        pitches: Vec::new(),
        durations: Vec::new(),
        measure_number: 5,
    });
    expected_bars.push(Bar {
        pitches: Vec::new(),
        durations: Vec::new(),
        measure_number: 6,
    });
    let expected_line = Line {
        clef_type: StaffType::Treble,
        line_height: 12,
        center_line: 5,
        contents: expected_bars,
    };

    expected.push(expected_line);

    assert_eq!(expected, lines);
}

#[test]
fn the_scale_is_laid_out_as_drawn() {
    let lines = parse_file(cmaj_scale_quarternotes()).unwrap();
    assert_eq!(lines.len(), 1);
    let line = &lines[0];
    assert_eq!(line.clef_type, StaffType::Treble);
    assert_eq!(line.line_height, 12);
    assert_eq!(line.center_line, 6);
    assert_eq!(line.contents.len(), 6);
    for (index, bar) in line.contents.iter().enumerate() {
        assert_eq!(bar.measure_number, index + 1);
        assert_eq!(bar.pitches.len(), bar.durations.len());
        assert_eq!(bar.pitches.len(), if index < 4 { 4 } else { 0 });
    }
    assert_eq!(
        line.contents[1].pitches,
        vec![natural("G", 4), natural("A", 5), natural("B", 5), natural("C", 5)]
    );
}

#[test]
fn the_same_rows_read_twice_give_the_same_score() {
    let once = parse_file(cmaj_scale_quarternotes()).unwrap();
    let twice = parse_file(cmaj_scale_quarternotes()).unwrap();
    assert_eq!(once, twice);
    for (one, other) in once.iter().zip(twice.iter()) {
        assert_eq!(one.clef_type, other.clef_type);
        assert_eq!(one.line_height, other.line_height);
        assert_eq!(one.center_line, other.center_line);
        for (bar, same) in one.contents.iter().zip(other.contents.iter()) {
            assert_eq!(bar.measure_number, same.measure_number);
        }
    }
}

#[test]
fn delimiter_rows_part_the_staves() {
    let staves = get_raw_lines(rows(&["====", "a", "b", "==", "c", "=", "=", "d", "e", "f", "="]));
    assert_eq!(staves, vec![vec!["a", "b"], vec!["c"], vec![], vec!["d", "e", "f"]]);
    let staves = get_raw_lines(rows(&["==", "a", "b", "==", "c", "=="]));
    assert_eq!(staves, vec![vec!["a", "b"], vec!["c"]]);
}

#[test]
fn a_row_with_more_than_the_sign_is_no_delimiter_row() {
    let staves = get_raw_lines(rows(&["=", "==x", "="]));
    assert_eq!(staves, vec![vec!["==x"]]);
    let staves = get_raw_lines(rows(&["=", " =", "= ", "=", "x=", "="]));
    assert_eq!(staves, vec![vec![" =", "= "], vec!["x="]]);
}

#[test]
fn the_staves_hold_the_rows_between_the_outer_delimiter_rows() {
    let text = rows(&["x", "", "=", "a", "==", "", "b", "= =", "=", "=", "c", "===", "y", " ="]);
    let staves = get_raw_lines(text);
    assert_eq!(staves.len(), 4);
    assert_eq!(staves.concat(), vec!["a", "", "b", "= =", "c"]);
    for staff in &staves {
        for row in staff {
            assert!(row.is_empty() || !row.chars().all(|glyph| glyph == '='));
        }
    }
}

#[test]
fn there_is_one_staff_fewer_than_delimiter_rows() {
    for delimiters in 0usize..6 {
        let mut text = vec!["before".to_string()];
        for index in 0..delimiters {
            text.push("===".to_string());
            text.push(format!("row {}", index));
        }
        let staves = get_raw_lines(text);
        assert_eq!(staves.len(), delimiters.saturating_sub(1));
        for (index, staff) in staves.iter().enumerate() {
            assert_eq!(staff, &vec![format!("row {}", index)]);
        }
    }
}

#[test]
fn what_stands_before_the_first_delimiter_row_is_left_out() {
    let staves = get_raw_lines(rows(&["title", "", "====", "a", "====", "b", "===="]));
    assert_eq!(staves, vec![vec!["a"], vec!["b"]]);
    let staves = get_raw_lines(rows(&["====", "a", "===="]));
    assert_eq!(staves, vec![vec!["a"]]);
}

#[test]
fn what_stands_after_the_last_delimiter_row_is_left_out() {
    let staves = get_raw_lines(rows(&["====", "a", "====", "b"]));
    assert_eq!(staves, vec![vec!["a"]]);
    let staves = get_raw_lines(rows(&["====", "a", "b", "", "c"]));
    assert!(staves.is_empty());
    let staves = get_raw_lines(rows(&["x", "====", "====", "", ""]));
    assert_eq!(staves, vec![Vec::<String>::new()]);
}

#[test]
fn rows_without_a_delimiter_row_hold_no_staff() {
    assert!(get_raw_lines(rows(&[])).is_empty());
    assert!(get_raw_lines(rows(&["a", "b", " =", "=== x"])).is_empty());
    assert!(get_raw_lines(rows(&["="])).is_empty());
    assert!(get_raw_lines(rows(&["a", "=", "b"])).is_empty());
}

#[test]
fn measures_are_numbered_through_the_score() {
    let text = score(&[treble_staff(), bass_staff(), treble_staff()]);
    let lines = parse_file(text).unwrap();
    assert_eq!(lines.len(), 3);
    let numbers: Vec<usize> = lines
        .iter()
        .flat_map(|line| line.contents.iter().map(|bar| bar.measure_number))
        .collect();
    assert_eq!(numbers, vec![1, 2, 3, 4, 5]);
    assert_eq!(lines[0].contents.len(), 2);
    assert_eq!(lines[1].contents.len(), 1);
    assert_eq!(lines[2].contents.len(), 2);
}

#[test]
fn each_staff_has_its_clef_and_center() {
    let text = score(&[treble_staff(), bass_staff()]);
    let lines = parse_file(text).unwrap();
    assert_eq!(lines[0].clef_type, StaffType::Treble);
    assert_eq!(lines[0].center_line, 5);
    assert_eq!(lines[0].line_height, 11);
    assert_eq!(lines[0].contents[0].pitches, vec![natural("B", 5)]);
    assert_eq!(lines[0].contents[1].pitches, vec![natural("B", 5)]);
    assert_eq!(lines[0].contents[1].durations, vec![Beats::Quarter]);
    assert_eq!(lines[1].clef_type, StaffType::Bass);
    assert_eq!(lines[1].center_line, 6);
    assert_eq!(lines[1].line_height, 11);
    assert_eq!(
        lines[1].contents[0].pitches,
        vec![natural("C", 3), natural("D", 3), natural("E", 3)]
    );
}

#[test]
fn staves_without_rows_are_passed_over_but_counted() {
    let mut text = vec!["=".to_string(), "=".to_string(), "=".to_string()];
    text.extend(treble_staff().iter().map(|row| row.to_string()));
    text.push("=".to_string());
    text.push("=".to_string());
    text.push("no clef here".to_string());
    text.push("=".to_string());
    let staves = get_raw_lines(text);
    assert_eq!(staves.len(), 5);
    assert!(matches!(
        get_tokenized_lines(staves),
        Err(ParsingError::InvalidStaffDeclaration(4))
    ));
}

#[test]
fn a_staff_without_a_clef_ends_the_parse() {
    let mut broken = treble_staff();
    broken[3] = "       l   l   ";
    let text = score(&[treble_staff(), broken, treble_staff()]);
    assert!(matches!(parse_file(text), Err(ParsingError::InvalidStaffDeclaration(1))));
}

#[test]
fn a_ragged_measure_ends_the_parse_with_its_number() {
    let mut ragged = treble_staff();
    ragged[7] = " \\ | | l   l  ";
    let text = score(&[treble_staff(), bass_staff(), ragged]);
    assert!(matches!(parse_file(text), Err(ParsingError::InvalidMeasureLenghts(5))));
}

#[test]
fn a_loose_notehead_ends_the_parse_with_its_place() {
    let mut loose = bass_staff();
    loose[8] = " /      l @      ";
    let text = score(&[treble_staff(), loose]);
    assert!(matches!(parse_file(text), Err(ParsingError::InvalidNoteDeclaration(3, 1))));
}

#[test]
fn a_score_without_staves_is_empty() {
    assert!(parse_file(rows(&[])).unwrap().is_empty());
    assert!(parse_file(rows(&["===="])).unwrap().is_empty());
    assert!(parse_file(rows(&["====", "===="])).unwrap().is_empty());
    assert!(get_tokenized_lines(Vec::new()).unwrap().is_empty());
    assert!(get_tokenized_lines(vec![Vec::new(), Vec::new()]).unwrap().is_empty());
}

#[test]
fn a_staff_that_no_delimiter_row_closes_is_not_read() {
    let mut text = vec!["====".to_string()];
    text.extend(treble_staff().iter().map(|row| row.to_string()));
    assert!(parse_file(text.clone()).unwrap().is_empty());
    text.push("====".to_string());
    text.push("no clef here".to_string());
    let lines = parse_file(text).unwrap();
    assert_eq!(lines.len(), 1);
    assert_eq!(lines[0].contents.len(), 2);
}

#[test]
fn scores_of_any_size_we_can_write_fit() {
    assert!(separators_fit(&rows(&[])));
    assert!(separators_fit(&rows(&["lll", "", "l l l"])));
    assert!(separators_fit(&cmaj_scale_quarternotes()));
    assert!(measure_numbers_fit(&Vec::new()));
    assert!(measure_numbers_fit(&vec![rows(&["l l"]), Vec::new(), rows(&["", "lll"])]));
    assert!(measure_numbers_fit(&get_raw_lines(cmaj_scale_quarternotes())));
}
