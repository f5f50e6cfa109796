//! Reads an ASCII-art staff notation ("tablature" text) into staves, measures
//! and notes with resolved pitch.
//!
//! A score is a run of staves between delimiter rows. Each staff opens with
//! the drawing of its clef; bar separators cut its rows into measures; in a
//! measure, each notehead with a stem is a note, whose pitch follows from the
//! distance of its row to the center row of the staff.
//!
//! The parse goes through these steps, one module each: `splitter` parts the
//! rows into staves, `clef` finds the clef and the center row of a staff,
//! `measures` cuts a staff into measures, `scanner` reads the notes of a
//! measure, `pitch` names a note from its row. `parser` runs them for a whole
//! score. `glyphs` holds the masks that rows are held against, `data_types`
//! the score that comes out.

pub mod clef;
pub mod data_types;
pub mod glyphs;
pub mod measures;
pub mod parser;
pub mod pitch;
pub mod scanner;
pub mod splitter;
