//! The score model: lines of bars of notes, and the errors of a parse.

use vstd::prelude::*;
use vstd::std_specs::cmp::PartialEqSpecImpl;
use vstd::string::StrSliceExecFns;

verus! {

/// Why a parse was abandoned, with the place where it happened.
#[derive(Debug)]
pub enum ParsingError {
    /// The staff at this index of the score has no valid clef drawing.
    InvalidStaffDeclaration(usize),
    /// The rows of the measure with this number differ in width.
    InvalidMeasureLenghts(usize),
    /// In the measure with this number, the notehead in this column has no pitch.
    InvalidNoteDeclaration(usize, usize),
    /// The file at this path could not be read.
    FailedFileRead(String),
}

/// The clef of a staff, which fixes the pitch of its center row.
#[derive(Clone, Copy, Debug, PartialEq, Eq, Structural)]
pub enum StaffType {
    Treble,
    Bass,
}

/// The kinds of note length.
#[derive(Clone, Copy, Debug, PartialEq, Eq, Structural)]
pub enum Beats {
    ThirtySecond,
    Sixteenth,
    Eighth,
    Quarter,
    Half,
    Whole,
    DottedThirtySecond,
    DottedSixteenth,
    DottedEighth,
    DottedQuarter,
    DottedHalf,
    DottedWhole,
    EighthTriplet,
    QuarterTriplet,
    HalfTriplet,
}

#[derive(Clone, Copy, Debug, PartialEq, Eq, Structural)]
pub enum Accidental {
    Sharp,
    Flat,
    Natural,
}

/// One staff of the score with its bars.
#[derive(Debug)]
pub struct Line {
    pub clef_type: StaffType,
    /// How many rows of text the staff takes.
    pub line_height: usize,
    /// The index of the row that carries the clef's center pitch.
    pub center_line: usize,
    pub contents: Vec<Bar>,
}

/// One measure: its notes in order, the length of each, and its number in the score.
#[derive(Debug)]
pub struct Bar {
    pub pitches: Vec<Note>,
    pub durations: Vec<Beats>,
    pub measure_number: usize,
}

/// A pitch, or a rest.
#[derive(Clone, Copy, Debug)]
pub struct Note {
    pub accidental: Accidental,
    /// One of the letters `A` to `G`.
    pub note_name: &'static str,
    pub octave: usize,
    pub rest: bool,
}

pub struct TimeSignature {
    pub beats: usize,
    pub beat_size: Beats,
}

/// What a `Note` holds, with its name as text.
pub struct NoteView {
    pub accidental: Accidental,
    pub name: Seq<char>,
    pub octave: nat,
    pub rest: bool,
}

/// What a `Bar` holds.
pub struct BarView {
    pub pitches: Seq<NoteView>,
    pub durations: Seq<Beats>,
    pub measure_number: nat,
}

/// What a `Line` holds.
pub struct LineView {
    pub clef_type: StaffType,
    pub line_height: nat,
    pub center_line: nat,
    pub contents: Seq<BarView>,
}

impl NoteView {
    /// Two rests are the same note; two pitches are the same note when accidental,
    /// name and octave agree.
    pub open spec fn same_note(self, other: NoteView) -> bool {
        if self.rest || other.rest {
            self.rest && other.rest
        } else {
            self.accidental == other.accidental && self.name == other.name && self.octave
                == other.octave
        }
    }
}

impl BarView {
    /// Every note has its length.
    pub open spec fn wf(self) -> bool {
        self.pitches.len() == self.durations.len()
    }

    /// The same notes with the same lengths, whatever the measure numbers.
    pub open spec fn same_music(self, other: BarView) -> bool {
        &&& self.pitches.len() == other.pitches.len()
        &&& forall|i: int|
            0 <= i < self.pitches.len() ==> (#[trigger] self.pitches[i]).same_note(
                other.pitches[i],
            )
        &&& self.durations == other.durations
    }
}

impl LineView {
    /// The same bars in the same order, whatever the clef and the layout.
    pub open spec fn same_music(self, other: LineView) -> bool {
        &&& self.contents.len() == other.contents.len()
        &&& forall|i: int|
            0 <= i < self.contents.len() ==> (#[trigger] self.contents[i]).same_music(
                other.contents[i],
            )
    }
}

/// The notes of a sequence, each by what it holds.
pub open spec fn note_views(notes: Seq<Note>) -> Seq<NoteView> {
    Seq::new(notes.len(), |i: int| notes[i]@)
}

/// The bars of a sequence, each by what it holds.
pub open spec fn bar_views(bars: Seq<Bar>) -> Seq<BarView> {
    Seq::new(bars.len(), |i: int| bars[i]@)
}

/// The lines of a sequence, each by what it holds.
pub open spec fn line_views(lines: Seq<Line>) -> Seq<LineView> {
    Seq::new(lines.len(), |i: int| lines[i]@)
}

impl View for Note {
    type V = NoteView;

    open spec fn view(&self) -> NoteView {
        NoteView {
            accidental: self.accidental,
            name: self.note_name@,
            octave: self.octave as nat,
            rest: self.rest,
        }
    }
}

impl View for Bar {
    type V = BarView;

    open spec fn view(&self) -> BarView {
        BarView {
            pitches: note_views(self.pitches@),
            durations: self.durations@,
            measure_number: self.measure_number as nat,
        }
    }
}

impl View for Line {
    type V = LineView;

    open spec fn view(&self) -> LineView {
        LineView {
            clef_type: self.clef_type,
            line_height: self.line_height as nat,
            center_line: self.center_line as nat,
            contents: bar_views(self.contents@),
        }
    }
}

impl Beats {
    /// How long a note of this kind lasts, in 192nd parts of a whole note. A
    /// dot adds half of the length; three notes of a triplet last as long as
    /// two plain ones.
    pub open spec fn ticks(self) -> nat {
        match self {
            Beats::ThirtySecond => 6,
            Beats::Sixteenth => 12,
            Beats::Eighth => 24,
            Beats::Quarter => 48,
            Beats::Half => 96,
            Beats::Whole => 192,
            Beats::DottedThirtySecond => 9,
            Beats::DottedSixteenth => 18,
            Beats::DottedEighth => 36,
            Beats::DottedQuarter => 72,
            Beats::DottedHalf => 144,
            Beats::DottedWhole => 288,
            Beats::EighthTriplet => 16,
            Beats::QuarterTriplet => 32,
            Beats::HalfTriplet => 64,
        }
    }

    /// Whether a note of this kind can be parted: it is a plain eighth, quarter,
    /// half or whole note.
    pub open spec fn can_be_parted(self) -> bool {
        self == Beats::Eighth || self == Beats::Quarter || self == Beats::Half || self
            == Beats::Whole
    }

    /// Whether one note of this kind parts into `num` notes of the kind
    /// `other`: it can be parted, into two notes or more, which together
    /// last as long as it does. A half note also counts as three eighth
    /// triplets.
    pub open spec fn parts_into(self, other: Beats, num: nat) -> bool {
        ||| self.can_be_parted() && num >= 2 && self.ticks() == num * other.ticks()
        ||| self == Beats::Half && other == Beats::EighthTriplet && num == 3
    }

    /// Tells whether one note of this kind parts into `num` notes of the kind
    /// `other`.
    pub fn equivalent(&self, other: Beats, num: usize) -> (same: bool)
        ensures
            same == self.parts_into(other, num as nat),
    {
        proof {
            lemma_ticks_product(other, num as nat);
        }
        match self {
            Beats::Eighth => match (other, num) {
                (Beats::ThirtySecond, 4) => true,
                (Beats::Sixteenth, 2) => true,
                _ => false,
            },
            Beats::Quarter => match (other, num) {
                (Beats::EighthTriplet, 3) => true,
                (Beats::Eighth, 2) => true,
                (Beats::Sixteenth, 4) => true,
                (Beats::ThirtySecond, 8) => true,
                _ => false,
            },
            Beats::Half => match (other, num) {
                (Beats::EighthTriplet, 3) => true,
                (Beats::EighthTriplet, 6) => true,
                (Beats::QuarterTriplet, 3) => true,
                (Beats::Quarter, 2) => true,
                (Beats::Eighth, 4) => true,
                (Beats::Sixteenth, 8) => true,
                (Beats::ThirtySecond, 16) => true,
                _ => false,
            },
            Beats::Whole => match (other, num) {
                (Beats::EighthTriplet, 12) => true,
                (Beats::QuarterTriplet, 6) => true,
                (Beats::HalfTriplet, 3) => true,
                (Beats::Half, 2) => true,
                (Beats::Quarter, 4) => true,
                (Beats::Eighth, 8) => true,
                (Beats::Sixteenth, 16) => true,
                (Beats::ThirtySecond, 32) => true,
                _ => false,
            },
            _ => false,
        }
    }
}

/// How long `num` notes of the kind `other` last together, written out for
/// each kind.
proof fn lemma_ticks_product(other: Beats, num: nat)
    ensures
        num * other.ticks() == match other {
            Beats::ThirtySecond => num * 6,
            Beats::Sixteenth => num * 12,
            Beats::Eighth => num * 24,
            Beats::Quarter => num * 48,
            Beats::Half => num * 96,
            Beats::Whole => num * 192,
            Beats::DottedThirtySecond => num * 9,
            Beats::DottedSixteenth => num * 18,
            Beats::DottedEighth => num * 36,
            Beats::DottedQuarter => num * 72,
            Beats::DottedHalf => num * 144,
            Beats::DottedWhole => num * 288,
            Beats::EighthTriplet => num * 16,
            Beats::QuarterTriplet => num * 32,
            Beats::HalfTriplet => num * 64,
        },
{
}

/// Whether two texts hold the same characters.
pub fn same_text(a: &str, b: &str) -> (same: bool)
    ensures
        same == (a@ == b@),
{
    let n = a.unicode_len();
    if n != b.unicode_len() {
        return false;
    }
    let mut i: usize = 0;
    while i < n
        invariant
            i <= n,
            n == a@.len(),
            n == b@.len(),
            forall|j: int| 0 <= j < i ==> a@[j] == b@[j],
        decreases n - i,
    {
        if a.get_char(i) != b.get_char(i) {
            return false;
        }
        i += 1;
    }
    assert(a@ =~= b@);
    true
}

impl PartialEq for Note {
    fn eq(&self, other: &Self) -> (same: bool) {
        if self.rest && other.rest {
            return true;
        }
        if self.rest != other.rest {
            return false;
        }
        if self.accidental == other.accidental {
            return same_text(self.note_name, other.note_name) && self.octave == other.octave;
        }
        false
    }
}

impl PartialEqSpecImpl for Note {
    open spec fn obeys_eq_spec() -> bool {
        true
    }

    open spec fn eq_spec(&self, other: &Self) -> bool {
        self@.same_note(other@)
    }
}

impl PartialEq for Bar {
    fn eq(&self, other: &Self) -> (same: bool) {
        let n = self.pitches.len();
        if n != other.pitches.len() {
            return false;
        }
        let mut i: usize = 0;
        while i < n
            invariant
                i <= n,
                n == self.pitches.len(),
                n == other.pitches.len(),
                forall|j: int|
                    0 <= j < i ==> (#[trigger] self.pitches[j])@.same_note(other.pitches[j]@),
            decreases n - i,
        {
            if !(self.pitches[i] == other.pitches[i]) {
                assert(!self@.pitches[i as int].same_note(other@.pitches[i as int]));
                return false;
            }
            i += 1;
        }
        let m = self.durations.len();
        if m != other.durations.len() {
            return false;
        }
        let mut k: usize = 0;
        while k < m
            invariant
                k <= m,
                m == self.durations.len(),
                m == other.durations.len(),
                forall|j: int| 0 <= j < k ==> self.durations[j] == other.durations[j],
            decreases m - k,
        {
            if !(self.durations[k] == other.durations[k]) {
                return false;
            }
            k += 1;
        }
        assert(self.durations@ =~= other.durations@);
        true
    }
}

impl PartialEqSpecImpl for Bar {
    open spec fn obeys_eq_spec() -> bool {
        true
    }

    open spec fn eq_spec(&self, other: &Self) -> bool {
        self@.same_music(other@)
    }
}

impl PartialEq for Line {
    fn eq(&self, other: &Self) -> (same: bool) {
        let n = self.contents.len();
        if n != other.contents.len() {
            return false;
        }
        let mut i: usize = 0;
        while i < n
            invariant
                i <= n,
                n == self.contents.len(),
                n == other.contents.len(),
                forall|j: int|
                    0 <= j < i ==> (#[trigger] self.contents[j])@.same_music(
                        other.contents[j]@,
                    ),
            decreases n - i,
        {
            if !(self.contents[i] == other.contents[i]) {
                assert(!self@.contents[i as int].same_music(other@.contents[i as int]));
                return false;
            }
            i += 1;
        }
        true
    }
}

impl PartialEqSpecImpl for Line {
    open spec fn obeys_eq_spec() -> bool {
        true
    }

    open spec fn eq_spec(&self, other: &Self) -> bool {
        self@.same_music(other@)
    }
}

} // verus!
