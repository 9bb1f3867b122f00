//! Pitch classes, scale patterns and chord patterns.
//!
//! Pitch classes are numbered 0..12 starting at C. A scale is a list of
//! semitone offsets from its root; a chord pattern is a list of scale-degree
//! offsets from the degree the chord is built on.

use vstd::prelude::*;

verus! {

/// Number of scale patterns that [`scale`] knows.
pub const SCALE_COUNT: usize = 23;

/// A named scale: its semitone offsets from the root, in ascending order.
pub struct ScalePattern {
    pub name: &'static str,
    pub intervals: &'static [usize],
}

/// Name of the note with pitch class `pc` (sharps for the black keys).
pub open spec fn spec_note_name(pc: int) -> Seq<char> {
    if pc == 0 { "C"@ }
    else if pc == 1 { "C#"@ }
    else if pc == 2 { "D"@ }
    else if pc == 3 { "D#"@ }
    else if pc == 4 { "E"@ }
    else if pc == 5 { "F"@ }
    else if pc == 6 { "F#"@ }
    else if pc == 7 { "G"@ }
    else if pc == 8 { "G#"@ }
    else if pc == 9 { "A"@ }
    else if pc == 10 { "A#"@ }
    else { "B"@ }
}

/// The name of the note with pitch class `pc`.
pub fn note_name(pc: usize) -> (name: &'static str)
    requires
        pc < 12,
    ensures
        name@ == spec_note_name(pc as int),
{
    match pc {
        0 => "C",
        1 => "C#",
        2 => "D",
        3 => "D#",
        4 => "E",
        5 => "F",
        6 => "F#",
        7 => "G",
        8 => "G#",
        9 => "A",
        10 => "A#",
        _ => "B",
    }
}

/// Pitch class at position `i` of the circle of fifths, starting at C.
pub open spec fn spec_circle_of_fifths(i: int) -> int {
    (7 * i) % 12
}

/// The major key at position `i` (0..12) of the circle of fifths.
pub fn circle_of_fifths(i: usize) -> (pc: usize)
    requires
        i < 12,
    ensures
        pc == spec_circle_of_fifths(i as int),
        pc < 12,
{
    (7 * i) % 12
}

/// The relative minor of the major key with pitch class `major`.
pub open spec fn spec_relative_minor(major: int) -> int {
    (major + 9) % 12
}

/// The pitch class of the relative minor of the major key `major`.
pub fn relative_minor(major: usize) -> (minor: usize)
    requires
        major + 9 <= usize::MAX,
    ensures
        minor == spec_relative_minor(major as int),
        minor < 12,
{
    (major + 9) % 12
}

/// Key signature shown beside position `i` of the circle of fifths.
pub open spec fn spec_accidental(i: int) -> Seq<char> {
    if i == 0 { "0"@ }
    else if i == 1 { "1#"@ }
    else if i == 2 { "2#"@ }
    else if i == 3 { "3#"@ }
    else if i == 4 { "4#"@ }
    else if i == 5 { "5#"@ }
    else if i == 6 { "6# / 6b"@ }
    else if i == 7 { "5b"@ }
    else if i == 8 { "4b"@ }
    else if i == 9 { "3b"@ }
    else if i == 10 { "2b"@ }
    else { "1b"@ }
}

/// The key signature of position `i` (0..12) of the circle of fifths.
pub fn accidental(i: usize) -> (label: &'static str)
    requires
        i < 12,
    ensures
        label@ == spec_accidental(i as int),
{
    match i {
        0 => "0",
        1 => "1#",
        2 => "2#",
        3 => "3#",
        4 => "4#",
        5 => "5#",
        6 => "6# / 6b",
        7 => "5b",
        8 => "4b",
        9 => "3b",
        10 => "2b",
        _ => "1b",
    }
}

/// Name of scale number `i`.
pub open spec fn spec_scale_name(i: int) -> Seq<char> {
    if i == 0 { "None (Standard)"@ }
    else if i == 1 { "Major (Ionian)"@ }
    else if i == 2 { "Dorian"@ }
    else if i == 3 { "Phrygian"@ }
    else if i == 4 { "Lydian"@ }
    else if i == 5 { "Mixolydian"@ }
    else if i == 6 { "Minor (Aeolian)"@ }
    else if i == 7 { "Locrian"@ }
    else if i == 8 { "Harmonic Minor"@ }
    else if i == 9 { "Locrian Natural 6"@ }
    else if i == 10 { "Ionian Augmented"@ }
    else if i == 11 { "Dorian #4"@ }
    else if i == 12 { "Phrygian Dominant"@ }
    else if i == 13 { "Lydian #2"@ }
    else if i == 14 { "Altered Diminished"@ }
    else if i == 15 { "Melodic Minor"@ }
    else if i == 16 { "Lydian b7 (Acoustic)"@ }
    else if i == 17 { "Superlocrian (Altered)"@ }
    else if i == 18 { "Diminished (W-H)"@ }
    else if i == 19 { "Whole Tone"@ }
    else if i == 20 { "Major Pentatonic"@ }
    else if i == 21 { "Minor Pentatonic"@ }
    else { "Japanese (Hirajoshi)"@ }
}

/// Semitone offsets from the root of scale number `i`.
pub open spec fn spec_scale_intervals(i: int) -> Seq<usize> {
    if i == 0 { seq![0usize, 1, 2, 3, 4, 5, 6, 7, 8, 9, 10, 11] }
    else if i == 1 { seq![0usize, 2, 4, 5, 7, 9, 11] }
    else if i == 2 { seq![0usize, 2, 3, 5, 7, 9, 10] }
    else if i == 3 { seq![0usize, 1, 3, 5, 7, 8, 10] }
    else if i == 4 { seq![0usize, 2, 4, 6, 7, 9, 11] }
    else if i == 5 { seq![0usize, 2, 4, 5, 7, 9, 10] }
    else if i == 6 { seq![0usize, 2, 3, 5, 7, 8, 10] }
    else if i == 7 { seq![0usize, 1, 3, 5, 6, 8, 10] }
    else if i == 8 { seq![0usize, 2, 3, 5, 7, 8, 11] }
    else if i == 9 { seq![0usize, 1, 3, 5, 6, 9, 10] }
    else if i == 10 { seq![0usize, 2, 4, 5, 8, 9, 11] }
    else if i == 11 { seq![0usize, 2, 3, 6, 7, 9, 10] }
    else if i == 12 { seq![0usize, 1, 4, 5, 7, 8, 10] }
    else if i == 13 { seq![0usize, 3, 4, 6, 7, 9, 11] }
    else if i == 14 { seq![0usize, 1, 3, 4, 6, 8, 9] }
    else if i == 15 { seq![0usize, 2, 3, 5, 7, 9, 11] }
    else if i == 16 { seq![0usize, 2, 4, 6, 7, 9, 10] }
    else if i == 17 { seq![0usize, 1, 3, 4, 6, 8, 10] }
    else if i == 18 { seq![0usize, 2, 3, 5, 6, 8, 9, 11] }
    else if i == 19 { seq![0usize, 2, 4, 6, 8, 10] }
    else if i == 20 { seq![0usize, 2, 4, 7, 9] }
    else if i == 21 { seq![0usize, 3, 5, 7, 10] }
    else { seq![0usize, 2, 3, 7, 8] }
}

/// Scale number `idx` (`idx < SCALE_COUNT`); number 0 holds all twelve notes.
pub fn scale(idx: usize) -> (s: ScalePattern)
    requires
        idx < SCALE_COUNT,
    ensures
        s.name@ == spec_scale_name(idx as int),
        s.intervals@ == spec_scale_intervals(idx as int),
{
    match idx {
        0 => ScalePattern { name: "None (Standard)", intervals: &[0, 1, 2, 3, 4, 5, 6, 7, 8, 9, 10, 11] },
        1 => ScalePattern { name: "Major (Ionian)", intervals: &[0, 2, 4, 5, 7, 9, 11] },
        2 => ScalePattern { name: "Dorian", intervals: &[0, 2, 3, 5, 7, 9, 10] },
        3 => ScalePattern { name: "Phrygian", intervals: &[0, 1, 3, 5, 7, 8, 10] },
        4 => ScalePattern { name: "Lydian", intervals: &[0, 2, 4, 6, 7, 9, 11] },
        5 => ScalePattern { name: "Mixolydian", intervals: &[0, 2, 4, 5, 7, 9, 10] },
        6 => ScalePattern { name: "Minor (Aeolian)", intervals: &[0, 2, 3, 5, 7, 8, 10] },
        7 => ScalePattern { name: "Locrian", intervals: &[0, 1, 3, 5, 6, 8, 10] },
        8 => ScalePattern { name: "Harmonic Minor", intervals: &[0, 2, 3, 5, 7, 8, 11] },
        9 => ScalePattern { name: "Locrian Natural 6", intervals: &[0, 1, 3, 5, 6, 9, 10] },
        10 => ScalePattern { name: "Ionian Augmented", intervals: &[0, 2, 4, 5, 8, 9, 11] },
        11 => ScalePattern { name: "Dorian #4", intervals: &[0, 2, 3, 6, 7, 9, 10] },
        12 => ScalePattern { name: "Phrygian Dominant", intervals: &[0, 1, 4, 5, 7, 8, 10] },
        13 => ScalePattern { name: "Lydian #2", intervals: &[0, 3, 4, 6, 7, 9, 11] },
        14 => ScalePattern { name: "Altered Diminished", intervals: &[0, 1, 3, 4, 6, 8, 9] },
        15 => ScalePattern { name: "Melodic Minor", intervals: &[0, 2, 3, 5, 7, 9, 11] },
        16 => ScalePattern { name: "Lydian b7 (Acoustic)", intervals: &[0, 2, 4, 6, 7, 9, 10] },
        17 => ScalePattern { name: "Superlocrian (Altered)", intervals: &[0, 1, 3, 4, 6, 8, 10] },
        18 => ScalePattern { name: "Diminished (W-H)", intervals: &[0, 2, 3, 5, 6, 8, 9, 11] },
        19 => ScalePattern { name: "Whole Tone", intervals: &[0, 2, 4, 6, 8, 10] },
        20 => ScalePattern { name: "Major Pentatonic", intervals: &[0, 2, 4, 7, 9] },
        21 => ScalePattern { name: "Minor Pentatonic", intervals: &[0, 3, 5, 7, 10] },
        _ => ScalePattern { name: "Japanese (Hirajoshi)", intervals: &[0, 2, 3, 7, 8] },
    }
}

/// The ways of stacking scale degrees into a chord.
#[derive(PartialEq, Eq, Structural, Clone, Copy, Debug)]
pub enum ChordPattern {
    Triad,
    Seventh,
    Ninth,
    Eleventh,
    Thirteenth,
    Sus2,
    Sus4,
    SevenSus2,
    SevenSus4,
    Add9,
    Add11,
    Add13,
    PowerChord,
    Quartal3,
    Quartal4,
    Cluster,
}

/// The display name of a chord pattern.
pub open spec fn spec_chord_name(p: ChordPattern) -> Seq<char> {
    match p {
        ChordPattern::Triad => "Triad (1-3-5)"@,
        ChordPattern::Seventh => "Seventh (1-3-5-7)"@,
        ChordPattern::Ninth => "Ninth (1-3-5-7-9)"@,
        ChordPattern::Eleventh => "Eleventh (1-3-5-7-9-11)"@,
        ChordPattern::Thirteenth => "Thirteenth (1-3-5-7-9-11-13)"@,
        ChordPattern::Sus2 => "Sus2 (1-2-5)"@,
        ChordPattern::Sus4 => "Sus4 (1-4-5)"@,
        ChordPattern::SevenSus2 => "7Sus2 (1-2-5-7)"@,
        ChordPattern::SevenSus4 => "7Sus4 (1-4-5-7)"@,
        ChordPattern::Add9 => "Add9 (1-3-5-9)"@,
        ChordPattern::Add11 => "Add11 (1-3-5-11)"@,
        ChordPattern::Add13 => "Add13 (1-3-5-13)"@,
        ChordPattern::PowerChord => "Power Chord (1-5)"@,
        ChordPattern::Quartal3 => "Quartal 3-part (1-4-7)"@,
        ChordPattern::Quartal4 => "Quartal 4-part (1-4-7-10)"@,
        ChordPattern::Cluster => "Cluster (1-2-3)"@,
    }
}

/// The scale-degree offsets (0 = the degree the chord is built on) of a chord pattern.
pub open spec fn spec_chord_intervals(p: ChordPattern) -> Seq<usize> {
    match p {
        ChordPattern::Triad => seq![0usize, 2, 4],
        ChordPattern::Seventh => seq![0usize, 2, 4, 6],
        ChordPattern::Ninth => seq![0usize, 2, 4, 6, 1],
        ChordPattern::Eleventh => seq![0usize, 2, 4, 6, 1, 3],
        ChordPattern::Thirteenth => seq![0usize, 2, 4, 6, 1, 3, 5],
        ChordPattern::Sus2 => seq![0usize, 1, 4],
        ChordPattern::Sus4 => seq![0usize, 3, 4],
        ChordPattern::SevenSus2 => seq![0usize, 1, 4, 6],
        ChordPattern::SevenSus4 => seq![0usize, 3, 4, 6],
        ChordPattern::Add9 => seq![0usize, 2, 4, 1],
        ChordPattern::Add11 => seq![0usize, 2, 4, 3],
        ChordPattern::Add13 => seq![0usize, 2, 4, 5],
        ChordPattern::PowerChord => seq![0usize, 4],
        ChordPattern::Quartal3 => seq![0usize, 3, 6],
        ChordPattern::Quartal4 => seq![0usize, 3, 6, 2],
        ChordPattern::Cluster => seq![0usize, 1, 2],
    }
}

impl ChordPattern {
    /// The display name, with the chord tones it stacks.
    pub fn name(&self) -> (name: &'static str)
        ensures
            name@ == spec_chord_name(*self),
    {
        match self {
            ChordPattern::Triad => "Triad (1-3-5)",
            ChordPattern::Seventh => "Seventh (1-3-5-7)",
            ChordPattern::Ninth => "Ninth (1-3-5-7-9)",
            ChordPattern::Eleventh => "Eleventh (1-3-5-7-9-11)",
            ChordPattern::Thirteenth => "Thirteenth (1-3-5-7-9-11-13)",
            ChordPattern::Sus2 => "Sus2 (1-2-5)",
            ChordPattern::Sus4 => "Sus4 (1-4-5)",
            ChordPattern::SevenSus2 => "7Sus2 (1-2-5-7)",
            ChordPattern::SevenSus4 => "7Sus4 (1-4-5-7)",
            ChordPattern::Add9 => "Add9 (1-3-5-9)",
            ChordPattern::Add11 => "Add11 (1-3-5-11)",
            ChordPattern::Add13 => "Add13 (1-3-5-13)",
            ChordPattern::PowerChord => "Power Chord (1-5)",
            ChordPattern::Quartal3 => "Quartal 3-part (1-4-7)",
            ChordPattern::Quartal4 => "Quartal 4-part (1-4-7-10)",
            ChordPattern::Cluster => "Cluster (1-2-3)",
        }
    }

    /// The scale-degree offsets of the chord tones, root first.
    pub fn intervals(&self) -> (ivs: Vec<usize>)
        ensures
            ivs@ == spec_chord_intervals(*self),
    {
        match self {
            ChordPattern::Triad => vec![0, 2, 4],
            ChordPattern::Seventh => vec![0, 2, 4, 6],
            ChordPattern::Ninth => vec![0, 2, 4, 6, 1],
            ChordPattern::Eleventh => vec![0, 2, 4, 6, 1, 3],
            ChordPattern::Thirteenth => vec![0, 2, 4, 6, 1, 3, 5],
            ChordPattern::Sus2 => vec![0, 1, 4],
            ChordPattern::Sus4 => vec![0, 3, 4],
            ChordPattern::SevenSus2 => vec![0, 1, 4, 6],
            ChordPattern::SevenSus4 => vec![0, 3, 4, 6],
            ChordPattern::Add9 => vec![0, 2, 4, 1],
            ChordPattern::Add11 => vec![0, 2, 4, 3],
            ChordPattern::Add13 => vec![0, 2, 4, 5],
            ChordPattern::PowerChord => vec![0, 4],
            ChordPattern::Quartal3 => vec![0, 3, 6],
            ChordPattern::Quartal4 => vec![0, 3, 6, 2],
            ChordPattern::Cluster => vec![0, 1, 2],
        }
    }
}


/// The offsets of a chord pattern that stacks `len` notes, each `step` scale
/// degrees above the one before (wrapping round the seven degrees).
pub open spec fn stacked(p: ChordPattern, step: int, len: nat) -> bool {
    &&& spec_chord_intervals(p).len() == len
    &&& forall|k: int| 0 <= k < len ==> #[trigger] spec_chord_intervals(p)[k] == (step * k) % 7
}

/// How the chord patterns are built, as their names say: triads and their
/// extensions (7, 9, 11, 13) stack thirds, quartal chords stack fourths, the
/// cluster stacks seconds; the suspended chords replace the third by the second
/// or the fourth; the suspended sevenths add the seventh to them, as the
/// seventh chord adds it to the triad; the added-note chords add the 9th, 11th
/// or 13th to the triad; the power chord keeps only root and fifth.
pub proof fn lemma_chord_pattern_structure()
    ensures
        stacked(ChordPattern::Triad, 2, 3),
        stacked(ChordPattern::Seventh, 2, 4),
        stacked(ChordPattern::Ninth, 2, 5),
        stacked(ChordPattern::Eleventh, 2, 6),
        stacked(ChordPattern::Thirteenth, 2, 7),
        stacked(ChordPattern::Quartal3, 3, 3),
        stacked(ChordPattern::Quartal4, 3, 4),
        stacked(ChordPattern::Cluster, 1, 3),
        spec_chord_intervals(ChordPattern::Sus2) == spec_chord_intervals(ChordPattern::Triad).update(1, 1),
        spec_chord_intervals(ChordPattern::Sus4) == spec_chord_intervals(ChordPattern::Triad).update(1, 3),
        spec_chord_intervals(ChordPattern::Seventh) == spec_chord_intervals(ChordPattern::Triad).push(6),
        spec_chord_intervals(ChordPattern::SevenSus2) == spec_chord_intervals(ChordPattern::Sus2).push(6),
        spec_chord_intervals(ChordPattern::SevenSus4) == spec_chord_intervals(ChordPattern::Sus4).push(6),
        spec_chord_intervals(ChordPattern::Add9) == spec_chord_intervals(ChordPattern::Triad).push(((9 - 1) % 7) as usize),
        spec_chord_intervals(ChordPattern::Add11) == spec_chord_intervals(ChordPattern::Triad).push(((11 - 1) % 7) as usize),
        spec_chord_intervals(ChordPattern::Add13) == spec_chord_intervals(ChordPattern::Triad).push(((13 - 1) % 7) as usize),
        spec_chord_intervals(ChordPattern::PowerChord) == spec_chord_intervals(ChordPattern::Triad).remove(1),
{
    assert forall|k: int| 0 <= k < 7 implies #[trigger] spec_chord_intervals(ChordPattern::Thirteenth)[k] == (2 * k) % 7 by {
        if k == 0 {} else if k == 1 {} else if k == 2 {} else if k == 3 {} else if k == 4 {} else if k == 5 {} else {}
    }
    assert forall|k: int| 0 <= k < 6 implies #[trigger] spec_chord_intervals(ChordPattern::Eleventh)[k] == (2 * k) % 7 by {
        if k == 0 {} else if k == 1 {} else if k == 2 {} else if k == 3 {} else if k == 4 {} else {}
    }
    assert forall|k: int| 0 <= k < 5 implies #[trigger] spec_chord_intervals(ChordPattern::Ninth)[k] == (2 * k) % 7 by {
        if k == 0 {} else if k == 1 {} else if k == 2 {} else if k == 3 {} else {}
    }
    assert forall|k: int| 0 <= k < 4 implies #[trigger] spec_chord_intervals(ChordPattern::Seventh)[k] == (2 * k) % 7 by {
        if k == 0 {} else if k == 1 {} else if k == 2 {} else {}
    }
    assert forall|k: int| 0 <= k < 3 implies #[trigger] spec_chord_intervals(ChordPattern::Triad)[k] == (2 * k) % 7 by {
        if k == 0 {} else if k == 1 {} else {}
    }
    assert forall|k: int| 0 <= k < 4 implies #[trigger] spec_chord_intervals(ChordPattern::Quartal4)[k] == (3 * k) % 7 by {
        if k == 0 {} else if k == 1 {} else if k == 2 {} else {}
    }
    assert forall|k: int| 0 <= k < 3 implies #[trigger] spec_chord_intervals(ChordPattern::Quartal3)[k] == (3 * k) % 7 by {
        if k == 0 {} else if k == 1 {} else {}
    }
    assert forall|k: int| 0 <= k < 3 implies #[trigger] spec_chord_intervals(ChordPattern::Cluster)[k] == (1 * k) % 7 by {
        if k == 0 {} else if k == 1 {} else {}
    }
    assert(spec_chord_intervals(ChordPattern::Sus2) =~= spec_chord_intervals(ChordPattern::Triad).update(1, 1));
    assert(spec_chord_intervals(ChordPattern::Sus4) =~= spec_chord_intervals(ChordPattern::Triad).update(1, 3));
    assert(spec_chord_intervals(ChordPattern::Seventh) =~= spec_chord_intervals(ChordPattern::Triad).push(6));
    assert(spec_chord_intervals(ChordPattern::SevenSus2) =~= spec_chord_intervals(ChordPattern::Sus2).push(6));
    assert(spec_chord_intervals(ChordPattern::SevenSus4) =~= spec_chord_intervals(ChordPattern::Sus4).push(6));
    assert(spec_chord_intervals(ChordPattern::Add9) =~= spec_chord_intervals(ChordPattern::Triad).push(1));
    assert(spec_chord_intervals(ChordPattern::Add11) =~= spec_chord_intervals(ChordPattern::Triad).push(3));
    assert(spec_chord_intervals(ChordPattern::Add13) =~= spec_chord_intervals(ChordPattern::Triad).push(5));
    assert(spec_chord_intervals(ChordPattern::PowerChord) =~= spec_chord_intervals(ChordPattern::Triad).remove(1));
}


/// Scale `s` is the mode of `base` that starts on its degree `k`: the notes of
/// `base` from degree `k` on, wrapping round, measured from that degree.
pub open spec fn is_mode_of(s: Seq<usize>, base: Seq<usize>, k: int) -> bool {
    &&& s.len() == base.len()
    &&& forall|j: int| 0 <= j < s.len() ==> #[trigger] s[j] == (base[(k + j) % (base.len() as int)] + 12 - base[k]) % 12
}

proof fn lemma_mode_1()
    ensures
        is_mode_of(spec_scale_intervals(1), spec_scale_intervals(1), 0),
{
    let s = spec_scale_intervals(1);
    let b = spec_scale_intervals(1);
    assert forall|j: int| 0 <= j < s.len() implies #[trigger] s[j] == (b[(0 + j) % (b.len() as int)] + 12 - b[0]) % 12 by {
        assert(b.len() == 7);
        if j == 0 {} else if j == 1 {} else if j == 2 {} else if j == 3 {} else if j == 4 {} else if j == 5 {} else {}
    }
}

proof fn lemma_mode_2()
    ensures
        is_mode_of(spec_scale_intervals(2), spec_scale_intervals(1), 1),
{
    let s = spec_scale_intervals(2);
    let b = spec_scale_intervals(1);
    assert forall|j: int| 0 <= j < s.len() implies #[trigger] s[j] == (b[(1 + j) % (b.len() as int)] + 12 - b[1]) % 12 by {
        assert(b.len() == 7);
        if j == 0 {} else if j == 1 {} else if j == 2 {} else if j == 3 {} else if j == 4 {} else if j == 5 {} else {}
    }
}

proof fn lemma_mode_3()
    ensures
        is_mode_of(spec_scale_intervals(3), spec_scale_intervals(1), 2),
{
    let s = spec_scale_intervals(3);
    let b = spec_scale_intervals(1);
    assert forall|j: int| 0 <= j < s.len() implies #[trigger] s[j] == (b[(2 + j) % (b.len() as int)] + 12 - b[2]) % 12 by {
        assert(b.len() == 7);
        if j == 0 {} else if j == 1 {} else if j == 2 {} else if j == 3 {} else if j == 4 {} else if j == 5 {} else {}
    }
}

proof fn lemma_mode_4()
    ensures
        is_mode_of(spec_scale_intervals(4), spec_scale_intervals(1), 3),
{
    let s = spec_scale_intervals(4);
    let b = spec_scale_intervals(1);
    assert forall|j: int| 0 <= j < s.len() implies #[trigger] s[j] == (b[(3 + j) % (b.len() as int)] + 12 - b[3]) % 12 by {
        assert(b.len() == 7);
        if j == 0 {} else if j == 1 {} else if j == 2 {} else if j == 3 {} else if j == 4 {} else if j == 5 {} else {}
    }
}

proof fn lemma_mode_5()
    ensures
        is_mode_of(spec_scale_intervals(5), spec_scale_intervals(1), 4),
{
    let s = spec_scale_intervals(5);
    let b = spec_scale_intervals(1);
    assert forall|j: int| 0 <= j < s.len() implies #[trigger] s[j] == (b[(4 + j) % (b.len() as int)] + 12 - b[4]) % 12 by {
        assert(b.len() == 7);
        if j == 0 {} else if j == 1 {} else if j == 2 {} else if j == 3 {} else if j == 4 {} else if j == 5 {} else {}
    }
}

proof fn lemma_mode_6()
    ensures
        is_mode_of(spec_scale_intervals(6), spec_scale_intervals(1), 5),
{
    let s = spec_scale_intervals(6);
    let b = spec_scale_intervals(1);
    assert forall|j: int| 0 <= j < s.len() implies #[trigger] s[j] == (b[(5 + j) % (b.len() as int)] + 12 - b[5]) % 12 by {
        assert(b.len() == 7);
        if j == 0 {} else if j == 1 {} else if j == 2 {} else if j == 3 {} else if j == 4 {} else if j == 5 {} else {}
    }
}

proof fn lemma_mode_7()
    ensures
        is_mode_of(spec_scale_intervals(7), spec_scale_intervals(1), 6),
{
    let s = spec_scale_intervals(7);
    let b = spec_scale_intervals(1);
    assert forall|j: int| 0 <= j < s.len() implies #[trigger] s[j] == (b[(6 + j) % (b.len() as int)] + 12 - b[6]) % 12 by {
        assert(b.len() == 7);
        if j == 0 {} else if j == 1 {} else if j == 2 {} else if j == 3 {} else if j == 4 {} else if j == 5 {} else {}
    }
}

proof fn lemma_mode_8()
    ensures
        is_mode_of(spec_scale_intervals(8), spec_scale_intervals(8), 0),
{
    let s = spec_scale_intervals(8);
    let b = spec_scale_intervals(8);
    assert forall|j: int| 0 <= j < s.len() implies #[trigger] s[j] == (b[(0 + j) % (b.len() as int)] + 12 - b[0]) % 12 by {
        assert(b.len() == 7);
        if j == 0 {} else if j == 1 {} else if j == 2 {} else if j == 3 {} else if j == 4 {} else if j == 5 {} else {}
    }
}

proof fn lemma_mode_9()
    ensures
        is_mode_of(spec_scale_intervals(9), spec_scale_intervals(8), 1),
{
    let s = spec_scale_intervals(9);
    let b = spec_scale_intervals(8);
    assert forall|j: int| 0 <= j < s.len() implies #[trigger] s[j] == (b[(1 + j) % (b.len() as int)] + 12 - b[1]) % 12 by {
        assert(b.len() == 7);
        if j == 0 {} else if j == 1 {} else if j == 2 {} else if j == 3 {} else if j == 4 {} else if j == 5 {} else {}
    }
}

proof fn lemma_mode_10()
    ensures
        is_mode_of(spec_scale_intervals(10), spec_scale_intervals(8), 2),
{
    let s = spec_scale_intervals(10);
    let b = spec_scale_intervals(8);
    assert forall|j: int| 0 <= j < s.len() implies #[trigger] s[j] == (b[(2 + j) % (b.len() as int)] + 12 - b[2]) % 12 by {
        assert(b.len() == 7);
        if j == 0 {} else if j == 1 {} else if j == 2 {} else if j == 3 {} else if j == 4 {} else if j == 5 {} else {}
    }
}

proof fn lemma_mode_11()
    ensures
        is_mode_of(spec_scale_intervals(11), spec_scale_intervals(8), 3),
{
    let s = spec_scale_intervals(11);
    let b = spec_scale_intervals(8);
    assert forall|j: int| 0 <= j < s.len() implies #[trigger] s[j] == (b[(3 + j) % (b.len() as int)] + 12 - b[3]) % 12 by {
        assert(b.len() == 7);
        if j == 0 {} else if j == 1 {} else if j == 2 {} else if j == 3 {} else if j == 4 {} else if j == 5 {} else {}
    }
}

proof fn lemma_mode_12()
    ensures
        is_mode_of(spec_scale_intervals(12), spec_scale_intervals(8), 4),
{
    let s = spec_scale_intervals(12);
    let b = spec_scale_intervals(8);
    assert forall|j: int| 0 <= j < s.len() implies #[trigger] s[j] == (b[(4 + j) % (b.len() as int)] + 12 - b[4]) % 12 by {
        assert(b.len() == 7);
        if j == 0 {} else if j == 1 {} else if j == 2 {} else if j == 3 {} else if j == 4 {} else if j == 5 {} else {}
    }
}

proof fn lemma_mode_13()
    ensures
        is_mode_of(spec_scale_intervals(13), spec_scale_intervals(8), 5),
{
    let s = spec_scale_intervals(13);
    let b = spec_scale_intervals(8);
    assert forall|j: int| 0 <= j < s.len() implies #[trigger] s[j] == (b[(5 + j) % (b.len() as int)] + 12 - b[5]) % 12 by {
        assert(b.len() == 7);
        if j == 0 {} else if j == 1 {} else if j == 2 {} else if j == 3 {} else if j == 4 {} else if j == 5 {} else {}
    }
}

proof fn lemma_mode_14()
    ensures
        is_mode_of(spec_scale_intervals(14), spec_scale_intervals(8), 6),
{
    let s = spec_scale_intervals(14);
    let b = spec_scale_intervals(8);
    assert forall|j: int| 0 <= j < s.len() implies #[trigger] s[j] == (b[(6 + j) % (b.len() as int)] + 12 - b[6]) % 12 by {
        assert(b.len() == 7);
        if j == 0 {} else if j == 1 {} else if j == 2 {} else if j == 3 {} else if j == 4 {} else if j == 5 {} else {}
    }
}

proof fn lemma_mode_15()
    ensures
        is_mode_of(spec_scale_intervals(15), spec_scale_intervals(15), 0),
{
    let s = spec_scale_intervals(15);
    let b = spec_scale_intervals(15);
    assert forall|j: int| 0 <= j < s.len() implies #[trigger] s[j] == (b[(0 + j) % (b.len() as int)] + 12 - b[0]) % 12 by {
        assert(b.len() == 7);
        if j == 0 {} else if j == 1 {} else if j == 2 {} else if j == 3 {} else if j == 4 {} else if j == 5 {} else {}
    }
}

proof fn lemma_mode_16()
    ensures
        is_mode_of(spec_scale_intervals(16), spec_scale_intervals(15), 3),
{
    let s = spec_scale_intervals(16);
    let b = spec_scale_intervals(15);
    assert forall|j: int| 0 <= j < s.len() implies #[trigger] s[j] == (b[(3 + j) % (b.len() as int)] + 12 - b[3]) % 12 by {
        assert(b.len() == 7);
        if j == 0 {} else if j == 1 {} else if j == 2 {} else if j == 3 {} else if j == 4 {} else if j == 5 {} else {}
    }
}

proof fn lemma_mode_17()
    ensures
        is_mode_of(spec_scale_intervals(17), spec_scale_intervals(15), 6),
{
    let s = spec_scale_intervals(17);
    let b = spec_scale_intervals(15);
    assert forall|j: int| 0 <= j < s.len() implies #[trigger] s[j] == (b[(6 + j) % (b.len() as int)] + 12 - b[6]) % 12 by {
        assert(b.len() == 7);
        if j == 0 {} else if j == 1 {} else if j == 2 {} else if j == 3 {} else if j == 4 {} else if j == 5 {} else {}
    }
}

proof fn lemma_major_from_fifths()
    ensures
        spec_scale_intervals(1).len() == 7,
        forall|i: int, j: int| 0 <= i < j < 7 ==> #[trigger] spec_scale_intervals(1)[i] < #[trigger] spec_scale_intervals(1)[j],
        forall|j: int| #![trigger spec_scale_intervals(1)[j]] 0 <= j < 7 ==> exists|k: int| -1 <= k < 6 && spec_scale_intervals(1)[j] == #[trigger] spec_circle_of_fifths(k),
        forall|k: int| -1 <= k < 6 ==> spec_scale_intervals(1).contains(#[trigger] spec_circle_of_fifths(k) as usize),
{
    let m = spec_scale_intervals(1);
    assert forall|j: int| #![trigger m[j]] 0 <= j < 7 implies exists|k: int| -1 <= k < 6 && m[j] == #[trigger] spec_circle_of_fifths(k) by {
        if j == 0 { assert(m[0] == spec_circle_of_fifths(0)); }
        else if j == 1 { assert(m[1] == spec_circle_of_fifths(2)); }
        else if j == 2 { assert(m[2] == spec_circle_of_fifths(4)); }
        else if j == 3 { assert(m[3] == spec_circle_of_fifths(-1)); }
        else if j == 4 { assert(m[4] == spec_circle_of_fifths(1)); }
        else if j == 5 { assert(m[5] == spec_circle_of_fifths(3)); }
        else { assert(m[6] == spec_circle_of_fifths(5)); }
    }
    assert forall|k: int| -1 <= k < 6 implies m.contains(#[trigger] spec_circle_of_fifths(k) as usize) by {
        if k == -1 { assert(m[3] == 5); }
        else if k == 0 { assert(m[0] == 0); }
        else if k == 1 { assert(m[4] == 7); }
        else if k == 2 { assert(m[1] == 2); }
        else if k == 3 { assert(m[5] == 9); }
        else if k == 4 { assert(m[2] == 4); }
        else { assert(m[6] == 11); }
    }
    assert forall|i: int, j: int| 0 <= i < j < 7 implies #[trigger] m[i] < #[trigger] m[j] by {
        assert(m.len() == 7);
    }
}

proof fn lemma_major_modes()
    ensures
        forall|i: int| 1 <= i < 8 ==> is_mode_of(#[trigger] spec_scale_intervals(i), spec_scale_intervals(1), i - 1),
{
    assert forall|i: int| 1 <= i < 8 implies is_mode_of(#[trigger] spec_scale_intervals(i), spec_scale_intervals(1), i - 1) by {
        if i == 1 { lemma_mode_1(); } else if i == 2 { lemma_mode_2(); } else if i == 3 { lemma_mode_3(); }
        else if i == 4 { lemma_mode_4(); } else if i == 5 { lemma_mode_5(); } else if i == 6 { lemma_mode_6(); }
        else { lemma_mode_7(); }
    }
}

proof fn lemma_harmonic_minor_modes()
    ensures
        spec_scale_intervals(8) == spec_scale_intervals(6).update(6, 11),
        forall|i: int| 8 <= i < 15 ==> is_mode_of(#[trigger] spec_scale_intervals(i), spec_scale_intervals(8), i - 8),
{
    assert forall|i: int| 8 <= i < 15 implies is_mode_of(#[trigger] spec_scale_intervals(i), spec_scale_intervals(8), i - 8) by {
        if i == 8 { lemma_mode_8(); } else if i == 9 { lemma_mode_9(); } else if i == 10 { lemma_mode_10(); }
        else if i == 11 { lemma_mode_11(); } else if i == 12 { lemma_mode_12(); } else if i == 13 { lemma_mode_13(); }
        else { lemma_mode_14(); }
    }
    assert(spec_scale_intervals(8) =~= spec_scale_intervals(6).update(6, 11));
}

proof fn lemma_melodic_minor_modes()
    ensures
        spec_scale_intervals(15) == spec_scale_intervals(1).update(2, 3),
        is_mode_of(spec_scale_intervals(16), spec_scale_intervals(15), 3),
        is_mode_of(spec_scale_intervals(17), spec_scale_intervals(15), 6),
{
    lemma_mode_16();
    lemma_mode_17();
    assert(spec_scale_intervals(15) =~= spec_scale_intervals(1).update(2, 3));
}

proof fn lemma_regular_scales()
    ensures
        spec_scale_intervals(0).len() == 12,
        forall|j: int| 0 <= j < 12 ==> #[trigger] spec_scale_intervals(0)[j] == j,
        spec_scale_intervals(19).len() == 6,
        forall|j: int| 0 <= j < 6 ==> #[trigger] spec_scale_intervals(19)[j] == 2 * j,
        spec_scale_intervals(18).len() == 8,
        forall|j: int| 0 <= j < 8 ==> #[trigger] spec_scale_intervals(18)[j] == 3 * (j / 2) + 2 * (j % 2),
{
    let c = spec_scale_intervals(0);
    let w = spec_scale_intervals(19);
    let d = spec_scale_intervals(18);
    assert forall|j: int| 0 <= j < 12 implies #[trigger] c[j] == j by {
        assert(c.len() == 12);
        if j == 0 {} else if j == 1 {} else if j == 2 {} else if j == 3 {} else if j == 4 {} else if j == 5 {} else if j == 6 {} else if j == 7 {} else if j == 8 {} else if j == 9 {} else if j == 10 {} else {}
    }
    assert forall|j: int| 0 <= j < 6 implies #[trigger] w[j] == 2 * j by {
        assert(w.len() == 6);
        if j == 0 {} else if j == 1 {} else if j == 2 {} else if j == 3 {} else if j == 4 {} else {}
    }
    assert forall|j: int| 0 <= j < 8 implies #[trigger] d[j] == 3 * (j / 2) + 2 * (j % 2) by {
        assert(d.len() == 8);
        if j == 0 {} else if j == 1 {} else if j == 2 {} else if j == 3 {} else if j == 4 {} else if j == 5 {} else if j == 6 {} else {}
    }
}

proof fn lemma_pentatonic_scales()
    ensures
        spec_scale_intervals(20) == seq![
            spec_scale_intervals(1)[0], spec_scale_intervals(1)[1], spec_scale_intervals(1)[2],
            spec_scale_intervals(1)[4], spec_scale_intervals(1)[5],
        ],
        is_mode_of(spec_scale_intervals(21), spec_scale_intervals(20), 4),
{
    let m = spec_scale_intervals(1);
    assert(spec_scale_intervals(20) =~= seq![m[0], m[1], m[2], m[4], m[5]]);
    let p = spec_scale_intervals(20);
    let q = spec_scale_intervals(21);
    assert forall|j: int| 0 <= j < q.len() implies #[trigger] q[j] == (p[(4 + j) % (p.len() as int)] + 12 - p[4]) % 12 by {
        assert(p.len() == 5);
        if j == 0 {} else if j == 1 {} else if j == 2 {} else if j == 3 {} else {}
    }
}

/// How the scales of the table are built. The major scale is the seven notes of
/// the circle of fifths from one step before the root to five after (F C G D A
/// E B for C), in ascending order. Scales 1 to 7 are its modes (Ionian ..
/// Locrian); the harmonic minor is the natural minor with a raised seventh, and
/// scales 8 to 14 are its modes; the melodic minor is the major scale with a
/// minor third, and scales 16 and 17 are its fourth and seventh modes. Scale 0
/// holds all twelve notes, the whole-tone scale rises in whole tones, the
/// diminished scale alternates whole and half tones; the major pentatonic is
/// the major scale without its fourth and seventh, and the minor pentatonic is
/// its mode from the fifth note.
pub proof fn lemma_scale_structure()
    ensures
        spec_scale_intervals(1).len() == 7,
        forall|i: int, j: int| 0 <= i < j < 7 ==> #[trigger] spec_scale_intervals(1)[i] < #[trigger] spec_scale_intervals(1)[j],
        forall|j: int| #![trigger spec_scale_intervals(1)[j]] 0 <= j < 7 ==> exists|k: int| -1 <= k < 6 && spec_scale_intervals(1)[j] == #[trigger] spec_circle_of_fifths(k),
        forall|k: int| -1 <= k < 6 ==> spec_scale_intervals(1).contains(#[trigger] spec_circle_of_fifths(k) as usize),
        forall|i: int| 1 <= i < 8 ==> is_mode_of(#[trigger] spec_scale_intervals(i), spec_scale_intervals(1), i - 1),
        spec_scale_intervals(8) == spec_scale_intervals(6).update(6, 11),
        forall|i: int| 8 <= i < 15 ==> is_mode_of(#[trigger] spec_scale_intervals(i), spec_scale_intervals(8), i - 8),
        spec_scale_intervals(15) == spec_scale_intervals(1).update(2, 3),
        is_mode_of(spec_scale_intervals(16), spec_scale_intervals(15), 3),
        is_mode_of(spec_scale_intervals(17), spec_scale_intervals(15), 6),
        spec_scale_intervals(0).len() == 12,
        forall|j: int| 0 <= j < 12 ==> #[trigger] spec_scale_intervals(0)[j] == j,
        spec_scale_intervals(19).len() == 6,
        forall|j: int| 0 <= j < 6 ==> #[trigger] spec_scale_intervals(19)[j] == 2 * j,
        spec_scale_intervals(18).len() == 8,
        forall|j: int| 0 <= j < 8 ==> #[trigger] spec_scale_intervals(18)[j] == 3 * (j / 2) + 2 * (j % 2),
        spec_scale_intervals(20) == seq![
            spec_scale_intervals(1)[0], spec_scale_intervals(1)[1], spec_scale_intervals(1)[2],
            spec_scale_intervals(1)[4], spec_scale_intervals(1)[5],
        ],
        is_mode_of(spec_scale_intervals(21), spec_scale_intervals(20), 4),
{
    lemma_major_from_fifths();
    lemma_major_modes();
    lemma_harmonic_minor_modes();
    lemma_melodic_minor_modes();
    lemma_regular_scales();
    lemma_pentatonic_scales();
}

} // verus!
