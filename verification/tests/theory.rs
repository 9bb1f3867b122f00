use harmony_lab::theory::{accidental, circle_of_fifths, note_name, relative_minor, scale, ChordPattern, SCALE_COUNT};

#[test]
fn note_names_use_sharps() {
    let names: Vec<&str> = (0..12).map(note_name).collect();
    assert_eq!(names, vec!["C", "C#", "D", "D#", "E", "F", "F#", "G", "G#", "A", "A#", "B"]);
}

#[test]
fn circle_of_fifths_order() {
    let circle: Vec<usize> = (0..12).map(circle_of_fifths).collect();
    assert_eq!(circle, vec![0, 7, 2, 9, 4, 11, 6, 1, 8, 3, 10, 5]);
}

#[test]
fn accidentals_follow_the_circle() {
    assert_eq!(accidental(0), "0");
    assert_eq!(accidental(1), "1#");
    assert_eq!(accidental(6), "6# / 6b");
    assert_eq!(accidental(11), "1b");
}

#[test]
fn relative_minor_is_three_semitones_down() {
    assert_eq!(relative_minor(0), 9);
    assert_eq!(relative_minor(7), 4);
    assert_eq!(relative_minor(5), 2);
}

#[test]
fn scale_table_entries() {
    assert_eq!(SCALE_COUNT, 23);
    let none = scale(0);
    assert_eq!(none.name, "None (Standard)");
    assert_eq!(none.intervals, &[0, 1, 2, 3, 4, 5, 6, 7, 8, 9, 10, 11]);
    let major = scale(1);
    assert_eq!(major.name, "Major (Ionian)");
    assert_eq!(major.intervals, &[0, 2, 4, 5, 7, 9, 11]);
    let minor = scale(6);
    assert_eq!(minor.name, "Minor (Aeolian)");
    assert_eq!(minor.intervals, &[0, 2, 3, 5, 7, 8, 10]);
    let dim = scale(18);
    assert_eq!(dim.name, "Diminished (W-H)");
    assert_eq!(dim.intervals.len(), 8);
    let last = scale(22);
    assert_eq!(last.name, "Japanese (Hirajoshi)");
    assert_eq!(last.intervals, &[0, 2, 3, 7, 8]);
}

#[test]
fn every_scale_starts_on_its_root_and_ascends() {
    for i in 0..SCALE_COUNT {
        let s = scale(i);
        assert_eq!(s.intervals[0], 0);
        for w in s.intervals.windows(2) {
            assert!(w[0] < w[1]);
        }
        assert!(*s.intervals.last().unwrap() < 12);
    }
}

#[test]
fn chord_pattern_names() {
    assert_eq!(ChordPattern::Triad.name(), "Triad (1-3-5)");
    assert_eq!(ChordPattern::Thirteenth.name(), "Thirteenth (1-3-5-7-9-11-13)");
    assert_eq!(ChordPattern::SevenSus2.name(), "7Sus2 (1-2-5-7)");
    assert_eq!(ChordPattern::PowerChord.name(), "Power Chord (1-5)");
    assert_eq!(ChordPattern::Cluster.name(), "Cluster (1-2-3)");
}

#[test]
fn chord_pattern_intervals() {
    assert_eq!(ChordPattern::Triad.intervals(), vec![0, 2, 4]);
    assert_eq!(ChordPattern::Seventh.intervals(), vec![0, 2, 4, 6]);
    assert_eq!(ChordPattern::Ninth.intervals(), vec![0, 2, 4, 6, 1]);
    assert_eq!(ChordPattern::Eleventh.intervals(), vec![0, 2, 4, 6, 1, 3]);
    assert_eq!(ChordPattern::Thirteenth.intervals(), vec![0, 2, 4, 6, 1, 3, 5]);
    assert_eq!(ChordPattern::Sus2.intervals(), vec![0, 1, 4]);
    assert_eq!(ChordPattern::Sus4.intervals(), vec![0, 3, 4]);
    assert_eq!(ChordPattern::SevenSus4.intervals(), vec![0, 3, 4, 6]);
    assert_eq!(ChordPattern::Add9.intervals(), vec![0, 2, 4, 1]);
    assert_eq!(ChordPattern::Add11.intervals(), vec![0, 2, 4, 3]);
    assert_eq!(ChordPattern::Add13.intervals(), vec![0, 2, 4, 5]);
    assert_eq!(ChordPattern::PowerChord.intervals(), vec![0, 4]);
    assert_eq!(ChordPattern::Quartal3.intervals(), vec![0, 3, 6]);
    assert_eq!(ChordPattern::Quartal4.intervals(), vec![0, 3, 6, 2]);
    assert_eq!(ChordPattern::Cluster.intervals(), vec![0, 1, 2]);
}
