use harmony_lab::labels::{degree_triad, digit, roman, voicing_label};
use harmony_lab::voicings::Voicing;

#[test]
fn roman_numerals_by_quality() {
    assert_eq!(roman(0, 4, 7), ("I", "M"));
    assert_eq!(roman(1, 3, 7), ("ii", "m"));
    assert_eq!(roman(6, 3, 6), ("vii°", "dim"));
    assert_eq!(roman(2, 4, 8), ("III+", "aug"));
    assert_eq!(roman(4, 2, 7), ("V", "?"));
}

#[test]
fn degrees_past_seven_use_the_seventh_numeral() {
    assert_eq!(roman(7, 4, 7), ("VII", "M"));
    assert_eq!(roman(11, 3, 7), ("vii", "m"));
}

#[test]
fn triads_of_c_major() {
    let c_major = [0, 2, 4, 5, 7, 9, 11];
    assert_eq!(degree_triad(&c_major, 0), (0, 4, 7));
    assert_eq!(degree_triad(&c_major, 1), (2, 3, 7));
    assert_eq!(degree_triad(&c_major, 6), (11, 3, 6));
    // Wrapping: the fifth of the sixth degree (A) is E, two scale steps past the end.
    assert_eq!(degree_triad(&c_major, 5), (9, 3, 7));
}

#[test]
fn triad_on_a_pentatonic_degree() {
    let pent = [0, 2, 4, 7, 9];
    // Degree 3 (G): third = C (index 0), fifth = E (index 2).
    assert_eq!(degree_triad(&pent, 3), (7, 5, 9));
}

#[test]
fn voicing_labels() {
    let open = Voicing { frets: [None, Some(3), Some(2), Some(0), Some(1), Some(0)] };
    assert_eq!(voicing_label(&open), "Pos. I");
    let all_open = Voicing { frets: [Some(0), None, Some(0), Some(0), None, Some(0)] };
    assert_eq!(voicing_label(&all_open), "Open");
    let fifth = Voicing { frets: [Some(5), Some(7), Some(7), Some(5), Some(5), Some(5)] };
    assert_eq!(voicing_label(&fifth), "Pos. V");
    let eighteen = Voicing { frets: [Some(18), None, None, None, None, None] };
    assert_eq!(voicing_label(&eighteen), "Pos. XVIII");
    let nineteen = Voicing { frets: [Some(19), None, None, None, None, None] };
    assert_eq!(voicing_label(&nineteen), "Pos. 19");
    let huge = Voicing { frets: [Some(200), None, None, None, None, None] };
    assert_eq!(voicing_label(&huge), "Pos. 200");
    let nine = Voicing { frets: [Some(9), Some(0), None, None, None, None] };
    assert_eq!(voicing_label(&nine), "Pos. IX");
}

#[test]
fn digits() {
    let ds: Vec<&str> = (0..10).map(digit).collect();
    assert_eq!(ds.concat(), "0123456789");
}
