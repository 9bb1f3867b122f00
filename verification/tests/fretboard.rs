use harmony_lab::fretboard::{diagram_mark, diagram_start, fret_inlay, neck_pc, Inlay, StringMark};
use harmony_lab::voicings::Voicing;

#[test]
fn neck_notes() {
    assert_eq!(neck_pc(0, 0), 4);
    assert_eq!(neck_pc(0, 5), 9);
    assert_eq!(neck_pc(5, 24), 4);
    assert_eq!(neck_pc(4, 1), 0);
}

#[test]
fn inlays() {
    let dots: Vec<usize> = (0..=24).filter(|f| fret_inlay(*f) == Inlay::Dot).collect();
    assert_eq!(dots, vec![3, 5, 7, 9, 15, 17, 19, 21]);
    assert_eq!(fret_inlay(12), Inlay::DoubleDot);
    assert_eq!(fret_inlay(24), Inlay::DoubleDot);
    assert_eq!(fret_inlay(1), Inlay::Plain);
}

#[test]
fn diagram_of_open_c() {
    let c = Voicing { frets: [None, Some(3), Some(2), Some(0), Some(1), Some(0)] };
    assert_eq!(diagram_start(&c), 0);
    assert_eq!(diagram_mark(&c, 0), StringMark::Muted);
    assert_eq!(diagram_mark(&c, 1), StringMark::Fretted { row: 3, pc: 0 });
    assert_eq!(diagram_mark(&c, 3), StringMark::Open);
    assert_eq!(diagram_mark(&c, 4), StringMark::Fretted { row: 1, pc: 0 });
}

#[test]
fn diagram_of_a_barre_higher_up() {
    let b = Voicing { frets: [Some(7), Some(9), Some(9), Some(8), Some(7), Some(7)] };
    assert_eq!(diagram_start(&b), 6);
    assert_eq!(diagram_mark(&b, 0), StringMark::Fretted { row: 1, pc: 11 });
    assert_eq!(diagram_mark(&b, 1), StringMark::Fretted { row: 3, pc: 6 });
    assert_eq!(diagram_mark(&b, 3), StringMark::Fretted { row: 2, pc: 3 });
}
