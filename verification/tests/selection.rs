use harmony_lab::selection::{GuitarState, NoteRole, Selection};
use harmony_lab::theory::ChordPattern;

fn sel(root: usize, scale_idx: usize, chord_deg: Option<usize>, chord_pattern: ChordPattern) -> Selection {
    Selection { root, scale_idx, chord_deg, chord_pattern }
}

#[test]
fn initial_selection_is_c_major() {
    let s = Selection::new();
    assert_eq!((s.root, s.scale_idx, s.chord_deg, s.chord_pattern), (0, 1, None, ChordPattern::Triad));
}

#[test]
fn current_scale_of_d_major() {
    assert_eq!(sel(2, 1, None, ChordPattern::Triad).current_scale(), vec![2, 4, 6, 7, 9, 11, 1]);
}

#[test]
fn current_scale_wraps_past_b() {
    // A natural minor: A B C D E F G.
    assert_eq!(sel(9, 6, None, ChordPattern::Triad).current_scale(), vec![9, 11, 0, 2, 4, 5, 7]);
}

#[test]
fn active_chord_is_empty_without_degree() {
    assert!(sel(0, 1, None, ChordPattern::Triad).active_chord().is_empty());
}

#[test]
fn active_chord_on_degrees() {
    // D major, second degree: E minor.
    assert_eq!(sel(2, 1, Some(1), ChordPattern::Triad).active_chord(), vec![4, 7, 11]);
    // D major, seventh degree seventh chord: C# half-diminished.
    assert_eq!(sel(2, 1, Some(6), ChordPattern::Seventh).active_chord(), vec![1, 4, 7, 11]);
    // C major thirteenth on the first degree uses every scale note.
    assert_eq!(sel(0, 1, Some(0), ChordPattern::Thirteenth).active_chord(), vec![0, 4, 7, 11, 2, 5, 9]);
    // Pentatonic scale wraps after five notes.
    assert_eq!(sel(0, 20, Some(3), ChordPattern::Triad).active_chord(), vec![7, 0, 4]);
}

#[test]
fn chord_notes_belong_to_the_scale() {
    for scale_idx in 0..23 {
        for deg in 0..5 {
            let s = sel(5, scale_idx, Some(deg), ChordPattern::Eleventh);
            let scale = s.current_scale();
            for n in s.active_chord() {
                assert!(scale.contains(&n));
            }
        }
    }
}

#[test]
fn note_roles() {
    let chord = vec![0, 4, 7];
    let scale = vec![0, 2, 4, 5, 7, 9, 11];
    let no_scale = sel(0, 0, Some(0), ChordPattern::Triad);
    assert_eq!(no_scale.note_role(&scale, &chord, 1), NoteRole::AllNotes);
    let with_chord = sel(0, 1, Some(0), ChordPattern::Triad);
    assert_eq!(with_chord.note_role(&scale, &chord, 4), NoteRole::InChord);
    assert_eq!(with_chord.note_role(&scale, &chord, 2), NoteRole::OutsideChord);
    let scale_only = sel(0, 1, None, ChordPattern::Triad);
    assert_eq!(scale_only.note_role(&scale, &chord, 2), NoteRole::InScale);
    assert_eq!(scale_only.note_role(&scale, &chord, 1), NoteRole::OutsideScale);
}

#[test]
fn changing_root_or_scale_clears_the_chord() {
    let mut s = sel(0, 1, Some(3), ChordPattern::Triad);
    s.set_root(0);
    assert_eq!(s.chord_deg, Some(3));
    s.set_root(7);
    assert_eq!((s.root, s.chord_deg), (7, None));
    s.chord_deg = Some(2);
    s.set_scale(1);
    assert_eq!(s.chord_deg, Some(2));
    s.set_scale(6);
    assert_eq!((s.scale_idx, s.chord_deg), (6, None));
}

#[test]
fn toggling_a_degree() {
    let mut s = sel(0, 1, None, ChordPattern::Triad);
    s.toggle_degree(4);
    assert_eq!(s.chord_deg, Some(4));
    s.toggle_degree(2);
    assert_eq!(s.chord_deg, Some(2));
    s.toggle_degree(2);
    assert_eq!(s.chord_deg, None);
}

#[test]
fn circle_of_fifths_clicks_choose_keys() {
    let mut s = sel(3, 12, Some(1), ChordPattern::Sus4);
    s.choose_major_key(7);
    assert_eq!((s.root, s.scale_idx, s.chord_deg, s.chord_pattern), (7, 1, None, ChordPattern::Sus4));
    s.choose_minor_key(4);
    assert_eq!((s.root, s.scale_idx, s.chord_deg), (4, 6, None));
}

#[test]
fn guitar_state_refreshes_only_when_selection_changes() {
    let mut g = GuitarState::new();
    g.refresh_voicings_if_needed();
    assert!(g.voicings_cache.is_empty());
    assert_eq!(g.cache_key, None);

    g.selection.chord_deg = Some(0);
    g.refresh_voicings_if_needed();
    assert_eq!(g.cache_key, Some((0, 1, ChordPattern::Triad, 0)));
    let firsts: Vec<[Option<u8>; 6]> = g.voicings_cache.iter().map(|v| v.frets).collect();
    assert_eq!(firsts.len(), 5);
    assert_eq!(firsts[0], [None, Some(3), Some(2), Some(0), Some(1), Some(0)]);

    g.select_voicing(2);
    assert_eq!(g.selected_voicing, Some(2));
    g.refresh_voicings_if_needed();
    assert_eq!(g.selected_voicing, Some(2));

    g.selection.chord_deg = Some(5);
    g.refresh_voicings_if_needed();
    assert_eq!(g.selected_voicing, None);
    assert_eq!(g.cache_key, Some((0, 1, ChordPattern::Triad, 5)));
    // A minor from the shape table.
    assert_eq!(g.voicings_cache.len(), 3);
    assert_eq!(g.voicings_cache[0].frets, [None, Some(0), Some(2), Some(2), Some(1), Some(0)]);

    g.selection.chord_deg = None;
    g.refresh_voicings_if_needed();
    assert!(g.voicings_cache.is_empty());
    assert_eq!(g.cache_key, None);
}

#[test]
fn selecting_a_voicing_twice_hides_it() {
    let mut g = GuitarState::new();
    g.select_voicing(1);
    assert_eq!(g.selected_voicing, Some(1));
    g.select_voicing(1);
    assert_eq!(g.selected_voicing, None);
}

#[test]
fn frets_lit_on_the_neck() {
    let mut g = GuitarState::new();
    g.selection.chord_deg = Some(0);
    g.refresh_voicings_if_needed();
    let scale = g.selection.current_scale();
    let chord = g.selection.active_chord();
    // No voicing shown: chord tones are lit. Low E open is E, a chord tone.
    assert!(g.fret_is_active(0, 0, 4, &scale, &chord));
    assert!(!g.fret_is_active(0, 2, 6, &scale, &chord));
    // With the open C voicing shown, only its frets are lit.
    g.select_voicing(0);
    assert!(g.fret_is_active(1, 3, 0, &scale, &chord));
    assert!(!g.fret_is_active(0, 0, 4, &scale, &chord));
    assert!(!g.fret_is_active(1, 0, 9, &scale, &chord));
}
