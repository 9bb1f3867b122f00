use harmony_lab::voicings::{generate_voicings, has_gap, is_playable, is_valid, open_pc, quality_signature, Voicing};
use harmony_lab::shapes::{shapes_for, Shape};
use std::collections::HashSet;

fn set(pcs: &[usize]) -> HashSet<usize> {
    pcs.iter().copied().collect()
}

fn frets(vs: &[Voicing]) -> Vec<[Option<u8>; 6]> {
    vs.iter().map(|v| v.frets).collect()
}

fn v(frets: [Option<u8>; 6]) -> Voicing {
    Voicing { frets }
}

#[test]
fn open_strings_are_e_a_d_g_b_e() {
    let pcs: Vec<usize> = (0..6).map(open_pc).collect();
    assert_eq!(pcs, vec![4, 9, 2, 7, 11, 4]);
}

#[test]
fn lowest_fret_ignores_open_and_muted_strings() {
    let c = v([None, Some(3), Some(2), Some(0), Some(1), Some(0)]);
    assert_eq!(c.lowest_fret(), 1);
    let e = v([Some(0), Some(2), Some(2), Some(1), Some(0), Some(0)]);
    assert_eq!(e.lowest_fret(), 1);
    let open = v([Some(0), None, Some(0), Some(0), None, Some(0)]);
    assert_eq!(open.lowest_fret(), 0);
    let muted = v([None; 6]);
    assert_eq!(muted.lowest_fret(), 0);
}

#[test]
fn span_is_highest_minus_lowest_fret() {
    let g = v([Some(3), Some(2), Some(0), Some(0), Some(0), Some(3)]);
    assert_eq!(g.span(), 1);
    let wide = v([Some(1), None, None, None, None, Some(7)]);
    assert_eq!(wide.span(), 6);
    assert_eq!(v([Some(0); 6]).span(), 0);
}

#[test]
fn strings_played_counts_unmuted_strings() {
    assert_eq!(v([None, Some(3), Some(2), Some(0), Some(1), Some(0)]).strings_played(), 5);
    assert_eq!(v([None; 6]).strings_played(), 0);
    assert_eq!(v([Some(0); 6]).strings_played(), 6);
}

#[test]
fn bass_pc_is_lowest_played_string() {
    // C shape: A string, 3rd fret = C.
    assert_eq!(v([None, Some(3), Some(2), Some(0), Some(1), Some(0)]).bass_pc(), Some(0));
    // E string, 3rd fret = G.
    assert_eq!(v([Some(3), Some(2), Some(0), Some(0), Some(0), Some(3)]).bass_pc(), Some(7));
    // Only the high E rings at fret 20: 4 + 20 = 24 -> 0.
    assert_eq!(v([None, None, None, None, None, Some(20)]).bass_pc(), Some(0));
    assert_eq!(v([None; 6]).bass_pc(), None);
}

#[test]
fn shape_apply_transposes_to_target_root() {
    let e_shape = Shape { pattern: [Some(0), Some(2), Some(2), Some(1), Some(0), Some(0)], root_string: 0, root_offset: 0 };
    // F major barre: 133211.
    let f = e_shape.apply(5).unwrap();
    assert_eq!(f.frets, [Some(1), Some(3), Some(3), Some(2), Some(1), Some(1)]);
    // E itself needs no shift.
    assert_eq!(e_shape.apply(4).unwrap().frets, e_shape.pattern);
    // D# moves the shape up 11 frets.
    assert_eq!(e_shape.apply(3).unwrap().frets, [Some(11), Some(13), Some(13), Some(12), Some(11), Some(11)]);
}

#[test]
fn shape_apply_refuses_frets_past_22() {
    let d_shape = Shape { pattern: [None, None, Some(0), Some(2), Some(3), Some(2)], root_string: 2, root_offset: 0 };
    // Root C# on the D string: shift 11, highest fret 3 + 11 = 14: fine.
    assert!(d_shape.apply(1).is_some());
    let high = Shape { pattern: [Some(12), None, None, None, None, None], root_string: 0, root_offset: 12 };
    // Template root (4 + 12) % 12 = 4; target 3 shifts by 11: 12 + 11 = 23 > 22.
    assert!(high.apply(3).is_none());
}

#[test]
fn shapes_for_knows_the_common_qualities() {
    assert_eq!(shapes_for(&[0, 4, 7]).unwrap().len(), 5);
    assert_eq!(shapes_for(&[0, 3, 7]).unwrap().len(), 3);
    assert_eq!(shapes_for(&[0, 4, 8]).unwrap().len(), 1);
    assert_eq!(shapes_for(&[0, 3, 6, 9]).unwrap().len(), 2);
    assert_eq!(shapes_for(&[0, 7]).unwrap().len(), 3);
    assert!(shapes_for(&[0, 4, 7, 9]).is_none());
    assert!(shapes_for(&[]).is_none());
}

#[test]
fn root_position_is_independent_of_pc_order() {
    // The same C major triad listed from its third: quality is taken from the
    // first note (E), so the intervals are [0, 3, 8] and the search runs.
    let got = generate_voicings(&[4, 7, 0], 0);
    for x in &got {
        assert_eq!(x.bass_pc(), Some(0));
    }
}

#[test]
fn results_are_ordered_by_lowest_fret() {
    for (pcs, root) in [(vec![0usize, 4, 7, 9], 0usize), (vec![2, 5, 9, 0, 4], 2), (vec![7, 11, 2, 5], 7)] {
        let got = generate_voicings(&pcs, root);
        for w in got.windows(2) {
            assert!(w[0].lowest_fret() <= w[1].lowest_fret());
            assert_ne!(w[0], w[1]);
        }
    }
}

#[test]
fn searched_voicings_have_distinct_positions_and_at_most_six() {
    let got = generate_voicings(&[0, 4, 7, 9], 0);
    assert!(got.len() <= 6);
    for i in 0..got.len() {
        for j in i + 1..got.len() {
            assert_ne!(got[i].lowest_fret() / 2, got[j].lowest_fret() / 2);
        }
    }
}

#[test]
fn c_major_triad_uses_shapes() {
    let got = generate_voicings(&[0, 4, 7], 0);
    let expected: Vec<[Option<u8>; 6]> = vec![
        [None, Some(3), Some(2), Some(0), Some(1), Some(0)],
        [None, Some(3), Some(5), Some(5), Some(5), Some(3)],
        [Some(8), Some(7), Some(5), Some(5), Some(5), Some(8)],
        [Some(8), Some(10), Some(10), Some(9), Some(8), Some(8)],
        [None, None, Some(10), Some(12), Some(13), Some(12)]
    ];
    assert_eq!(frets(&got), expected);
}

#[test]
fn a_minor_triad_uses_shapes() {
    let got = generate_voicings(&[9, 0, 4], 9);
    let expected: Vec<[Option<u8>; 6]> = vec![
        [None, Some(0), Some(2), Some(2), Some(1), Some(0)],
        [Some(5), Some(7), Some(7), Some(5), Some(5), Some(5)],
        [None, None, Some(7), Some(9), Some(10), Some(8)]
    ];
    assert_eq!(frets(&got), expected);
}

#[test]
fn g_dominant_seventh_uses_shapes() {
    let got = generate_voicings(&[7, 11, 2, 5], 7);
    let expected: Vec<[Option<u8>; 6]> = vec![
        [Some(3), Some(2), Some(0), Some(0), Some(0), Some(1)],
        [Some(3), Some(5), Some(3), Some(4), Some(3), Some(3)],
        [None, None, Some(5), Some(7), Some(6), Some(7)],
        [None, Some(10), Some(9), Some(10), Some(8), Some(7)],
        [None, Some(10), Some(12), Some(10), Some(12), Some(10)]
    ];
    assert_eq!(frets(&got), expected);
}

#[test]
fn c_sixth_chord_is_searched() {
    let got = generate_voicings(&[0, 4, 7, 9], 0);
    let expected: Vec<[Option<u8>; 6]> = vec![
        [None, Some(3), Some(2), Some(2), Some(1), Some(3)],
        [None, Some(3), Some(2), Some(0), Some(5), Some(5)],
        [Some(8), Some(0), Some(5), Some(0), Some(5), None],
        [Some(8), Some(0), Some(7), Some(0), Some(8), Some(0)],
        [Some(8), Some(0), Some(10), Some(0), Some(8), Some(0)],
        [None, None, Some(10), Some(0), Some(10), Some(0)]
    ];
    assert_eq!(frets(&got), expected);
}

#[test]
fn d_minor_eleventh_pcs_searched() {
    let got = generate_voicings(&[2, 5, 9, 0, 4], 2);
    let expected: Vec<[Option<u8>; 6]> = vec![
        [None, Some(5), Some(2), Some(2), Some(1), Some(1)],
        [None, Some(5), Some(2), Some(5), Some(6), Some(5)],
        [None, Some(5), Some(7), Some(5), Some(6), Some(0)],
        [Some(10), Some(0), Some(0), Some(9), Some(6), Some(8)],
        [Some(10), Some(8), Some(0), Some(9), Some(10), Some(8)],
        [Some(10), Some(0), Some(10), Some(10), Some(10), Some(0)]
    ];
    assert_eq!(frets(&got), expected);
}

#[test]
fn cluster_chord_searched() {
    let got = generate_voicings(&[0, 2, 4], 0);
    let expected: Vec<[Option<u8>; 6]> = vec![
        [None, Some(3), Some(0), Some(5), Some(1), Some(0)],
        [None, Some(3), Some(2), Some(5), Some(3), None],
        [Some(8), Some(5), Some(0), Some(5), Some(5), None],
        [Some(8), Some(7), Some(0), None, None, None],
        [None, None, Some(10), Some(9), Some(13), Some(10)],
        [None, Some(15), Some(0), Some(17), Some(13), Some(0)]
    ];
    assert_eq!(frets(&got), expected);
}

#[test]
fn e_thirteenth_six_notes_searched() {
    let got = generate_voicings(&[4, 7, 11, 2, 6, 9], 4);
    let expected: Vec<[Option<u8>; 6]> = vec![
        [Some(0), Some(0), Some(0), Some(0), Some(0), Some(2)],
        [Some(0), Some(5), Some(4), Some(0), Some(0), Some(5)],
        [Some(0), Some(0), Some(0), Some(0), Some(7), Some(7)],
        [Some(0), Some(0), Some(9), Some(11), Some(8), Some(10)],
        [Some(0), Some(10), Some(0), Some(14), Some(0), Some(14)],
        [Some(0), Some(0), Some(0), Some(0), Some(12), Some(14)]
    ];
    assert_eq!(frets(&got), expected);
}

#[test]
fn power_chord_uses_shapes() {
    let got = generate_voicings(&[0, 7], 0);
    let expected: Vec<[Option<u8>; 6]> = vec![
        [None, Some(3), Some(5), Some(5), None, None],
        [Some(8), Some(10), Some(10), None, None, None],
        [None, None, Some(10), Some(12), Some(13), None]
    ];
    assert_eq!(frets(&got), expected);
}

#[test]
fn diminished_seventh_uses_shapes() {
    let got = generate_voicings(&[11, 2, 5, 8], 11);
    let expected: Vec<[Option<u8>; 6]> = vec![
        [None, Some(2), Some(3), Some(1), Some(3), Some(1)],
        [Some(7), Some(8), Some(9), Some(7), Some(9), Some(7)]
    ];
    assert_eq!(frets(&got), expected);
}

#[test]
fn chromatic_cluster_searched() {
    let got = generate_voicings(&[0, 1, 2], 0);
    let expected: Vec<[Option<u8>; 6]> = vec![
        [None, Some(3), Some(0), Some(5), Some(2), None],
        [Some(8), Some(4), Some(0), None, None, None],
        [None, Some(15), Some(0), Some(17), Some(14), None],
        [Some(20), Some(16), Some(0), None, None, None]
    ];
    assert_eq!(frets(&got), expected);
}

#[test]
fn empty_chord_has_no_voicings() {
    let got = generate_voicings(&Vec::<usize>::new(), 0);
    let expected: Vec<[Option<u8>; 6]> = vec![
        
    ];
    assert_eq!(frets(&got), expected);
}

#[test]
fn f_major_ninth_searched() {
    let got = generate_voicings(&[5, 9, 0, 4, 7], 5);
    let expected: Vec<[Option<u8>; 6]> = vec![
        [Some(1), Some(0), Some(2), Some(0), Some(1), None],
        [None, Some(8), Some(5), Some(5), Some(5), Some(5)],
        [None, Some(8), Some(7), Some(9), Some(8), Some(8)],
        [None, Some(8), Some(10), Some(0), Some(10), Some(0)],
        [Some(13), Some(0), Some(10), Some(0), Some(10), Some(0)],
        [Some(13), Some(0), Some(14), Some(0), Some(13), Some(12)]
    ];
    assert_eq!(frets(&got), expected);
}

#[test]
fn quality_signature_is_key_independent() {
    assert_eq!(quality_signature(&[0, 4, 7]), vec![0, 4, 7]);
    assert_eq!(quality_signature(&[2, 6, 9]), vec![0, 4, 7]);
    assert_eq!(quality_signature(&[9, 1, 4]), vec![0, 4, 7]);
    // Order after the first note and repeats do not matter.
    assert_eq!(quality_signature(&[7, 2, 11, 7, 5]), vec![0, 4, 7, 10]);
    assert_eq!(quality_signature(&[]), Vec::<usize>::new());
    for k in 0..12 {
        let moved: Vec<usize> = [0usize, 3, 6, 10].iter().map(|p| (p + k) % 12).collect();
        assert_eq!(quality_signature(&moved), vec![0, 3, 6, 10]);
    }
}

#[test]
fn transposed_shapes_sound_the_root_on_the_root_string() {
    for sig in [vec![0usize, 4, 7], vec![0, 3, 7], vec![0, 4, 8], vec![0, 2, 7], vec![0, 5, 7], vec![0, 7],
                vec![0, 4, 7, 10], vec![0, 4, 7, 11], vec![0, 3, 7, 10], vec![0, 3, 6, 10], vec![0, 3, 6, 9], vec![0, 5, 7, 10]] {
        for shape in shapes_for(&sig).unwrap() {
            for t in 0..12 {
                if let Some(x) = shape.apply(t) {
                    let fret = x.frets[shape.root_string].unwrap() as usize;
                    assert_eq!((open_pc(shape.root_string) + fret) % 12, t);
                }
            }
        }
    }
}

#[test]
fn playable_voicings_span_at_most_four_frets() {
    let ok = v([Some(5), Some(7), Some(7), Some(6), Some(5), Some(5)]);
    assert!(is_playable(&ok));
    assert!(ok.span() <= 4);
    let stretch = v([Some(1), None, None, None, None, Some(6)]);
    assert!(!is_playable(&stretch));
    // Five fingers above the lowest fret are too many.
    let crowded = v([Some(1), Some(2), Some(2), Some(2), Some(2), Some(2)]);
    assert!(!is_playable(&crowded));
    assert!(is_playable(&v([Some(0); 6])));
}

#[test]
fn validity_checks_of_the_search() {
    assert!(has_gap(&v([Some(0), None, Some(2), None, None, None])));
    assert!(!has_gap(&v([None, Some(3), Some(2), Some(0), Some(1), None])));
    let c6 = v([None, Some(3), Some(2), Some(2), Some(1), Some(3)]);
    assert!(is_valid(&c6, &set(&[0, 4, 7, 9]), 0));
    // Missing the sixth.
    assert!(!is_valid(&v([None, Some(3), Some(2), Some(0), Some(1), Some(0)]), &set(&[0, 4, 7, 9]), 0));
    // Wrong bass.
    assert!(!is_valid(&c6, &set(&[0, 4, 7, 9]), 4));
    // Too few strings.
    assert!(!is_valid(&v([None, Some(3), Some(2), None, None, None]), &set(&[0, 4]), 0));
}

#[test]
fn every_generated_voicing_is_playable() {
    for (pcs, root) in [(vec![0usize, 4, 7, 9], 0usize), (vec![4, 7, 11, 2, 6, 9], 4), (vec![0, 4, 7], 0)] {
        let got = generate_voicings(&pcs, root);
        for x in &got {
            assert!(is_playable(x));
            assert!(x.frets.iter().flatten().all(|f| *f <= 22));
        }
        if pcs.len() != 3 {
            for x in &got {
                assert!(is_valid(x, &set(&pcs), root));
            }
        }
    }
}
