use harmony_lab::keyboard::{generate_keys, KEY_COUNT, WHITE_KEY_COUNT};

#[test]
fn keyboard_spans_a0_to_c8() {
    let keys = generate_keys();
    assert_eq!(keys.len(), KEY_COUNT);
    assert_eq!(keys[0].name, "A0");
    assert_eq!(keys[1].name, "A#0");
    assert_eq!(keys[3].name, "C1");
    assert_eq!(keys[39].name, "C4");
    assert_eq!(keys[48].name, "A4");
    assert_eq!(keys[87].name, "C8");
}

#[test]
fn key_numbers_and_pitch_classes() {
    let keys = generate_keys();
    for (i, k) in keys.iter().enumerate() {
        assert_eq!(k.number, i);
        assert_eq!(k.chromatic_idx, (i + 9) % 12);
    }
    assert_eq!(keys[48].chromatic_idx, 9);
}

#[test]
fn white_and_black_columns() {
    let keys = generate_keys();
    let whites: Vec<usize> = keys.iter().filter(|k| !k.is_black).map(|k| k.white_idx).collect();
    assert_eq!(whites.len(), WHITE_KEY_COUNT);
    assert_eq!(whites, (0..52).collect::<Vec<usize>>());
    assert_eq!(keys.iter().filter(|k| k.is_black).count(), 36);
    // A#0 sits on the column of A0; C#1 on that of C1.
    assert!(keys[1].is_black);
    assert_eq!(keys[1].white_idx, 0);
    assert!(keys[4].is_black);
    assert_eq!(keys[4].white_idx, 2);
    assert!(!keys[87].is_black);
    assert_eq!(keys[87].white_idx, 51);
}
