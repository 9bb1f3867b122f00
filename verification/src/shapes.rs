//! Movable chord shapes and the chord qualities they voice.
//!
//! Each shape is an open-position form (an E, A, D, C or G grip) together with
//! the string and fret of its root; transposing it adds the same number of
//! frets to every played string.

use vstd::prelude::*;
use crate::voicings::{spec_open_pc, open_pc, Voicing, MAX_FRET, string_pc};

verus! {

/// An open-position chord form and where its root lies.
#[derive(Clone, Copy)]
pub struct Shape {
    pub pattern: [Option<u8>; 6],
    pub root_string: usize,
    pub root_offset: u8,
}

/// Frets to add to the shape so that its root becomes pitch class `target`.
pub open spec fn shape_shift(shape: Shape, target: int) -> int {
    let template_root = (spec_open_pc(shape.root_string as int) + shape.root_offset) % 12;
    (target + 12 - template_root) % 12
}

/// String `i` of the shape would go past the last fret after the shift.
pub open spec fn overflows(shape: Shape, shift: int, i: int) -> bool {
    shape.pattern@[i] is Some && shape.pattern@[i]->0 + shift > MAX_FRET
}

/// The frets of the shape moved up by `shift`.
pub open spec fn shifted(shape: Shape, shift: int) -> Seq<Option<u8>> {
    Seq::new(
        6,
        |i: int|
            match shape.pattern@[i] {
                Some(p) => Some((p + shift) as u8),
                None => None,
            },
    )
}

/// The shape transposed to root `target`, unless a note would pass the last fret.
pub open spec fn spec_apply(shape: Shape, target: int) -> Option<Seq<Option<u8>>> {
    let shift = shape_shift(shape, target);
    if exists|i: int| 0 <= i < 6 && #[trigger] overflows(shape, shift, i) {
        None
    } else {
        Some(shifted(shape, shift))
    }
}

impl Shape {
    /// Transposes the shape so that its root sounds pitch class `target_root_pc`
    /// (taken modulo 12); `None` when a note would lie beyond the last fret.
    pub fn apply(&self, target_root_pc: usize) -> (r: Option<Voicing>)
        requires
            self.root_string < 6,
            target_root_pc + 12 <= usize::MAX,
        ensures
            match r {
                None => spec_apply(*self, target_root_pc as int) is None,
                Some(v) => spec_apply(*self, target_root_pc as int) == Some(v.frets@),
            },
    {
        let tmpl_root_pc = (open_pc(self.root_string) + self.root_offset as usize) % 12;
        let shift = (target_root_pc + 12 - tmpl_root_pc) % 12;
        let ghost sh = shape_shift(*self, target_root_pc as int);
        assert(shift == sh);
        let mut frets: [Option<u8>; 6] = [None, None, None, None, None, None];
        let mut i: usize = 0;
        while i < 6
            invariant
                0 <= i <= 6,
                shift == sh,
                sh == shape_shift(*self, target_root_pc as int),
                shift < 12,
                forall|j: int| 0 <= j < i ==> !#[trigger] overflows(*self, sh, j),
                forall|j: int| 0 <= j < i ==> frets@[j] == #[trigger] shifted(*self, sh)[j],
                forall|j: int| i <= j < 6 ==> frets@[j] is None,
            decreases 6 - i,
        {
            match self.pattern[i] {
                Some(p) => {
                    let new_fret = p as usize + shift;
                    if new_fret > 22 {
                        proof {
                            assert(overflows(*self, sh, i as int));
                            assert(spec_apply(*self, target_root_pc as int) is None);
                        }
                        return None;
                    }
                    frets[i] = Some(new_fret as u8);
                },
                None => {},
            }
            proof {
                assert(!overflows(*self, sh, i as int));
                assert(frets@[i as int] == shifted(*self, sh)[i as int]);
            }
            i += 1;
        }
        proof {
            assert(frets@ =~= shifted(*self, sh));
        }
        Some(Voicing { frets })
    }
}

/// Major triad shapes (1-3-5): the E, A, D, C and G forms.
pub open spec fn spec_shapes_major() -> Seq<Shape> {
    seq![
        Shape { pattern: [Some(0), Some(2), Some(2), Some(1), Some(0), Some(0)], root_string: 0, root_offset: 0 },
        Shape { pattern: [None, Some(0), Some(2), Some(2), Some(2), Some(0)], root_string: 1, root_offset: 0 },
        Shape { pattern: [None, None, Some(0), Some(2), Some(3), Some(2)], root_string: 2, root_offset: 0 },
        Shape { pattern: [None, Some(3), Some(2), Some(0), Some(1), Some(0)], root_string: 1, root_offset: 3 },
        Shape { pattern: [Some(3), Some(2), Some(0), Some(0), Some(0), Some(3)], root_string: 0, root_offset: 3 },
    ]
}

/// The MINOR shapes.
pub open spec fn spec_shapes_minor() -> Seq<Shape> {
    seq![
        Shape { pattern: [Some(0), Some(2), Some(2), Some(0), Some(0), Some(0)], root_string: 0, root_offset: 0 },
        Shape { pattern: [None, Some(0), Some(2), Some(2), Some(1), Some(0)], root_string: 1, root_offset: 0 },
        Shape { pattern: [None, None, Some(0), Some(2), Some(3), Some(1)], root_string: 2, root_offset: 0 },
    ]
}

/// The DOM7 shapes.
pub open spec fn spec_shapes_dom7() -> Seq<Shape> {
    seq![
        Shape { pattern: [Some(0), Some(2), Some(0), Some(1), Some(0), Some(0)], root_string: 0, root_offset: 0 },
        Shape { pattern: [None, Some(0), Some(2), Some(0), Some(2), Some(0)], root_string: 1, root_offset: 0 },
        Shape { pattern: [None, None, Some(0), Some(2), Some(1), Some(2)], root_string: 2, root_offset: 0 },
        Shape { pattern: [None, Some(3), Some(2), Some(3), Some(1), Some(0)], root_string: 1, root_offset: 3 },
        Shape { pattern: [Some(3), Some(2), Some(0), Some(0), Some(0), Some(1)], root_string: 0, root_offset: 3 },
    ]
}

/// The MAJ7 shapes.
pub open spec fn spec_shapes_maj7() -> Seq<Shape> {
    seq![
        Shape { pattern: [Some(0), Some(2), Some(1), Some(1), Some(0), Some(0)], root_string: 0, root_offset: 0 },
        Shape { pattern: [None, Some(0), Some(2), Some(1), Some(2), Some(0)], root_string: 1, root_offset: 0 },
        Shape { pattern: [None, None, Some(0), Some(2), Some(2), Some(2)], root_string: 2, root_offset: 0 },
        Shape { pattern: [None, Some(3), Some(2), Some(0), Some(0), Some(0)], root_string: 1, root_offset: 3 },
        Shape { pattern: [Some(3), Some(2), Some(0), Some(0), Some(0), Some(2)], root_string: 0, root_offset: 3 },
    ]
}

/// The MIN7 shapes.
pub open spec fn spec_shapes_min7() -> Seq<Shape> {
    seq![
        Shape { pattern: [Some(0), Some(2), Some(0), Some(0), Some(0), Some(0)], root_string: 0, root_offset: 0 },
        Shape { pattern: [None, Some(0), Some(2), Some(0), Some(1), Some(0)], root_string: 1, root_offset: 0 },
        Shape { pattern: [None, None, Some(0), Some(2), Some(1), Some(1)], root_string: 2, root_offset: 0 },
    ]
}

/// The M7B5 shapes.
pub open spec fn spec_shapes_m7b5() -> Seq<Shape> {
    seq![
        Shape { pattern: [Some(0), Some(1), Some(2), Some(0), Some(3), Some(0)], root_string: 0, root_offset: 0 },
        Shape { pattern: [None, Some(0), Some(1), Some(0), Some(1), None], root_string: 1, root_offset: 0 },
        Shape { pattern: [None, None, Some(0), Some(1), Some(1), Some(1)], root_string: 2, root_offset: 0 },
    ]
}

/// The DIM7 shapes.
pub open spec fn spec_shapes_dim7() -> Seq<Shape> {
    seq![
        Shape { pattern: [None, Some(2), Some(3), Some(1), Some(3), Some(1)], root_string: 1, root_offset: 2 },
        Shape { pattern: [Some(0), Some(1), Some(2), Some(0), Some(2), Some(0)], root_string: 0, root_offset: 0 },
    ]
}

/// The AUG shapes.
pub open spec fn spec_shapes_aug() -> Seq<Shape> {
    seq![
        Shape { pattern: [Some(0), Some(3), Some(2), Some(1), Some(1), Some(0)], root_string: 0, root_offset: 0 },
    ]
}

/// The SUS2 shapes.
pub open spec fn spec_shapes_sus2() -> Seq<Shape> {
    seq![
        Shape { pattern: [None, Some(0), Some(2), Some(2), Some(0), Some(0)], root_string: 1, root_offset: 0 },
        Shape { pattern: [None, None, Some(0), Some(2), Some(3), Some(0)], root_string: 2, root_offset: 0 },
    ]
}

/// The SUS4 shapes.
pub open spec fn spec_shapes_sus4() -> Seq<Shape> {
    seq![
        Shape { pattern: [Some(0), Some(2), Some(2), Some(2), Some(0), Some(0)], root_string: 0, root_offset: 0 },
        Shape { pattern: [None, Some(0), Some(2), Some(2), Some(3), Some(0)], root_string: 1, root_offset: 0 },
        Shape { pattern: [None, None, Some(0), Some(2), Some(3), Some(3)], root_string: 2, root_offset: 0 },
    ]
}

/// The SEVEN_SUS4 shapes.
pub open spec fn spec_shapes_seven_sus4() -> Seq<Shape> {
    seq![
        Shape { pattern: [Some(0), Some(2), Some(0), Some(2), Some(0), Some(0)], root_string: 0, root_offset: 0 },
        Shape { pattern: [None, Some(0), Some(2), Some(0), Some(3), Some(0)], root_string: 1, root_offset: 0 },
        Shape { pattern: [None, None, Some(0), Some(2), Some(1), Some(3)], root_string: 2, root_offset: 0 },
    ]
}

/// The POWER shapes.
pub open spec fn spec_shapes_power() -> Seq<Shape> {
    seq![
        Shape { pattern: [Some(0), Some(2), Some(2), None, None, None], root_string: 0, root_offset: 0 },
        Shape { pattern: [None, Some(0), Some(2), Some(2), None, None], root_string: 1, root_offset: 0 },
        Shape { pattern: [None, None, Some(0), Some(2), Some(3), None], root_string: 2, root_offset: 0 },
    ]
}

fn shapes_major() -> (r: Vec<Shape>)
    ensures
        r@ == spec_shapes_major(),
{
    let mut r: Vec<Shape> = Vec::new();
    r.push(Shape { pattern: [Some(0), Some(2), Some(2), Some(1), Some(0), Some(0)], root_string: 0, root_offset: 0 });
    r.push(Shape { pattern: [None, Some(0), Some(2), Some(2), Some(2), Some(0)], root_string: 1, root_offset: 0 });
    r.push(Shape { pattern: [None, None, Some(0), Some(2), Some(3), Some(2)], root_string: 2, root_offset: 0 });
    r.push(Shape { pattern: [None, Some(3), Some(2), Some(0), Some(1), Some(0)], root_string: 1, root_offset: 3 });
    r.push(Shape { pattern: [Some(3), Some(2), Some(0), Some(0), Some(0), Some(3)], root_string: 0, root_offset: 3 });
    r
}

fn shapes_minor() -> (r: Vec<Shape>)
    ensures
        r@ == spec_shapes_minor(),
{
    let mut r: Vec<Shape> = Vec::new();
    r.push(Shape { pattern: [Some(0), Some(2), Some(2), Some(0), Some(0), Some(0)], root_string: 0, root_offset: 0 });
    r.push(Shape { pattern: [None, Some(0), Some(2), Some(2), Some(1), Some(0)], root_string: 1, root_offset: 0 });
    r.push(Shape { pattern: [None, None, Some(0), Some(2), Some(3), Some(1)], root_string: 2, root_offset: 0 });
    r
}

fn shapes_dom7() -> (r: Vec<Shape>)
    ensures
        r@ == spec_shapes_dom7(),
{
    let mut r: Vec<Shape> = Vec::new();
    r.push(Shape { pattern: [Some(0), Some(2), Some(0), Some(1), Some(0), Some(0)], root_string: 0, root_offset: 0 });
    r.push(Shape { pattern: [None, Some(0), Some(2), Some(0), Some(2), Some(0)], root_string: 1, root_offset: 0 });
    r.push(Shape { pattern: [None, None, Some(0), Some(2), Some(1), Some(2)], root_string: 2, root_offset: 0 });
    r.push(Shape { pattern: [None, Some(3), Some(2), Some(3), Some(1), Some(0)], root_string: 1, root_offset: 3 });
    r.push(Shape { pattern: [Some(3), Some(2), Some(0), Some(0), Some(0), Some(1)], root_string: 0, root_offset: 3 });
    r
}

fn shapes_maj7() -> (r: Vec<Shape>)
    ensures
        r@ == spec_shapes_maj7(),
{
    let mut r: Vec<Shape> = Vec::new();
    r.push(Shape { pattern: [Some(0), Some(2), Some(1), Some(1), Some(0), Some(0)], root_string: 0, root_offset: 0 });
    r.push(Shape { pattern: [None, Some(0), Some(2), Some(1), Some(2), Some(0)], root_string: 1, root_offset: 0 });
    r.push(Shape { pattern: [None, None, Some(0), Some(2), Some(2), Some(2)], root_string: 2, root_offset: 0 });
    r.push(Shape { pattern: [None, Some(3), Some(2), Some(0), Some(0), Some(0)], root_string: 1, root_offset: 3 });
    r.push(Shape { pattern: [Some(3), Some(2), Some(0), Some(0), Some(0), Some(2)], root_string: 0, root_offset: 3 });
    r
}

fn shapes_min7() -> (r: Vec<Shape>)
    ensures
        r@ == spec_shapes_min7(),
{
    let mut r: Vec<Shape> = Vec::new();
    r.push(Shape { pattern: [Some(0), Some(2), Some(0), Some(0), Some(0), Some(0)], root_string: 0, root_offset: 0 });
    r.push(Shape { pattern: [None, Some(0), Some(2), Some(0), Some(1), Some(0)], root_string: 1, root_offset: 0 });
    r.push(Shape { pattern: [None, None, Some(0), Some(2), Some(1), Some(1)], root_string: 2, root_offset: 0 });
    r
}

fn shapes_m7b5() -> (r: Vec<Shape>)
    ensures
        r@ == spec_shapes_m7b5(),
{
    let mut r: Vec<Shape> = Vec::new();
    r.push(Shape { pattern: [Some(0), Some(1), Some(2), Some(0), Some(3), Some(0)], root_string: 0, root_offset: 0 });
    r.push(Shape { pattern: [None, Some(0), Some(1), Some(0), Some(1), None], root_string: 1, root_offset: 0 });
    r.push(Shape { pattern: [None, None, Some(0), Some(1), Some(1), Some(1)], root_string: 2, root_offset: 0 });
    r
}

fn shapes_dim7() -> (r: Vec<Shape>)
    ensures
        r@ == spec_shapes_dim7(),
{
    let mut r: Vec<Shape> = Vec::new();
    r.push(Shape { pattern: [None, Some(2), Some(3), Some(1), Some(3), Some(1)], root_string: 1, root_offset: 2 });
    r.push(Shape { pattern: [Some(0), Some(1), Some(2), Some(0), Some(2), Some(0)], root_string: 0, root_offset: 0 });
    r
}

fn shapes_aug() -> (r: Vec<Shape>)
    ensures
        r@ == spec_shapes_aug(),
{
    let mut r: Vec<Shape> = Vec::new();
    r.push(Shape { pattern: [Some(0), Some(3), Some(2), Some(1), Some(1), Some(0)], root_string: 0, root_offset: 0 });
    r
}

fn shapes_sus2() -> (r: Vec<Shape>)
    ensures
        r@ == spec_shapes_sus2(),
{
    let mut r: Vec<Shape> = Vec::new();
    r.push(Shape { pattern: [None, Some(0), Some(2), Some(2), Some(0), Some(0)], root_string: 1, root_offset: 0 });
    r.push(Shape { pattern: [None, None, Some(0), Some(2), Some(3), Some(0)], root_string: 2, root_offset: 0 });
    r
}

fn shapes_sus4() -> (r: Vec<Shape>)
    ensures
        r@ == spec_shapes_sus4(),
{
    let mut r: Vec<Shape> = Vec::new();
    r.push(Shape { pattern: [Some(0), Some(2), Some(2), Some(2), Some(0), Some(0)], root_string: 0, root_offset: 0 });
    r.push(Shape { pattern: [None, Some(0), Some(2), Some(2), Some(3), Some(0)], root_string: 1, root_offset: 0 });
    r.push(Shape { pattern: [None, None, Some(0), Some(2), Some(3), Some(3)], root_string: 2, root_offset: 0 });
    r
}

fn shapes_seven_sus4() -> (r: Vec<Shape>)
    ensures
        r@ == spec_shapes_seven_sus4(),
{
    let mut r: Vec<Shape> = Vec::new();
    r.push(Shape { pattern: [Some(0), Some(2), Some(0), Some(2), Some(0), Some(0)], root_string: 0, root_offset: 0 });
    r.push(Shape { pattern: [None, Some(0), Some(2), Some(0), Some(3), Some(0)], root_string: 1, root_offset: 0 });
    r.push(Shape { pattern: [None, None, Some(0), Some(2), Some(1), Some(3)], root_string: 2, root_offset: 0 });
    r
}

fn shapes_power() -> (r: Vec<Shape>)
    ensures
        r@ == spec_shapes_power(),
{
    let mut r: Vec<Shape> = Vec::new();
    r.push(Shape { pattern: [Some(0), Some(2), Some(2), None, None, None], root_string: 0, root_offset: 0 });
    r.push(Shape { pattern: [None, Some(0), Some(2), Some(2), None, None], root_string: 1, root_offset: 0 });
    r.push(Shape { pattern: [None, None, Some(0), Some(2), Some(3), None], root_string: 2, root_offset: 0 });
    r
}

/// The chord qualities with hand-made shapes, by their interval signature
/// (sorted distinct semitones above the root).
pub open spec fn spec_shapes_for(sig: Seq<usize>) -> Option<Seq<Shape>> {
    if sig == seq![0usize, 4, 7] { Some(spec_shapes_major()) }
    else if sig == seq![0usize, 3, 7] { Some(spec_shapes_minor()) }
    else if sig == seq![0usize, 4, 8] { Some(spec_shapes_aug()) }
    else if sig == seq![0usize, 2, 7] { Some(spec_shapes_sus2()) }
    else if sig == seq![0usize, 5, 7] { Some(spec_shapes_sus4()) }
    else if sig == seq![0usize, 7] { Some(spec_shapes_power()) }
    else if sig == seq![0usize, 4, 7, 10] { Some(spec_shapes_dom7()) }
    else if sig == seq![0usize, 4, 7, 11] { Some(spec_shapes_maj7()) }
    else if sig == seq![0usize, 3, 7, 10] { Some(spec_shapes_min7()) }
    else if sig == seq![0usize, 3, 6, 10] { Some(spec_shapes_m7b5()) }
    else if sig == seq![0usize, 3, 6, 9] { Some(spec_shapes_dim7()) }
    else if sig == seq![0usize, 5, 7, 10] { Some(spec_shapes_seven_sus4()) }
    else { None }
}

/// Every shape of the tables names a string for its root.
pub open spec fn shapes_well_formed(shapes: Seq<Shape>) -> bool {
    forall|k: int| 0 <= k < shapes.len() ==> (#[trigger] shapes[k]).root_string < 6
}

fn same_signature(intervals: &[usize], expected: &[usize]) -> (r: bool)
    ensures
        r == (intervals@ == expected@),
{
    if intervals.len() != expected.len() {
        return false;
    }
    let mut i: usize = 0;
    while i < intervals.len()
        invariant
            0 <= i <= intervals.len(),
            intervals.len() == expected.len(),
            forall|j: int| 0 <= j < i ==> intervals@[j] == expected@[j],
        decreases intervals.len() - i,
    {
        if intervals[i] != expected[i] {
            return false;
        }
        i += 1;
    }
    proof {
        assert(intervals@ =~= expected@);
    }
    true
}

/// The shapes for the chord quality with interval signature `intervals`, if any.
pub fn shapes_for(intervals: &[usize]) -> (r: Option<Vec<Shape>>)
    ensures
        match r {
            None => spec_shapes_for(intervals@) is None,
            Some(v) => spec_shapes_for(intervals@) == Some(v@) && shapes_well_formed(v@),
        },
{
    let r = if same_signature(intervals, &[0, 4, 7]) { Some(shapes_major()) }
    else if same_signature(intervals, &[0, 3, 7]) { Some(shapes_minor()) }
    else if same_signature(intervals, &[0, 4, 8]) { Some(shapes_aug()) }
    else if same_signature(intervals, &[0, 2, 7]) { Some(shapes_sus2()) }
    else if same_signature(intervals, &[0, 5, 7]) { Some(shapes_sus4()) }
    else if same_signature(intervals, &[0, 7]) { Some(shapes_power()) }
    else if same_signature(intervals, &[0, 4, 7, 10]) { Some(shapes_dom7()) }
    else if same_signature(intervals, &[0, 4, 7, 11]) { Some(shapes_maj7()) }
    else if same_signature(intervals, &[0, 3, 7, 10]) { Some(shapes_min7()) }
    else if same_signature(intervals, &[0, 3, 6, 10]) { Some(shapes_m7b5()) }
    else if same_signature(intervals, &[0, 3, 6, 9]) { Some(shapes_dim7()) }
    else if same_signature(intervals, &[0, 5, 7, 10]) { Some(shapes_seven_sus4()) }
    else { None };
    r
}

/// The shape's pattern stops its root string at the root's fret.
pub open spec fn root_on_root_string(shape: Shape) -> bool {
    shape.root_string < 6 && shape.pattern@[shape.root_string as int] == Some(shape.root_offset)
}

/// Every shape of every table stops its root string at its root fret.
pub proof fn lemma_tables_mark_their_roots(sig: Seq<usize>)
    ensures
        spec_shapes_for(sig) matches Some(shapes) ==> forall|k: int|
            0 <= k < shapes.len() ==> #[trigger] root_on_root_string(shapes[k]),
{
    let t = spec_shapes_major();
    assert forall|k: int| 0 <= k < t.len() implies #[trigger] root_on_root_string(t[k]) by {
        if k == 0 { assert(root_on_root_string(t[0])); } else if k == 1 { assert(root_on_root_string(t[1])); } else if k == 2 { assert(root_on_root_string(t[2])); } else if k == 3 { assert(root_on_root_string(t[3])); } else if k == 4 { assert(root_on_root_string(t[4])); } else {}
    }
    let t = spec_shapes_minor();
    assert forall|k: int| 0 <= k < t.len() implies #[trigger] root_on_root_string(t[k]) by {
        if k == 0 { assert(root_on_root_string(t[0])); } else if k == 1 { assert(root_on_root_string(t[1])); } else if k == 2 { assert(root_on_root_string(t[2])); } else {}
    }
    let t = spec_shapes_dom7();
    assert forall|k: int| 0 <= k < t.len() implies #[trigger] root_on_root_string(t[k]) by {
        if k == 0 { assert(root_on_root_string(t[0])); } else if k == 1 { assert(root_on_root_string(t[1])); } else if k == 2 { assert(root_on_root_string(t[2])); } else if k == 3 { assert(root_on_root_string(t[3])); } else if k == 4 { assert(root_on_root_string(t[4])); } else {}
    }
    let t = spec_shapes_maj7();
    assert forall|k: int| 0 <= k < t.len() implies #[trigger] root_on_root_string(t[k]) by {
        if k == 0 { assert(root_on_root_string(t[0])); } else if k == 1 { assert(root_on_root_string(t[1])); } else if k == 2 { assert(root_on_root_string(t[2])); } else if k == 3 { assert(root_on_root_string(t[3])); } else if k == 4 { assert(root_on_root_string(t[4])); } else {}
    }
    let t = spec_shapes_min7();
    assert forall|k: int| 0 <= k < t.len() implies #[trigger] root_on_root_string(t[k]) by {
        if k == 0 { assert(root_on_root_string(t[0])); } else if k == 1 { assert(root_on_root_string(t[1])); } else if k == 2 { assert(root_on_root_string(t[2])); } else {}
    }
    let t = spec_shapes_m7b5();
    assert forall|k: int| 0 <= k < t.len() implies #[trigger] root_on_root_string(t[k]) by {
        if k == 0 { assert(root_on_root_string(t[0])); } else if k == 1 { assert(root_on_root_string(t[1])); } else if k == 2 { assert(root_on_root_string(t[2])); } else {}
    }
    let t = spec_shapes_dim7();
    assert forall|k: int| 0 <= k < t.len() implies #[trigger] root_on_root_string(t[k]) by {
        if k == 0 { assert(root_on_root_string(t[0])); } else if k == 1 { assert(root_on_root_string(t[1])); } else {}
    }
    let t = spec_shapes_aug();
    assert forall|k: int| 0 <= k < t.len() implies #[trigger] root_on_root_string(t[k]) by {
        if k == 0 { assert(root_on_root_string(t[0])); } else {}
    }
    let t = spec_shapes_sus2();
    assert forall|k: int| 0 <= k < t.len() implies #[trigger] root_on_root_string(t[k]) by {
        if k == 0 { assert(root_on_root_string(t[0])); } else if k == 1 { assert(root_on_root_string(t[1])); } else {}
    }
    let t = spec_shapes_sus4();
    assert forall|k: int| 0 <= k < t.len() implies #[trigger] root_on_root_string(t[k]) by {
        if k == 0 { assert(root_on_root_string(t[0])); } else if k == 1 { assert(root_on_root_string(t[1])); } else if k == 2 { assert(root_on_root_string(t[2])); } else {}
    }
    let t = spec_shapes_seven_sus4();
    assert forall|k: int| 0 <= k < t.len() implies #[trigger] root_on_root_string(t[k]) by {
        if k == 0 { assert(root_on_root_string(t[0])); } else if k == 1 { assert(root_on_root_string(t[1])); } else if k == 2 { assert(root_on_root_string(t[2])); } else {}
    }
    let t = spec_shapes_power();
    assert forall|k: int| 0 <= k < t.len() implies #[trigger] root_on_root_string(t[k]) by {
        if k == 0 { assert(root_on_root_string(t[0])); } else if k == 1 { assert(root_on_root_string(t[1])); } else if k == 2 { assert(root_on_root_string(t[2])); } else {}
    }
}

/// Transposing a shape to root `target` makes its root string sound `target`.
pub proof fn lemma_transposed_root(shape: Shape, target: int)
    requires
        root_on_root_string(shape),
        0 <= target < 12,
        spec_apply(shape, target) is Some,
    ensures
        string_pc(spec_apply(shape, target)->0, shape.root_string as int) == target,
{
    let rs = shape.root_string as int;
    let shift = shape_shift(shape, target);
    let a = spec_open_pc(rs) + shape.root_offset;
    let f = spec_apply(shape, target)->0;
    assert(!overflows(shape, shift, rs));
    assert(f[rs] == Some((shape.root_offset + shift) as u8));
    assert(0 <= a % 12 < 12);
    assert(a == 12 * (a / 12) + a % 12);
    if target >= a % 12 {
        assert(shift == target - a % 12);
        assert((a + shift) == 12 * (a / 12) + target);
    } else {
        assert(shift == target + 12 - a % 12);
        assert((a + shift) == 12 * (a / 12 + 1) + target);
    }
}

/// The shapes of a chord quality, moved to pitch class `target`, sound `target`
/// on their root string.
pub proof fn lemma_shapes_put_root_on_root_string(sig: Seq<usize>, target: int, k: int)
    requires
        spec_shapes_for(sig) is Some,
        0 <= k < (spec_shapes_for(sig)->0).len(),
        0 <= target < 12,
        spec_apply((spec_shapes_for(sig)->0)[k], target) is Some,
    ensures
        string_pc(
            spec_apply((spec_shapes_for(sig)->0)[k], target)->0,
            (spec_shapes_for(sig)->0)[k].root_string as int,
        ) == target,
{
    lemma_tables_mark_their_roots(sig);
    lemma_transposed_root((spec_shapes_for(sig)->0)[k], target);
}


// ----- what the shapes sound -----

/// Pitch class of the shape's root before it is moved.
pub open spec fn template_root(shape: Shape) -> int {
    (spec_open_pc(shape.root_string as int) + shape.root_offset) % 12
}

/// Semitones (mod 12) from the shape's root up to the note of string `i`.
pub open spec fn string_interval(shape: Shape, i: int) -> int {
    (spec_open_pc(i) + shape.pattern@[i]->0 + 12 - template_root(shape)) % 12
}

/// String `i` of the shape is played and sounds interval `x` above the root.
pub open spec fn sounds_interval_on(shape: Shape, i: int, x: int) -> bool {
    shape.pattern@[i] is Some && string_interval(shape, i) == x
}

/// Some string of the shape sounds interval `x` above its root.
pub open spec fn sounds_interval(shape: Shape, x: int) -> bool {
    exists|i: int| 0 <= i < 6 && #[trigger] sounds_interval_on(shape, i, x)
}

/// Every played string of the shape sounds one of the intervals of `sig`.
pub open spec fn within_signature(shape: Shape, sig: Seq<usize>) -> bool {
    forall|i: int| 0 <= i < 6 && shape.pattern@[i] is Some
        ==> sig.contains(#[trigger] string_interval(shape, i) as usize)
}

/// Every interval of `sig` other than `omit` is sounded by some string.
pub open spec fn sounds_signature_except(shape: Shape, sig: Seq<usize>, omit: int) -> bool {
    forall|j: int| 0 <= j < sig.len() && sig[j] != omit ==> sounds_interval(shape, #[trigger] sig[j] as int)
}

spec fn seq_has(sig: Seq<usize>, x: int, n: nat) -> bool
    decreases n,
{
    if n == 0 { false } else { seq_has(sig, x, (n - 1) as nat) || sig[n - 1] == x }
}

spec fn string_in_sig(shape: Shape, sig: Seq<usize>, i: int) -> bool {
    shape.pattern@[i] is None || seq_has(sig, string_interval(shape, i), sig.len())
}

spec fn sounds_any(shape: Shape, x: int) -> bool {
    sounds_interval_on(shape, 0, x) || sounds_interval_on(shape, 1, x) || sounds_interval_on(shape, 2, x)
        || sounds_interval_on(shape, 3, x) || sounds_interval_on(shape, 4, x) || sounds_interval_on(shape, 5, x)
}

spec fn all_sounded(shape: Shape, sig: Seq<usize>, n: nat, omit: int) -> bool
    decreases n,
{
    if n == 0 {
        true
    } else {
        all_sounded(shape, sig, (n - 1) as nat, omit) && (sig[n - 1] == omit || sounds_any(shape, sig[n - 1] as int))
    }
}

spec fn within_check(shape: Shape, sig: Seq<usize>) -> bool {
    &&& string_in_sig(shape, sig, 0)
    &&& string_in_sig(shape, sig, 1)
    &&& string_in_sig(shape, sig, 2)
    &&& string_in_sig(shape, sig, 3)
    &&& string_in_sig(shape, sig, 4)
    &&& string_in_sig(shape, sig, 5)
}

proof fn lemma_seq_has(sig: Seq<usize>, x: int, n: nat)
    requires
        n <= sig.len(),
        seq_has(sig, x, n),
        0 <= x,
    ensures
        sig.contains(x as usize),
    decreases n,
{
    if seq_has(sig, x, (n - 1) as nat) {
        lemma_seq_has(sig, x, (n - 1) as nat);
    } else {
        assert(sig[n - 1] == x as usize);
    }
}

proof fn lemma_all_sounded(shape: Shape, sig: Seq<usize>, n: nat, omit: int)
    requires
        n <= sig.len(),
        all_sounded(shape, sig, n, omit),
    ensures
        forall|j: int| 0 <= j < n && sig[j] != omit ==> sounds_interval(shape, #[trigger] sig[j] as int),
    decreases n,
{
    if n > 0 {
        lemma_all_sounded(shape, sig, (n - 1) as nat, omit);
        let x = sig[n - 1] as int;
        if x != omit {
            assert(sounds_any(shape, x));
            if sounds_interval_on(shape, 0, x) {
            } else if sounds_interval_on(shape, 1, x) {
            } else if sounds_interval_on(shape, 2, x) {
            } else if sounds_interval_on(shape, 3, x) {
            } else if sounds_interval_on(shape, 4, x) {
            } else {
                assert(sounds_interval_on(shape, 5, x));
            }
            assert(sounds_interval(shape, x));
        }
    }
}

proof fn lemma_voices_check(shape: Shape, sig: Seq<usize>, omit: int)
    requires
        within_check(shape, sig),
        all_sounded(shape, sig, sig.len(), omit),
    ensures
        within_signature(shape, sig),
        sounds_signature_except(shape, sig, omit),
{
    lemma_all_sounded(shape, sig, sig.len(), omit);
    assert forall|i: int| 0 <= i < 6 && shape.pattern@[i] is Some
        implies sig.contains(#[trigger] string_interval(shape, i) as usize) by {
        assert(string_in_sig(shape, sig, i)) by {
            if i == 0 {} else if i == 1 {} else if i == 2 {} else if i == 3 {} else if i == 4 {} else {}
        }
        lemma_seq_has(sig, string_interval(shape, i), sig.len());
    }
}

/// The interval a shape may leave out: the fifth of the dominant seventh (the
/// open C form x32310 has no G), nothing for any other chord quality.
pub open spec fn omitted_interval(sig: Seq<usize>) -> int {
    if sig == seq![0usize, 4, 7, 10] { 7 } else { -1 }
}


proof fn lemma_major_shape_voices(k: int)
    requires
        0 <= k < spec_shapes_major().len(),
    ensures
        within_signature(spec_shapes_major()[k], seq![0usize, 4, 7]),
        sounds_signature_except(spec_shapes_major()[k], seq![0usize, 4, 7], omitted_interval(seq![0usize, 4, 7])),
{
    reveal_with_fuel(seq_has, 5);
    reveal_with_fuel(all_sounded, 5);
    let t = spec_shapes_major();
    let s = seq![0usize, 4, 7];
    let o = omitted_interval(s);
    assert(o == -1) by { assert(s.len() != 4 || s[3] != 10usize || s[1] != 4usize); }
    if k == 0 {
        assert(within_check(t[0], s));
        assert(all_sounded(t[0], s, s.len(), o));
        lemma_voices_check(t[0], s, o);
    } else if k == 1 {
        assert(within_check(t[1], s));
        assert(all_sounded(t[1], s, s.len(), o));
        lemma_voices_check(t[1], s, o);
    } else if k == 2 {
        assert(within_check(t[2], s));
        assert(all_sounded(t[2], s, s.len(), o));
        lemma_voices_check(t[2], s, o);
    } else if k == 3 {
        assert(within_check(t[3], s));
        assert(all_sounded(t[3], s, s.len(), o));
        lemma_voices_check(t[3], s, o);
    } else if k == 4 {
        assert(within_check(t[4], s));
        assert(all_sounded(t[4], s, s.len(), o));
        lemma_voices_check(t[4], s, o);
    }
}

proof fn lemma_minor_shape_voices(k: int)
    requires
        0 <= k < spec_shapes_minor().len(),
    ensures
        within_signature(spec_shapes_minor()[k], seq![0usize, 3, 7]),
        sounds_signature_except(spec_shapes_minor()[k], seq![0usize, 3, 7], omitted_interval(seq![0usize, 3, 7])),
{
    reveal_with_fuel(seq_has, 5);
    reveal_with_fuel(all_sounded, 5);
    let t = spec_shapes_minor();
    let s = seq![0usize, 3, 7];
    let o = omitted_interval(s);
    assert(o == -1) by { assert(s.len() != 4 || s[3] != 10usize || s[1] != 4usize); }
    if k == 0 {
        assert(within_check(t[0], s));
        assert(all_sounded(t[0], s, s.len(), o));
        lemma_voices_check(t[0], s, o);
    } else if k == 1 {
        assert(within_check(t[1], s));
        assert(all_sounded(t[1], s, s.len(), o));
        lemma_voices_check(t[1], s, o);
    } else if k == 2 {
        assert(within_check(t[2], s));
        assert(all_sounded(t[2], s, s.len(), o));
        lemma_voices_check(t[2], s, o);
    }
}

proof fn lemma_aug_shape_voices(k: int)
    requires
        0 <= k < spec_shapes_aug().len(),
    ensures
        within_signature(spec_shapes_aug()[k], seq![0usize, 4, 8]),
        sounds_signature_except(spec_shapes_aug()[k], seq![0usize, 4, 8], omitted_interval(seq![0usize, 4, 8])),
{
    reveal_with_fuel(seq_has, 5);
    reveal_with_fuel(all_sounded, 5);
    let t = spec_shapes_aug();
    let s = seq![0usize, 4, 8];
    let o = omitted_interval(s);
    assert(o == -1) by { assert(s.len() != 4 || s[3] != 10usize || s[1] != 4usize); }
    if k == 0 {
        assert(within_check(t[0], s));
        assert(all_sounded(t[0], s, s.len(), o));
        lemma_voices_check(t[0], s, o);
    }
}

proof fn lemma_sus2_shape_voices(k: int)
    requires
        0 <= k < spec_shapes_sus2().len(),
    ensures
        within_signature(spec_shapes_sus2()[k], seq![0usize, 2, 7]),
        sounds_signature_except(spec_shapes_sus2()[k], seq![0usize, 2, 7], omitted_interval(seq![0usize, 2, 7])),
{
    reveal_with_fuel(seq_has, 5);
    reveal_with_fuel(all_sounded, 5);
    let t = spec_shapes_sus2();
    let s = seq![0usize, 2, 7];
    let o = omitted_interval(s);
    assert(o == -1) by { assert(s.len() != 4 || s[3] != 10usize || s[1] != 4usize); }
    if k == 0 {
        assert(within_check(t[0], s));
        assert(all_sounded(t[0], s, s.len(), o));
        lemma_voices_check(t[0], s, o);
    } else if k == 1 {
        assert(within_check(t[1], s));
        assert(all_sounded(t[1], s, s.len(), o));
        lemma_voices_check(t[1], s, o);
    }
}

proof fn lemma_sus4_shape_voices(k: int)
    requires
        0 <= k < spec_shapes_sus4().len(),
    ensures
        within_signature(spec_shapes_sus4()[k], seq![0usize, 5, 7]),
        sounds_signature_except(spec_shapes_sus4()[k], seq![0usize, 5, 7], omitted_interval(seq![0usize, 5, 7])),
{
    reveal_with_fuel(seq_has, 5);
    reveal_with_fuel(all_sounded, 5);
    let t = spec_shapes_sus4();
    let s = seq![0usize, 5, 7];
    let o = omitted_interval(s);
    assert(o == -1) by { assert(s.len() != 4 || s[3] != 10usize || s[1] != 4usize); }
    if k == 0 {
        assert(within_check(t[0], s));
        assert(all_sounded(t[0], s, s.len(), o));
        lemma_voices_check(t[0], s, o);
    } else if k == 1 {
        assert(within_check(t[1], s));
        assert(all_sounded(t[1], s, s.len(), o));
        lemma_voices_check(t[1], s, o);
    } else if k == 2 {
        assert(within_check(t[2], s));
        assert(all_sounded(t[2], s, s.len(), o));
        lemma_voices_check(t[2], s, o);
    }
}

proof fn lemma_power_shape_voices(k: int)
    requires
        0 <= k < spec_shapes_power().len(),
    ensures
        within_signature(spec_shapes_power()[k], seq![0usize, 7]),
        sounds_signature_except(spec_shapes_power()[k], seq![0usize, 7], omitted_interval(seq![0usize, 7])),
{
    reveal_with_fuel(seq_has, 5);
    reveal_with_fuel(all_sounded, 5);
    let t = spec_shapes_power();
    let s = seq![0usize, 7];
    let o = omitted_interval(s);
    assert(o == -1) by { assert(s.len() != 4 || s[3] != 10usize || s[1] != 4usize); }
    if k == 0 {
        assert(within_check(t[0], s));
        assert(all_sounded(t[0], s, s.len(), o));
        lemma_voices_check(t[0], s, o);
    } else if k == 1 {
        assert(within_check(t[1], s));
        assert(all_sounded(t[1], s, s.len(), o));
        lemma_voices_check(t[1], s, o);
    } else if k == 2 {
        assert(within_check(t[2], s));
        assert(all_sounded(t[2], s, s.len(), o));
        lemma_voices_check(t[2], s, o);
    }
}

proof fn lemma_dom7_shape_voices(k: int)
    requires
        0 <= k < spec_shapes_dom7().len(),
    ensures
        within_signature(spec_shapes_dom7()[k], seq![0usize, 4, 7, 10]),
        sounds_signature_except(spec_shapes_dom7()[k], seq![0usize, 4, 7, 10], omitted_interval(seq![0usize, 4, 7, 10])),
{
    reveal_with_fuel(seq_has, 5);
    reveal_with_fuel(all_sounded, 5);
    let t = spec_shapes_dom7();
    let s = seq![0usize, 4, 7, 10];
    let o = omitted_interval(s);
    assert(o == 7);
    if k == 0 {
        assert(within_check(t[0], s));
        assert(all_sounded(t[0], s, s.len(), o));
        lemma_voices_check(t[0], s, o);
    } else if k == 1 {
        assert(within_check(t[1], s));
        assert(all_sounded(t[1], s, s.len(), o));
        lemma_voices_check(t[1], s, o);
    } else if k == 2 {
        assert(within_check(t[2], s));
        assert(all_sounded(t[2], s, s.len(), o));
        lemma_voices_check(t[2], s, o);
    } else if k == 3 {
        assert(within_check(t[3], s));
        assert(all_sounded(t[3], s, s.len(), o));
        lemma_voices_check(t[3], s, o);
    } else if k == 4 {
        assert(within_check(t[4], s));
        assert(all_sounded(t[4], s, s.len(), o));
        lemma_voices_check(t[4], s, o);
    }
}

proof fn lemma_maj7_shape_voices(k: int)
    requires
        0 <= k < spec_shapes_maj7().len(),
    ensures
        within_signature(spec_shapes_maj7()[k], seq![0usize, 4, 7, 11]),
        sounds_signature_except(spec_shapes_maj7()[k], seq![0usize, 4, 7, 11], omitted_interval(seq![0usize, 4, 7, 11])),
{
    reveal_with_fuel(seq_has, 5);
    reveal_with_fuel(all_sounded, 5);
    let t = spec_shapes_maj7();
    let s = seq![0usize, 4, 7, 11];
    let o = omitted_interval(s);
    assert(o == -1) by { assert(s.len() != 4 || s[3] != 10usize || s[1] != 4usize); }
    if k == 0 {
        assert(within_check(t[0], s));
        assert(all_sounded(t[0], s, s.len(), o));
        lemma_voices_check(t[0], s, o);
    } else if k == 1 {
        assert(within_check(t[1], s));
        assert(all_sounded(t[1], s, s.len(), o));
        lemma_voices_check(t[1], s, o);
    } else if k == 2 {
        assert(within_check(t[2], s));
        assert(all_sounded(t[2], s, s.len(), o));
        lemma_voices_check(t[2], s, o);
    } else if k == 3 {
        assert(within_check(t[3], s));
        assert(all_sounded(t[3], s, s.len(), o));
        lemma_voices_check(t[3], s, o);
    } else if k == 4 {
        assert(within_check(t[4], s));
        assert(all_sounded(t[4], s, s.len(), o));
        lemma_voices_check(t[4], s, o);
    }
}

proof fn lemma_min7_shape_voices(k: int)
    requires
        0 <= k < spec_shapes_min7().len(),
    ensures
        within_signature(spec_shapes_min7()[k], seq![0usize, 3, 7, 10]),
        sounds_signature_except(spec_shapes_min7()[k], seq![0usize, 3, 7, 10], omitted_interval(seq![0usize, 3, 7, 10])),
{
    reveal_with_fuel(seq_has, 5);
    reveal_with_fuel(all_sounded, 5);
    let t = spec_shapes_min7();
    let s = seq![0usize, 3, 7, 10];
    let o = omitted_interval(s);
    assert(o == -1) by { assert(s.len() != 4 || s[3] != 10usize || s[1] != 4usize); }
    if k == 0 {
        assert(within_check(t[0], s));
        assert(all_sounded(t[0], s, s.len(), o));
        lemma_voices_check(t[0], s, o);
    } else if k == 1 {
        assert(within_check(t[1], s));
        assert(all_sounded(t[1], s, s.len(), o));
        lemma_voices_check(t[1], s, o);
    } else if k == 2 {
        assert(within_check(t[2], s));
        assert(all_sounded(t[2], s, s.len(), o));
        lemma_voices_check(t[2], s, o);
    }
}

proof fn lemma_m7b5_shape_voices(k: int)
    requires
        0 <= k < spec_shapes_m7b5().len(),
    ensures
        within_signature(spec_shapes_m7b5()[k], seq![0usize, 3, 6, 10]),
        sounds_signature_except(spec_shapes_m7b5()[k], seq![0usize, 3, 6, 10], omitted_interval(seq![0usize, 3, 6, 10])),
{
    reveal_with_fuel(seq_has, 5);
    reveal_with_fuel(all_sounded, 5);
    let t = spec_shapes_m7b5();
    let s = seq![0usize, 3, 6, 10];
    let o = omitted_interval(s);
    assert(o == -1) by { assert(s.len() != 4 || s[3] != 10usize || s[1] != 4usize); }
    if k == 0 {
        assert(within_check(t[0], s));
        assert(all_sounded(t[0], s, s.len(), o));
        lemma_voices_check(t[0], s, o);
    } else if k == 1 {
        assert(within_check(t[1], s));
        assert(all_sounded(t[1], s, s.len(), o));
        lemma_voices_check(t[1], s, o);
    } else if k == 2 {
        assert(within_check(t[2], s));
        assert(all_sounded(t[2], s, s.len(), o));
        lemma_voices_check(t[2], s, o);
    }
}

proof fn lemma_dim7_shape_voices(k: int)
    requires
        0 <= k < spec_shapes_dim7().len(),
    ensures
        within_signature(spec_shapes_dim7()[k], seq![0usize, 3, 6, 9]),
        sounds_signature_except(spec_shapes_dim7()[k], seq![0usize, 3, 6, 9], omitted_interval(seq![0usize, 3, 6, 9])),
{
    reveal_with_fuel(seq_has, 5);
    reveal_with_fuel(all_sounded, 5);
    let t = spec_shapes_dim7();
    let s = seq![0usize, 3, 6, 9];
    let o = omitted_interval(s);
    assert(o == -1) by { assert(s.len() != 4 || s[3] != 10usize || s[1] != 4usize); }
    if k == 0 {
        assert(within_check(t[0], s));
        assert(all_sounded(t[0], s, s.len(), o));
        lemma_voices_check(t[0], s, o);
    } else if k == 1 {
        assert(within_check(t[1], s));
        assert(all_sounded(t[1], s, s.len(), o));
        lemma_voices_check(t[1], s, o);
    }
}

proof fn lemma_seven_sus4_shape_voices(k: int)
    requires
        0 <= k < spec_shapes_seven_sus4().len(),
    ensures
        within_signature(spec_shapes_seven_sus4()[k], seq![0usize, 5, 7, 10]),
        sounds_signature_except(spec_shapes_seven_sus4()[k], seq![0usize, 5, 7, 10], omitted_interval(seq![0usize, 5, 7, 10])),
{
    reveal_with_fuel(seq_has, 5);
    reveal_with_fuel(all_sounded, 5);
    let t = spec_shapes_seven_sus4();
    let s = seq![0usize, 5, 7, 10];
    let o = omitted_interval(s);
    assert(o == -1) by { assert(s.len() != 4 || s[3] != 10usize || s[1] != 4usize); }
    if k == 0 {
        assert(within_check(t[0], s));
        assert(all_sounded(t[0], s, s.len(), o));
        lemma_voices_check(t[0], s, o);
    } else if k == 1 {
        assert(within_check(t[1], s));
        assert(all_sounded(t[1], s, s.len(), o));
        lemma_voices_check(t[1], s, o);
    } else if k == 2 {
        assert(within_check(t[2], s));
        assert(all_sounded(t[2], s, s.len(), o));
        lemma_voices_check(t[2], s, o);
    }
}

proof fn lemma_major_shapes_voice()
    ensures
        forall|k: int| 0 <= k < spec_shapes_major().len() ==> within_signature(#[trigger] spec_shapes_major()[k], seq![0usize, 4, 7])
            && sounds_signature_except(spec_shapes_major()[k], seq![0usize, 4, 7], omitted_interval(seq![0usize, 4, 7])),
{
    assert forall|k: int| 0 <= k < spec_shapes_major().len() implies within_signature(#[trigger] spec_shapes_major()[k], seq![0usize, 4, 7])
        && sounds_signature_except(spec_shapes_major()[k], seq![0usize, 4, 7], omitted_interval(seq![0usize, 4, 7])) by {
        lemma_major_shape_voices(k);
    }
}

proof fn lemma_minor_shapes_voice()
    ensures
        forall|k: int| 0 <= k < spec_shapes_minor().len() ==> within_signature(#[trigger] spec_shapes_minor()[k], seq![0usize, 3, 7])
            && sounds_signature_except(spec_shapes_minor()[k], seq![0usize, 3, 7], omitted_interval(seq![0usize, 3, 7])),
{
    assert forall|k: int| 0 <= k < spec_shapes_minor().len() implies within_signature(#[trigger] spec_shapes_minor()[k], seq![0usize, 3, 7])
        && sounds_signature_except(spec_shapes_minor()[k], seq![0usize, 3, 7], omitted_interval(seq![0usize, 3, 7])) by {
        lemma_minor_shape_voices(k);
    }
}

proof fn lemma_aug_shapes_voice()
    ensures
        forall|k: int| 0 <= k < spec_shapes_aug().len() ==> within_signature(#[trigger] spec_shapes_aug()[k], seq![0usize, 4, 8])
            && sounds_signature_except(spec_shapes_aug()[k], seq![0usize, 4, 8], omitted_interval(seq![0usize, 4, 8])),
{
    assert forall|k: int| 0 <= k < spec_shapes_aug().len() implies within_signature(#[trigger] spec_shapes_aug()[k], seq![0usize, 4, 8])
        && sounds_signature_except(spec_shapes_aug()[k], seq![0usize, 4, 8], omitted_interval(seq![0usize, 4, 8])) by {
        lemma_aug_shape_voices(k);
    }
}

proof fn lemma_sus2_shapes_voice()
    ensures
        forall|k: int| 0 <= k < spec_shapes_sus2().len() ==> within_signature(#[trigger] spec_shapes_sus2()[k], seq![0usize, 2, 7])
            && sounds_signature_except(spec_shapes_sus2()[k], seq![0usize, 2, 7], omitted_interval(seq![0usize, 2, 7])),
{
    assert forall|k: int| 0 <= k < spec_shapes_sus2().len() implies within_signature(#[trigger] spec_shapes_sus2()[k], seq![0usize, 2, 7])
        && sounds_signature_except(spec_shapes_sus2()[k], seq![0usize, 2, 7], omitted_interval(seq![0usize, 2, 7])) by {
        lemma_sus2_shape_voices(k);
    }
}

proof fn lemma_sus4_shapes_voice()
    ensures
        forall|k: int| 0 <= k < spec_shapes_sus4().len() ==> within_signature(#[trigger] spec_shapes_sus4()[k], seq![0usize, 5, 7])
            && sounds_signature_except(spec_shapes_sus4()[k], seq![0usize, 5, 7], omitted_interval(seq![0usize, 5, 7])),
{
    assert forall|k: int| 0 <= k < spec_shapes_sus4().len() implies within_signature(#[trigger] spec_shapes_sus4()[k], seq![0usize, 5, 7])
        && sounds_signature_except(spec_shapes_sus4()[k], seq![0usize, 5, 7], omitted_interval(seq![0usize, 5, 7])) by {
        lemma_sus4_shape_voices(k);
    }
}

proof fn lemma_power_shapes_voice()
    ensures
        forall|k: int| 0 <= k < spec_shapes_power().len() ==> within_signature(#[trigger] spec_shapes_power()[k], seq![0usize, 7])
            && sounds_signature_except(spec_shapes_power()[k], seq![0usize, 7], omitted_interval(seq![0usize, 7])),
{
    assert forall|k: int| 0 <= k < spec_shapes_power().len() implies within_signature(#[trigger] spec_shapes_power()[k], seq![0usize, 7])
        && sounds_signature_except(spec_shapes_power()[k], seq![0usize, 7], omitted_interval(seq![0usize, 7])) by {
        lemma_power_shape_voices(k);
    }
}

proof fn lemma_dom7_shapes_voice()
    ensures
        forall|k: int| 0 <= k < spec_shapes_dom7().len() ==> within_signature(#[trigger] spec_shapes_dom7()[k], seq![0usize, 4, 7, 10])
            && sounds_signature_except(spec_shapes_dom7()[k], seq![0usize, 4, 7, 10], omitted_interval(seq![0usize, 4, 7, 10])),
{
    assert forall|k: int| 0 <= k < spec_shapes_dom7().len() implies within_signature(#[trigger] spec_shapes_dom7()[k], seq![0usize, 4, 7, 10])
        && sounds_signature_except(spec_shapes_dom7()[k], seq![0usize, 4, 7, 10], omitted_interval(seq![0usize, 4, 7, 10])) by {
        lemma_dom7_shape_voices(k);
    }
}

proof fn lemma_maj7_shapes_voice()
    ensures
        forall|k: int| 0 <= k < spec_shapes_maj7().len() ==> within_signature(#[trigger] spec_shapes_maj7()[k], seq![0usize, 4, 7, 11])
            && sounds_signature_except(spec_shapes_maj7()[k], seq![0usize, 4, 7, 11], omitted_interval(seq![0usize, 4, 7, 11])),
{
    assert forall|k: int| 0 <= k < spec_shapes_maj7().len() implies within_signature(#[trigger] spec_shapes_maj7()[k], seq![0usize, 4, 7, 11])
        && sounds_signature_except(spec_shapes_maj7()[k], seq![0usize, 4, 7, 11], omitted_interval(seq![0usize, 4, 7, 11])) by {
        lemma_maj7_shape_voices(k);
    }
}

proof fn lemma_min7_shapes_voice()
    ensures
        forall|k: int| 0 <= k < spec_shapes_min7().len() ==> within_signature(#[trigger] spec_shapes_min7()[k], seq![0usize, 3, 7, 10])
            && sounds_signature_except(spec_shapes_min7()[k], seq![0usize, 3, 7, 10], omitted_interval(seq![0usize, 3, 7, 10])),
{
    assert forall|k: int| 0 <= k < spec_shapes_min7().len() implies within_signature(#[trigger] spec_shapes_min7()[k], seq![0usize, 3, 7, 10])
        && sounds_signature_except(spec_shapes_min7()[k], seq![0usize, 3, 7, 10], omitted_interval(seq![0usize, 3, 7, 10])) by {
        lemma_min7_shape_voices(k);
    }
}

proof fn lemma_m7b5_shapes_voice()
    ensures
        forall|k: int| 0 <= k < spec_shapes_m7b5().len() ==> within_signature(#[trigger] spec_shapes_m7b5()[k], seq![0usize, 3, 6, 10])
            && sounds_signature_except(spec_shapes_m7b5()[k], seq![0usize, 3, 6, 10], omitted_interval(seq![0usize, 3, 6, 10])),
{
    assert forall|k: int| 0 <= k < spec_shapes_m7b5().len() implies within_signature(#[trigger] spec_shapes_m7b5()[k], seq![0usize, 3, 6, 10])
        && sounds_signature_except(spec_shapes_m7b5()[k], seq![0usize, 3, 6, 10], omitted_interval(seq![0usize, 3, 6, 10])) by {
        lemma_m7b5_shape_voices(k);
    }
}

proof fn lemma_dim7_shapes_voice()
    ensures
        forall|k: int| 0 <= k < spec_shapes_dim7().len() ==> within_signature(#[trigger] spec_shapes_dim7()[k], seq![0usize, 3, 6, 9])
            && sounds_signature_except(spec_shapes_dim7()[k], seq![0usize, 3, 6, 9], omitted_interval(seq![0usize, 3, 6, 9])),
{
    assert forall|k: int| 0 <= k < spec_shapes_dim7().len() implies within_signature(#[trigger] spec_shapes_dim7()[k], seq![0usize, 3, 6, 9])
        && sounds_signature_except(spec_shapes_dim7()[k], seq![0usize, 3, 6, 9], omitted_interval(seq![0usize, 3, 6, 9])) by {
        lemma_dim7_shape_voices(k);
    }
}

proof fn lemma_seven_sus4_shapes_voice()
    ensures
        forall|k: int| 0 <= k < spec_shapes_seven_sus4().len() ==> within_signature(#[trigger] spec_shapes_seven_sus4()[k], seq![0usize, 5, 7, 10])
            && sounds_signature_except(spec_shapes_seven_sus4()[k], seq![0usize, 5, 7, 10], omitted_interval(seq![0usize, 5, 7, 10])),
{
    assert forall|k: int| 0 <= k < spec_shapes_seven_sus4().len() implies within_signature(#[trigger] spec_shapes_seven_sus4()[k], seq![0usize, 5, 7, 10])
        && sounds_signature_except(spec_shapes_seven_sus4()[k], seq![0usize, 5, 7, 10], omitted_interval(seq![0usize, 5, 7, 10])) by {
        lemma_seven_sus4_shape_voices(k);
    }
}

/// Every shape of every table sounds only intervals of the chord quality it is
/// listed under, and sounds every one of them but the interval that quality may
/// leave out (see [`omitted_interval`]).
pub proof fn lemma_tables_voice_their_signature(sig: Seq<usize>)
    ensures
        spec_shapes_for(sig) matches Some(shapes) ==> forall|k: int|
            0 <= k < shapes.len() ==> #[trigger] within_signature(shapes[k], sig)
                && sounds_signature_except(shapes[k], sig, omitted_interval(sig)),
{
    if sig == seq![0usize, 4, 7] {
        lemma_major_shapes_voice();
    } else if sig == seq![0usize, 3, 7] {
        lemma_minor_shapes_voice();
    } else if sig == seq![0usize, 4, 8] {
        lemma_aug_shapes_voice();
    } else if sig == seq![0usize, 2, 7] {
        lemma_sus2_shapes_voice();
    } else if sig == seq![0usize, 5, 7] {
        lemma_sus4_shapes_voice();
    } else if sig == seq![0usize, 7] {
        lemma_power_shapes_voice();
    } else if sig == seq![0usize, 4, 7, 10] {
        lemma_dom7_shapes_voice();
    } else if sig == seq![0usize, 4, 7, 11] {
        lemma_maj7_shapes_voice();
    } else if sig == seq![0usize, 3, 7, 10] {
        lemma_min7_shapes_voice();
    } else if sig == seq![0usize, 3, 6, 10] {
        lemma_m7b5_shapes_voice();
    } else if sig == seq![0usize, 3, 6, 9] {
        lemma_dim7_shapes_voice();
    } else if sig == seq![0usize, 5, 7, 10] {
        lemma_seven_sus4_shapes_voice();
    }
}


/// Moving a shape to root `target` keeps which strings are played, and each
/// played string sounds its interval above `target`.
pub proof fn lemma_transposed_string(shape: Shape, target: int, i: int)
    requires
        0 <= target < 12,
        0 <= i < 6,
        spec_apply(shape, target) is Some,
    ensures
        (spec_apply(shape, target)->0).len() == 6,
        (spec_apply(shape, target)->0)[i] is Some <==> shape.pattern@[i] is Some,
        shape.pattern@[i] is Some ==> string_pc(spec_apply(shape, target)->0, i)
            == (target + string_interval(shape, i)) % 12,
{
    let shift = shape_shift(shape, target);
    let f = spec_apply(shape, target)->0;
    assert(f == shifted(shape, shift));
    assert(!overflows(shape, shift, i));
    if shape.pattern@[i] is Some {
        let p = shape.pattern@[i]->0 as int;
        let o = spec_open_pc(i);
        let t = template_root(shape);
        assert(0 <= t < 12);
        assert(f[i] == Some((p + shift) as u8));
        assert(p + shift <= 22);
        assert(f[i]->0 == p + shift);
        assert((o + p + (target + 12 - t) % 12) % 12 == (target + (o + p + 12 - t) % 12) % 12) by {
            vstd::arithmetic::div_mod::lemma_add_mod_noop_right(o + p, target + 12 - t, 12);
            vstd::arithmetic::div_mod::lemma_add_mod_noop_right(target, o + p + 12 - t, 12);
        }
    }
}

} // verus!
