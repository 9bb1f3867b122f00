//! The guitar neck and chord diagrams: notes along the strings, position
//! markers, and where a voicing's notes go on a four-fret diagram.

use vstd::prelude::*;
use crate::voicings::{
    Voicing, open_pc, spec_open_pc, spec_lowest_fret, is_fretted,
    lemma_lowest_fret_is_lowest,
};

verus! {

/// Number of frets drawn on the neck.
pub const NECK_FRETS: usize = 24;

/// Pitch class at fret `fret` of string `string` (0 = low E).
pub fn neck_pc(string: usize, fret: usize) -> (pc: usize)
    requires
        string < 6,
        fret + 11 <= usize::MAX,
    ensures
        pc == (spec_open_pc(string as int) + fret) % 12,
{
    (open_pc(string) + fret) % 12
}

/// The position marker inlaid between two frets.
#[derive(PartialEq, Eq, Structural, Clone, Copy, Debug)]
pub enum Inlay {
    Plain,
    Dot,
    DoubleDot,
}

/// Frets 3, 5, 7, 9, 15, 17, 19 and 21 carry a dot, 12 and 24 two dots.
pub open spec fn spec_inlay(fret: int) -> Inlay {
    if fret == 3 || fret == 5 || fret == 7 || fret == 9 || fret == 15 || fret == 17 || fret == 19 || fret == 21 {
        Inlay::Dot
    } else if fret == 12 || fret == 24 {
        Inlay::DoubleDot
    } else {
        Inlay::Plain
    }
}

/// The marker drawn in the space below fret `fret`.
pub fn fret_inlay(fret: usize) -> (m: Inlay)
    ensures
        m == spec_inlay(fret as int),
{
    if fret == 3 || fret == 5 || fret == 7 || fret == 9 || fret == 15 || fret == 17 || fret == 19 || fret == 21 {
        Inlay::Dot
    } else if fret == 12 || fret == 24 {
        Inlay::DoubleDot
    } else {
        Inlay::Plain
    }
}

/// The fret just above the top line of a voicing's diagram: 0 (the nut) when
/// its lowest fret is at most 1, else one below its lowest fret.
pub open spec fn spec_diagram_start(lowest: int) -> int {
    if lowest <= 1 { 0 } else { lowest - 1 }
}

/// What a chord diagram shows on one string.
#[derive(PartialEq, Eq, Structural, Clone, Copy, Debug)]
pub enum StringMark {
    /// A cross: the string is not played.
    Muted,
    /// A ring above the nut: the string rings open.
    Open,
    /// A dot in row `row` (1 = first space of the diagram) sounding pitch class `pc`.
    Fretted { row: u8, pc: usize },
}

/// The mark of string `s` of a voicing's diagram.
pub open spec fn spec_diagram_mark(frets: Seq<Option<u8>>, s: int) -> StringMark {
    match frets[s] {
        None => StringMark::Muted,
        Some(f) => if f == 0 {
            StringMark::Open
        } else {
            StringMark::Fretted {
                row: (f - spec_diagram_start(spec_lowest_fret(frets))) as u8,
                pc: ((spec_open_pc(s) + f) % 12) as usize,
            }
        },
    }
}

/// The fret above the diagram's first row for voicing `v`.
pub fn diagram_start(v: &Voicing) -> (start: u8)
    ensures
        start == spec_diagram_start(spec_lowest_fret(v.frets@)),
{
    let min_fret = v.lowest_fret();
    if min_fret <= 1 { 0 } else { min_fret - 1 }
}

/// The mark drawn on string `s` (0 = low E) of the diagram of `v`; fretted
/// notes land in rows 1 and up, the lowest one in row 1 or 2.
pub fn diagram_mark(v: &Voicing, s: usize) -> (m: StringMark)
    requires
        s < 6,
    ensures
        m == spec_diagram_mark(v.frets@, s as int),
        m matches StringMark::Fretted { row, pc } ==> row >= 1 && pc < 12,
{
    match v.frets[s] {
        None => StringMark::Muted,
        Some(f) => {
            if f == 0 {
                StringMark::Open
            } else {
                let start = diagram_start(v);
                proof {
                    lemma_lowest_fret_is_lowest(v.frets@);
                    assert(is_fretted(v.frets@[s as int]));
                }
                StringMark::Fretted { row: f - start, pc: (open_pc(s) + f as usize) % 12 }
            }
        },
    }
}

} // verus!
