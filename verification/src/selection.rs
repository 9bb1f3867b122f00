//! What the user has picked (key, scale, chord degree, chord pattern), the
//! notes that follow from it, and the guitar view's cache of voicings.

use vstd::prelude::*;
use crate::theory::{
    ChordPattern, SCALE_COUNT, scale, spec_scale_intervals, spec_chord_intervals,
};
use crate::voicings::{
    Voicing, frets_of, generate_voicings, spec_generate_voicings, signature_defined,
};

verus! {

/// Scale number that holds the major (Ionian) scale.
pub const MAJOR_SCALE: usize = 1;

/// Scale number that holds the natural minor (Aeolian) scale.
pub const MINOR_SCALE: usize = 6;

/// The user's choice: root note, scale, and optionally a chord built on a scale degree.
#[derive(Clone, Copy)]
pub struct Selection {
    pub root: usize,
    pub scale_idx: usize,
    pub chord_deg: Option<usize>,
    pub chord_pattern: ChordPattern,
}

/// The notes of scale `scale_idx` on root `root`, as pitch classes, in scale order.
pub open spec fn spec_current_scale(root: int, scale_idx: int) -> Seq<usize> {
    let ivs = spec_scale_intervals(scale_idx);
    Seq::new(ivs.len(), |i: int| ((root + ivs[i]) % 12) as usize)
}

/// The pitch classes of the chord on degree `deg` of `scale`, root first.
pub open spec fn spec_chord_on(scale: Seq<usize>, deg: int, pattern: ChordPattern) -> Seq<usize> {
    let ivs = spec_chord_intervals(pattern);
    Seq::new(ivs.len(), |k: int| scale[(deg + ivs[k]) % (scale.len() as int)])
}

/// The pitch classes of the selected chord, empty when no degree is selected.
pub open spec fn spec_active_chord(sel: Selection) -> Seq<usize> {
    match sel.chord_deg {
        None => seq![],
        Some(deg) => spec_chord_on(
            spec_current_scale(sel.root as int, sel.scale_idx as int),
            deg as int,
            sel.chord_pattern,
        ),
    }
}

/// The selection names an existing scale, and root plus interval stays within `usize`.
pub open spec fn scale_in_range(sel: Selection) -> bool {
    let ivs = spec_scale_intervals(sel.scale_idx as int);
    &&& sel.scale_idx < SCALE_COUNT
    &&& forall|i: int| 0 <= i < ivs.len() ==> sel.root + #[trigger] ivs[i] <= usize::MAX
}

/// As [`scale_in_range`], and degree plus chord offset stays within `usize` too.
pub open spec fn selection_in_range(sel: Selection) -> bool {
    let civs = spec_chord_intervals(sel.chord_pattern);
    &&& scale_in_range(sel)
    &&& sel.chord_deg matches Some(d) ==> forall|k: int|
        0 <= k < civs.len() ==> d + #[trigger] civs[k] <= usize::MAX
}

/// Every chord pattern has at least two tones, offsets at most six scale steps.
proof fn lemma_chord_intervals_small(p: ChordPattern)
    ensures
        spec_chord_intervals(p).len() >= 2,
        forall|k: int| 0 <= k < spec_chord_intervals(p).len() ==> #[trigger] spec_chord_intervals(p)[k] <= 6,
{
}

/// Every scale has at least five notes, starts on its root and stays within the octave.
proof fn lemma_scale_intervals_small(i: int)
    ensures
        spec_scale_intervals(i).len() >= 5,
        forall|k: int| 0 <= k < spec_scale_intervals(i).len() ==> #[trigger] spec_scale_intervals(i)[k] < 12,
        spec_scale_intervals(i)[0] == 0,
{
}

impl Selection {
    /// The notes of the selected scale, in scale order.
    pub fn current_scale(&self) -> (notes: Vec<usize>)
        requires
            scale_in_range(*self),
        ensures
            notes@ == spec_current_scale(self.root as int, self.scale_idx as int),
    {
        let pattern = scale(self.scale_idx);
        let ivs = pattern.intervals;
        let mut notes: Vec<usize> = Vec::new();
        let mut i: usize = 0;
        while i < ivs.len()
            invariant
                0 <= i <= ivs.len(),
                ivs@ == spec_scale_intervals(self.scale_idx as int),
                scale_in_range(*self),
                notes@.len() == i,
                forall|j: int| 0 <= j < i ==> notes@[j] == (self.root + ivs@[j]) % 12,
            decreases ivs.len() - i,
        {
            assert(self.root + ivs@[i as int] <= usize::MAX);
            notes.push((self.root + ivs[i]) % 12);
            i += 1;
        }
        proof {
            assert(notes@ =~= spec_current_scale(self.root as int, self.scale_idx as int));
        }
        notes
    }

    /// The notes of the selected chord, root first; empty when no degree is selected.
    pub fn active_chord(&self) -> (notes: Vec<usize>)
        requires
            selection_in_range(*self),
        ensures
            notes@ == spec_active_chord(*self),
    {
        match self.chord_deg {
            None => {
                let v: Vec<usize> = Vec::new();
                proof {
                    assert(v@ =~= spec_active_chord(*self));
                }
                v
            },
            Some(deg) => {
                let scale_notes = self.current_scale();
                proof {
                    lemma_scale_intervals_small(self.scale_idx as int);
                }
                let n = scale_notes.len();
                let offsets = self.chord_pattern.intervals();
                let mut notes: Vec<usize> = Vec::new();
                let mut k: usize = 0;
                while k < offsets.len()
                    invariant
                        0 <= k <= offsets.len(),
                        n == scale_notes@.len(),
                        n > 0,
                        self.chord_deg == Some(deg),
                        selection_in_range(*self),
                        offsets@ == spec_chord_intervals(self.chord_pattern),
                        notes@.len() == k,
                        forall|j: int|
                            0 <= j < k ==> notes@[j] == scale_notes@[(deg + offsets@[j]) % (n as int)],
                    decreases offsets.len() - k,
                {
                    assert(deg + offsets@[k as int] <= usize::MAX);
                    notes.push(scale_notes[(deg + offsets[k]) % n]);
                    k += 1;
                }
                proof {
                    assert(notes@ =~= spec_active_chord(*self));
                }
                notes
            },
        }
    }
}

/// How a note is shown for the current selection.
#[derive(PartialEq, Eq, Structural, Clone, Copy, Debug)]
pub enum NoteRole {
    /// No scale is selected: every note is shown alike.
    AllNotes,
    /// The note belongs to the selected chord.
    InChord,
    /// A chord is selected and the note is not one of its tones.
    OutsideChord,
    /// The note belongs to the selected scale (no chord selected).
    InScale,
    /// No chord is selected and the note is outside the scale.
    OutsideScale,
}

/// The role of pitch class `pc` given the notes of the scale and of the chord.
pub open spec fn spec_note_role(sel: Selection, scale_notes: Seq<usize>, chord_notes: Seq<usize>, pc: usize) -> NoteRole {
    if sel.scale_idx == 0 {
        NoteRole::AllNotes
    } else if sel.chord_deg is Some {
        if chord_notes.contains(pc) { NoteRole::InChord } else { NoteRole::OutsideChord }
    } else {
        if scale_notes.contains(pc) { NoteRole::InScale } else { NoteRole::OutsideScale }
    }
}

/// Whether a note with this role is lit.
pub open spec fn role_is_lit(role: NoteRole) -> bool {
    role == NoteRole::AllNotes || role == NoteRole::InChord || role == NoteRole::InScale
}

fn list_contains(notes: &[usize], pc: usize) -> (r: bool)
    ensures
        r == notes@.contains(pc),
{
    let mut i: usize = 0;
    while i < notes.len()
        invariant
            0 <= i <= notes.len(),
            forall|j: int| 0 <= j < i ==> notes@[j] != pc,
        decreases notes.len() - i,
    {
        if notes[i] == pc {
            proof {
                assert(notes@[i as int] == pc);
            }
            return true;
        }
        i += 1;
    }
    false
}

/// Selection shown when the app starts: C major, no chord, triads.
pub open spec fn spec_initial_selection() -> Selection {
    Selection { root: 0, scale_idx: MAJOR_SCALE, chord_deg: None, chord_pattern: ChordPattern::Triad }
}

impl Selection {
    /// The starting selection: C major, no chord selected, triads.
    pub fn new() -> (sel: Selection)
        ensures
            sel == spec_initial_selection(),
            selection_in_range(sel),
    {
        Selection { root: 0, scale_idx: MAJOR_SCALE, chord_deg: None, chord_pattern: ChordPattern::Triad }
    }

    /// How pitch class `pc` is shown, given the current scale and chord notes.
    pub fn note_role(&self, scale_notes: &[usize], chord_notes: &[usize], pc: usize) -> (role: NoteRole)
        ensures
            role == spec_note_role(*self, scale_notes@, chord_notes@, pc),
    {
        if self.scale_idx == 0 {
            NoteRole::AllNotes
        } else if self.chord_deg.is_some() {
            if list_contains(chord_notes, pc) { NoteRole::InChord } else { NoteRole::OutsideChord }
        } else {
            if list_contains(scale_notes, pc) { NoteRole::InScale } else { NoteRole::OutsideScale }
        }
    }

    /// Picks a new root; a different root clears the chord selection.
    pub fn set_root(&mut self, root: usize)
        ensures
            final(self).root == root,
            final(self).scale_idx == old(self).scale_idx,
            final(self).chord_pattern == old(self).chord_pattern,
            final(self).chord_deg == if root == old(self).root { old(self).chord_deg } else { None },
    {
        if root != self.root {
            self.root = root;
            self.chord_deg = None;
        }
    }

    /// Picks a new scale; a different scale clears the chord selection.
    pub fn set_scale(&mut self, scale_idx: usize)
        ensures
            final(self).scale_idx == scale_idx,
            final(self).root == old(self).root,
            final(self).chord_pattern == old(self).chord_pattern,
            final(self).chord_deg == if scale_idx == old(self).scale_idx { old(self).chord_deg } else { None },
    {
        if scale_idx != self.scale_idx {
            self.scale_idx = scale_idx;
            self.chord_deg = None;
        }
    }

    /// Selects the chord on degree `deg`, or clears it when that degree was selected.
    pub fn toggle_degree(&mut self, deg: usize)
        ensures
            final(self).chord_deg == if old(self).chord_deg == Some(deg) { None } else { Some(deg) },
            final(self).root == old(self).root,
            final(self).scale_idx == old(self).scale_idx,
            final(self).chord_pattern == old(self).chord_pattern,
    {
        self.chord_deg = if self.chord_deg == Some(deg) { None } else { Some(deg) };
    }

    /// Selects the major key `pc` (as clicked on the circle of fifths).
    pub fn choose_major_key(&mut self, pc: usize)
        ensures
            *final(self) == (Selection {
                root: pc,
                scale_idx: MAJOR_SCALE,
                chord_deg: None,
                chord_pattern: old(self).chord_pattern,
            }),
    {
        self.root = pc;
        self.scale_idx = MAJOR_SCALE;
        self.chord_deg = None;
    }

    /// Selects the natural minor key `pc` (as clicked on the circle of fifths).
    pub fn choose_minor_key(&mut self, pc: usize)
        ensures
            *final(self) == (Selection {
                root: pc,
                scale_idx: MINOR_SCALE,
                chord_deg: None,
                chord_pattern: old(self).chord_pattern,
            }),
    {
        self.root = pc;
        self.scale_idx = MINOR_SCALE;
        self.chord_deg = None;
    }
}

/// What identifies the voicings on display: root, scale, chord pattern, degree.
pub open spec fn spec_cache_key(sel: Selection) -> Option<(usize, usize, ChordPattern, usize)> {
    match sel.chord_deg {
        Some(d) => Some((sel.root, sel.scale_idx, sel.chord_pattern, d)),
        None => None,
    }
}

/// Voicings of the selected chord, with the chord's first note as root.
pub open spec fn chord_voicings(sel: Selection) -> Seq<Seq<Option<u8>>> {
    let chord = spec_active_chord(sel);
    spec_generate_voicings(chord, chord[0] as int)
}

/// The guitar view's state: the selection, the voicings of the selected chord
/// (computed once per selection) and which of them is shown on the neck.
pub struct GuitarState {
    pub selection: Selection,
    pub selected_voicing: Option<usize>,
    pub voicings_cache: Vec<Voicing>,
    pub cache_key: Option<(usize, usize, ChordPattern, usize)>,
}

/// The guitar view's state with the voicings as fret lists.
pub struct GuitarStateView {
    pub selection: Selection,
    pub selected_voicing: Option<usize>,
    pub voicings: Seq<Seq<Option<u8>>>,
    pub cache_key: Option<(usize, usize, ChordPattern, usize)>,
}

impl View for GuitarState {
    type V = GuitarStateView;

    open spec fn view(&self) -> GuitarStateView {
        GuitarStateView {
            selection: self.selection,
            selected_voicing: self.selected_voicing,
            voicings: frets_of(self.voicings_cache@),
            cache_key: self.cache_key,
        }
    }
}

/// The state after bringing the voicings up to date with the selection:
/// unchanged when the selection still matches the cached one, otherwise the
/// voicings of the selected chord (none without a chord) and nothing selected.
pub open spec fn spec_refreshed(s: GuitarStateView) -> GuitarStateView {
    let key = spec_cache_key(s.selection);
    if key == s.cache_key {
        s
    } else {
        GuitarStateView {
            selection: s.selection,
            selected_voicing: None,
            voicings: if key is Some { chord_voicings(s.selection) } else { seq![] },
            cache_key: key,
        }
    }
}

fn same_key(
    a: &Option<(usize, usize, ChordPattern, usize)>,
    b: &Option<(usize, usize, ChordPattern, usize)>,
) -> (r: bool)
    ensures
        r == (*a == *b),
{
    match (a, b) {
        (None, None) => true,
        (Some(x), Some(y)) => x.0 == y.0 && x.1 == y.1 && x.2 == y.2 && x.3 == y.3,
        _ => false,
    }
}

/// The notes of the selected chord are pitch classes and there is at least one.
proof fn lemma_active_chord_pcs(sel: Selection)
    requires
        selection_in_range(sel),
        sel.chord_deg is Some,
    ensures
        spec_active_chord(sel).len() > 0,
        forall|k: int| 0 <= k < spec_active_chord(sel).len() ==> #[trigger] spec_active_chord(sel)[k] < 12,
{
    lemma_chord_intervals_small(sel.chord_pattern);
    lemma_scale_intervals_small(sel.scale_idx as int);
    let scale_notes = spec_current_scale(sel.root as int, sel.scale_idx as int);
    let deg = sel.chord_deg->0;
    let ivs = spec_chord_intervals(sel.chord_pattern);
    assert forall|k: int| 0 <= k < spec_active_chord(sel).len() implies #[trigger] spec_active_chord(sel)[k] < 12 by {
        let idx = (deg + ivs[k]) % (scale_notes.len() as int);
        assert(0 <= idx < scale_notes.len());
        assert(scale_notes[idx] < 12);
    }
}

impl GuitarState {
    /// The starting state: C major, no chord, no voicings.
    pub fn new() -> (s: GuitarState)
        ensures
            s.selection == spec_initial_selection(),
            s.selected_voicing is None,
            s.voicings_cache@.len() == 0,
            s.cache_key is None,
    {
        GuitarState {
            selection: Selection::new(),
            selected_voicing: None,
            voicings_cache: Vec::new(),
            cache_key: None,
        }
    }

    /// Recomputes the voicings when the selection changed since they were computed.
    pub fn refresh_voicings_if_needed(&mut self)
        requires
            spec_cache_key(old(self).selection) != old(self).cache_key && old(self).selection.chord_deg is Some
                ==> selection_in_range(old(self).selection),
        ensures
            final(self)@ == spec_refreshed(old(self)@),
    {
        let new_key = match self.selection.chord_deg {
            Some(d) => Some((self.selection.root, self.selection.scale_idx, self.selection.chord_pattern, d)),
            None => None,
        };
        if !same_key(&new_key, &self.cache_key) {
            self.cache_key = new_key;
            self.selected_voicing = None;
            self.voicings_cache = if new_key.is_some() {
                let chord = self.selection.active_chord();
                proof {
                    lemma_active_chord_pcs(self.selection);
                }
                let root_pc = chord[0];
                assert(signature_defined(chord@));
                generate_voicings(chord.as_slice(), root_pc)
            } else {
                let v: Vec<Voicing> = Vec::new();
                proof {
                    assert(frets_of(v@) =~= Seq::<Seq<Option<u8>>>::empty());
                }
                v
            };
        }
    }

    /// Shows voicing `i` on the neck, or hides it when it was the one shown.
    pub fn select_voicing(&mut self, i: usize)
        ensures
            final(self).selected_voicing == if old(self).selected_voicing == Some(i) { None } else { Some(i) },
            final(self).selection == old(self).selection,
            final(self).voicings_cache@ == old(self).voicings_cache@,
            final(self).cache_key == old(self).cache_key,
    {
        self.selected_voicing = if self.selected_voicing == Some(i) { None } else { Some(i) };
    }

    /// Whether fret `fret` of string `voicing_string` (0 = low E) is lit: the
    /// shown voicing's fret when a voicing is shown, else by the note's role.
    pub fn fret_is_active(
        &self,
        voicing_string: usize,
        fret: usize,
        pc: usize,
        scale_notes: &[usize],
        chord_notes: &[usize],
    ) -> (r: bool)
        requires
            self.selected_voicing matches Some(i) && i < self.voicings_cache@.len() ==> voicing_string < 6,
        ensures
            r == match self.selected_voicing {
                Some(i) if i < self.voicings_cache@.len() =>
                    self.voicings_cache@[i as int].frets@[voicing_string as int] == Some(fret as u8),
                _ => role_is_lit(spec_note_role(self.selection, scale_notes@, chord_notes@, pc)),
            },
    {
        match self.selected_voicing {
            Some(i) => {
                if i < self.voicings_cache.len() {
                    return self.voicings_cache[i].frets[voicing_string] == Some(fret as u8);
                }
            },
            None => {},
        }
        let role = self.selection.note_role(scale_notes, chord_notes, pc);
        match role {
            NoteRole::AllNotes => true,
            NoteRole::InChord => true,
            NoteRole::InScale => true,
            _ => false,
        }
    }
}

/// Every note of the selected chord is a note of the selected scale; the chord's
/// root is the note on the selected degree (counted around the scale).
pub proof fn lemma_chord_notes_in_scale(sel: Selection)
    requires
        selection_in_range(sel),
        sel.chord_deg is Some,
    ensures
        spec_active_chord(sel)[0] == spec_current_scale(sel.root as int, sel.scale_idx as int)[
            (sel.chord_deg->0) as int % (spec_current_scale(sel.root as int, sel.scale_idx as int).len() as int)
        ],
        forall|k: int| 0 <= k < spec_active_chord(sel).len()
            ==> spec_current_scale(sel.root as int, sel.scale_idx as int).contains(#[trigger] spec_active_chord(sel)[k]),
{
    lemma_chord_intervals_small(sel.chord_pattern);
    lemma_scale_intervals_small(sel.scale_idx as int);
    let scale_notes = spec_current_scale(sel.root as int, sel.scale_idx as int);
    let deg = sel.chord_deg->0;
    let ivs = spec_chord_intervals(sel.chord_pattern);
    assert(ivs[0] == 0);
    assert forall|k: int| 0 <= k < spec_active_chord(sel).len()
        implies scale_notes.contains(#[trigger] spec_active_chord(sel)[k]) by {
        let idx = (deg + ivs[k]) % (scale_notes.len() as int);
        assert(0 <= idx < scale_notes.len());
        assert(scale_notes[idx] == spec_active_chord(sel)[k]);
    }
}

/// The notes of the selected scale are pitch classes, the first being the root.
pub proof fn lemma_scale_starts_at_root(sel: Selection)
    requires
        selection_in_range(sel),
    ensures
        spec_current_scale(sel.root as int, sel.scale_idx as int)[0] == sel.root % 12,
        forall|i: int| 0 <= i < spec_current_scale(sel.root as int, sel.scale_idx as int).len()
            ==> #[trigger] spec_current_scale(sel.root as int, sel.scale_idx as int)[i] < 12,
{
    lemma_scale_intervals_small(sel.scale_idx as int);
}

/// Bringing the voicings up to date twice is the same as doing it once, and
/// afterwards they belong to the current selection.
pub proof fn lemma_refresh_idempotent(s: GuitarStateView)
    ensures
        spec_refreshed(spec_refreshed(s)) == spec_refreshed(s),
        spec_refreshed(s).cache_key == spec_cache_key(s.selection),
        spec_refreshed(s).selection == s.selection,
{
}

/// When the selection differs from the cached one, bringing the voicings up to
/// date gives those of the selected chord (none without one), none of them shown.
pub proof fn lemma_refreshed_voicings(s: GuitarStateView)
    requires
        s.cache_key != spec_cache_key(s.selection),
    ensures
        spec_refreshed(s).voicings == if s.selection.chord_deg is Some { chord_voicings(s.selection) } else { seq![] },
        spec_refreshed(s).selected_voicing is None,
{
}

} // verus!
