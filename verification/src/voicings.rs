//! Guitar chord voicings in standard tuning (E A D G B E, low string first).
//!
//! A voicing gives, for each of the six strings, either a fret (0 = open
//! string) or `None` for a muted string.

use vstd::prelude::*;
use std::collections::HashSet;
use vstd::std_specs::hash::{spec_hash_keys_iter, axiom_spec_hash_keys_iter};
use vstd::std_specs::iter::IteratorSpec;
use crate::shapes::{Shape, spec_apply, spec_shapes_for, shapes_for, shapes_well_formed};

verus! {

broadcast use {vstd::seq_lib::group_seq_properties, vstd::std_specs::hash::group_hash_axioms};

/// Highest fret a voicing may use.
pub const MAX_FRET: u8 = 22;

/// Pitch class of open string `string` (0 = low E .. 5 = high E).
pub open spec fn spec_open_pc(string: int) -> int {
    if string == 0 { 4 }
    else if string == 1 { 9 }
    else if string == 2 { 2 }
    else if string == 3 { 7 }
    else if string == 4 { 11 }
    else { 4 }
}

/// The pitch class that open string `string` sounds.
pub fn open_pc(string: usize) -> (pc: usize)
    requires
        string < 6,
    ensures
        pc == spec_open_pc(string as int),
{
    match string {
        0 => 4,
        1 => 9,
        2 => 2,
        3 => 7,
        4 => 11,
        _ => 4,
    }
}

/// The string is stopped above the nut.
pub open spec fn is_fretted(f: Option<u8>) -> bool {
    f is Some && f->0 > 0
}

/// The frets above the nut (non-zero frets of played strings), string order kept.
pub open spec fn fretted_values(frets: Seq<Option<u8>>) -> Seq<u8>
    decreases frets.len(),
{
    if frets.len() == 0 {
        seq![]
    } else {
        let rest = fretted_values(frets.drop_last());
        match frets.last() {
            Some(f) => if f > 0 { rest.push(f) } else { rest },
            None => rest,
        }
    }
}

/// Smallest element of a non-empty sequence (0 for the empty one).
pub open spec fn seq_min(s: Seq<u8>) -> int
    decreases s.len(),
{
    if s.len() == 0 {
        0
    } else if s.len() == 1 {
        s[0] as int
    } else {
        let m = seq_min(s.drop_last());
        if (s.last() as int) < m { s.last() as int } else { m }
    }
}

/// Largest element of a non-empty sequence (0 for the empty one).
pub open spec fn seq_max(s: Seq<u8>) -> int
    decreases s.len(),
{
    if s.len() == 0 {
        0
    } else if s.len() == 1 {
        s[0] as int
    } else {
        let m = seq_max(s.drop_last());
        if (s.last() as int) > m { s.last() as int } else { m }
    }
}

/// How many elements of `s` exceed `m`.
pub open spec fn count_above(s: Seq<u8>, m: int) -> nat
    decreases s.len(),
{
    if s.len() == 0 {
        0
    } else {
        count_above(s.drop_last(), m) + if (s.last() as int) > m { 1nat } else { 0nat }
    }
}

/// The lowest fret above the nut, or 0 when every played string is open.
pub open spec fn spec_lowest_fret(frets: Seq<Option<u8>>) -> int {
    let f = fretted_values(frets);
    if f.len() == 0 { 0 } else { seq_min(f) }
}

/// Distance between the highest and the lowest fret above the nut.
pub open spec fn spec_span(frets: Seq<Option<u8>>) -> int {
    let f = fretted_values(frets);
    if f.len() == 0 { 0 } else { seq_max(f) - seq_min(f) }
}

/// Number of strings that sound.
pub open spec fn count_played(frets: Seq<Option<u8>>) -> nat
    decreases frets.len(),
{
    if frets.len() == 0 {
        0
    } else {
        count_played(frets.drop_last()) + if frets.last() is Some { 1nat } else { 0nat }
    }
}

/// Pitch class sounded by string `i` (meaningful when the string is played).
pub open spec fn string_pc(frets: Seq<Option<u8>>, i: int) -> int {
    (spec_open_pc(i) + frets[i]->0) % 12
}

/// Pitch class of the lowest played string at or above string `i`.
pub open spec fn bass_from(frets: Seq<Option<u8>>, i: nat) -> Option<int>
    decreases frets.len() - i,
{
    if i >= frets.len() {
        None
    } else if frets[i as int] is Some {
        Some(string_pc(frets, i as int))
    } else {
        bass_from(frets, i + 1)
    }
}

/// Pitch class of the lowest played string.
pub open spec fn spec_bass_pc(frets: Seq<Option<u8>>) -> Option<int> {
    bass_from(frets, 0)
}

/// A muted string lies between two played strings.
pub open spec fn spec_has_gap(frets: Seq<Option<u8>>) -> bool {
    exists|i: int, j: int, k: int|
        0 <= i < j < k < frets.len() && #[trigger] frets[i] is Some && #[trigger] frets[j] is None
            && #[trigger] frets[k] is Some
}

/// A hand can hold the shape: the fretted notes lie within five frets and at
/// most four fingers are needed above the lowest fret (a barre covers it).
pub open spec fn spec_is_playable(frets: Seq<Option<u8>>) -> bool {
    let f = fretted_values(frets);
    f.len() == 0 || (seq_max(f) - seq_min(f) <= 4 && count_above(f, seq_min(f)) + 1 <= 5)
}

/// `x` is one of the chord's pitch classes.
pub open spec fn chord_has(pcs: Set<usize>, x: int) -> bool {
    exists|p: usize| #[trigger] pcs.contains(p) && p == x
}

/// Some played string sounds pitch class `x`.
pub open spec fn played_has(frets: Seq<Option<u8>>, x: int) -> bool {
    exists|i: int| 0 <= i < frets.len() && frets[i] is Some && string_pc(frets, i) == x
}

/// The played strings sound exactly the chord's pitch classes.
pub open spec fn same_pc_set(frets: Seq<Option<u8>>, pcs: Set<usize>) -> bool {
    &&& forall|p: usize| #[trigger] pcs.contains(p) ==> played_has(frets, p as int)
    &&& forall|x: int| played_has(frets, x) ==> chord_has(pcs, x)
}

/// A voicing the search keeps for the chord `pcs` with root `root`.
pub open spec fn spec_is_valid(frets: Seq<Option<u8>>, pcs: Set<usize>, root: int) -> bool {
    &&& count_played(frets) >= 3
    &&& same_pc_set(frets, pcs)
    &&& spec_bass_pc(frets) == Some(root)
    &&& !spec_has_gap(frets)
    &&& spec_is_playable(frets)
}

proof fn lemma_min_max_push(s: Seq<u8>, x: u8)
    ensures
        seq_min(s.push(x)) == if s.len() == 0 { x as int } else if (x as int) < seq_min(s) { x as int } else { seq_min(s) },
        seq_max(s.push(x)) == if s.len() == 0 { x as int } else if (x as int) > seq_max(s) { x as int } else { seq_max(s) },
        count_above(s.push(x), seq_min(s)) == count_above(s, seq_min(s)) + if (x as int) > seq_min(s) { 1nat } else { 0nat },
{
    assert(s.push(x).drop_last() =~= s);
}

proof fn lemma_prefix_step(frets: Seq<Option<u8>>, i: int)
    requires
        0 <= i < frets.len(),
    ensures
        frets.take(i + 1).drop_last() =~= frets.take(i),
        frets.take(i + 1).last() == frets[i],
{
}

/// A guitar voicing: a fret per string, `None` for a muted string.
#[derive(Clone, Debug, PartialEq, Eq, Hash)]
pub struct Voicing {
    pub frets: [Option<u8>; 6],
}

impl Voicing {
    /// The lowest and highest frets above the nut, if any string is fretted.
    fn fretted_bounds(&self) -> (b: Option<(u8, u8)>)
        ensures
            match b {
                None => fretted_values(self.frets@).len() == 0,
                Some((lo, hi)) => fretted_values(self.frets@).len() > 0
                    && lo == seq_min(fretted_values(self.frets@))
                    && hi == seq_max(fretted_values(self.frets@)) && lo <= hi,
            },
    {
        let mut b: Option<(u8, u8)> = None;
        let mut i: usize = 0;
        while i < 6
            invariant
                0 <= i <= 6,
                match b {
                    None => fretted_values(self.frets@.take(i as int)).len() == 0,
                    Some((lo, hi)) => fretted_values(self.frets@.take(i as int)).len() > 0
                        && lo == seq_min(fretted_values(self.frets@.take(i as int)))
                        && hi == seq_max(fretted_values(self.frets@.take(i as int))) && lo <= hi,
                },
            decreases 6 - i,
        {
            proof {
                lemma_prefix_step(self.frets@, i as int);
            }
            let ghost prev = fretted_values(self.frets@.take(i as int));
            match self.frets[i] {
                Some(f) => {
                    if f > 0 {
                        proof {
                            lemma_min_max_push(prev, f);
                        }
                        b = match b {
                            None => Some((f, f)),
                            Some((lo, hi)) => Some(
                                (if f < lo { f } else { lo }, if f > hi { f } else { hi }),
                            ),
                        };
                    }
                },
                None => {},
            }
            i += 1;
        }
        proof {
            assert(self.frets@.take(6) =~= self.frets@);
        }
        b
    }

    /// The lowest fret above the nut (0 when every played string is open).
    pub fn lowest_fret(&self) -> (r: u8)
        ensures
            r == spec_lowest_fret(self.frets@),
    {
        match self.fretted_bounds() {
            None => 0,
            Some((lo, _)) => lo,
        }
    }

    /// How many frets the fretted notes stretch over (highest minus lowest).
    pub fn span(&self) -> (r: u8)
        ensures
            r == spec_span(self.frets@),
    {
        match self.fretted_bounds() {
            None => 0,
            Some((lo, hi)) => hi - lo,
        }
    }

    /// Number of strings that sound.
    pub fn strings_played(&self) -> (r: usize)
        ensures
            r == count_played(self.frets@),
    {
        let mut n: usize = 0;
        let mut i: usize = 0;
        while i < 6
            invariant
                0 <= i <= 6,
                n == count_played(self.frets@.take(i as int)),
                n <= i,
            decreases 6 - i,
        {
            proof {
                lemma_prefix_step(self.frets@, i as int);
            }
            if self.frets[i].is_some() {
                n += 1;
            }
            i += 1;
        }
        proof {
            assert(self.frets@.take(6) =~= self.frets@);
        }
        n
    }

    /// Pitch class of the lowest played string, `None` when every string is muted.
    pub fn bass_pc(&self) -> (r: Option<usize>)
        ensures
            match r {
                None => spec_bass_pc(self.frets@) is None,
                Some(pc) => spec_bass_pc(self.frets@) == Some(pc as int) && pc < 12,
            },
    {
        let mut i: usize = 0;
        while i < 6
            invariant
                0 <= i <= 6,
                bass_from(self.frets@, 0) == bass_from(self.frets@, i as nat),
            decreases 6 - i,
        {
            match self.frets[i] {
                Some(fret) => {
                    return Some((open_pc(i) + fret as usize) % 12);
                },
                None => {},
            }
            i += 1;
        }
        None
    }
}

/// A muted string lies between two played strings.
pub fn has_gap(v: &Voicing) -> (r: bool)
    ensures
        r == spec_has_gap(v.frets@),
{
    let ghost f = v.frets@;
    let mut started = false;
    let mut had_mute = false;
    let mut i: usize = 0;
    while i < 6
        invariant
            0 <= i <= 6,
            f == v.frets@,
            started == (exists|a: int| 0 <= a < i && #[trigger] f[a] is Some),
            had_mute == (exists|a: int, b: int|
                0 <= a < b < i && #[trigger] f[a] is Some && #[trigger] f[b] is None),
            !(exists|a: int, b: int, c: int|
                0 <= a < b < c < i && #[trigger] f[a] is Some && #[trigger] f[b] is None
                    && #[trigger] f[c] is Some),
        decreases 6 - i,
    {
        if v.frets[i].is_some() {
            if had_mute {
                proof {
                    let (a, b) = choose|a: int, b: int|
                        0 <= a < b < i && #[trigger] f[a] is Some && #[trigger] f[b] is None;
                    assert(f[i as int] is Some);
                }
                return true;
            }
            started = true;
        } else if started {
            proof {
                let a = choose|a: int| 0 <= a < i && #[trigger] f[a] is Some;
                assert(f[i as int] is None);
            }
            had_mute = true;
        }
        i += 1;
    }
    false
}

/// Whether a hand can hold the voicing.
pub fn is_playable(v: &Voicing) -> (r: bool)
    ensures
        r == spec_is_playable(v.frets@),
{
    match v.fretted_bounds() {
        None => true,
        Some((min, max)) => {
            if max - min > 4 {
                return false;
            }
            let ghost all = fretted_values(v.frets@);
            let mut above: usize = 0;
            let mut i: usize = 0;
            while i < 6
                invariant
                    0 <= i <= 6,
                    all == fretted_values(v.frets@),
                    min == seq_min(all),
                    above == count_above(fretted_values(v.frets@.take(i as int)), min as int),
                    above <= i,
                decreases 6 - i,
            {
                proof {
                    lemma_prefix_step(v.frets@, i as int);
                }
                let ghost prev = fretted_values(v.frets@.take(i as int));
                match v.frets[i] {
                    Some(x) => {
                        if x > 0 {
                            proof {
                                assert(prev.push(x).drop_last() =~= prev);
                            }
                            if x > min {
                                above += 1;
                            }
                        }
                    },
                    None => {},
                }
                i += 1;
            }
            proof {
                assert(v.frets@.take(6) =~= v.frets@);
            }
            above + 1 <= 5
        },
    }
}

/// Whether the chord `pcs` contains pitch class `x`.
fn chord_contains(pcs: &HashSet<usize>, x: usize) -> (r: bool)
    ensures
        r == chord_has(pcs@, x as int),
{
    let r = pcs.contains(&x);
    proof {
        if r {
            assert(pcs@.contains(x));
        }
    }
    r
}

/// Whether some played string of `v` sounds pitch class `x`.
fn sounds_pc(v: &Voicing, x: usize) -> (r: bool)
    ensures
        r == played_has(v.frets@, x as int),
{
    let mut i: usize = 0;
    while i < 6
        invariant
            0 <= i <= 6,
            forall|j: int| 0 <= j < i ==> !(v.frets@[j] is Some && string_pc(v.frets@, j) == x),
        decreases 6 - i,
    {
        match v.frets[i] {
            Some(fr) => {
                if (open_pc(i) + fr as usize) % 12 == x {
                    proof {
                        assert(v.frets@[i as int] is Some && string_pc(v.frets@, i as int) == x);
                    }
                    return true;
                }
            },
            None => {},
        }
        i += 1;
    }
    false
}

/// Whether the played strings sound exactly the chord's pitch classes.
fn has_same_pcs(v: &Voicing, pcs: &HashSet<usize>) -> (r: bool)
    ensures
        r == same_pc_set(v.frets@, pcs@),
{
    let ghost keys = spec_hash_keys_iter(pcs).remaining();
    proof {
        axiom_spec_hash_keys_iter(pcs);
    }
    for p in it: pcs.iter()
        invariant
            it.seq() == keys,
            keys.unref().to_set() == pcs@,
            forall|j: int| 0 <= j < it.index() ==> played_has(v.frets@, *#[trigger] keys[j] as int),
    {
        if !sounds_pc(v, *p) {
            proof {
                assert(keys.unref()[it.index() as int] == *p);
                assert(pcs@.contains(*p));
            }
            return false;
        }
    }
    assert forall|p: usize| #[trigger] pcs@.contains(p) implies played_has(v.frets@, p as int) by {
        let s = keys.unref();
        assert(s.to_set().contains(p));
        let j = choose|j: int| 0 <= j < s.len() && s[j] == p;
        assert(played_has(v.frets@, *keys[j] as int));
    }
    let mut i: usize = 0;
    while i < 6
        invariant
            0 <= i <= 6,
            forall|p: usize| #[trigger] pcs@.contains(p) ==> played_has(v.frets@, p as int),
            forall|j: int|
                0 <= j < i && #[trigger] v.frets@[j] is Some ==> chord_has(pcs@, string_pc(v.frets@, j)),
        decreases 6 - i,
    {
        match v.frets[i] {
            Some(fr) => {
                if !chord_contains(pcs, (open_pc(i) + fr as usize) % 12) {
                    proof {
                        assert(played_has(v.frets@, string_pc(v.frets@, i as int)));
                    }
                    return false;
                }
            },
            None => {},
        }
        i += 1;
    }
    proof {
        assert forall|x: int| played_has(v.frets@, x) implies chord_has(pcs@, x) by {
            let j = choose|j: int| 0 <= j < 6 && v.frets@[j] is Some && string_pc(v.frets@, j) == x;
            assert(v.frets@[j] is Some);
        }
    }
    true
}

/// Whether the search keeps voicing `v` for the chord `pcs` rooted at `root_pc`:
/// at least three strings, exactly the chord's pitch classes, the root in the
/// bass, no muted string between played ones, and playable.
pub fn is_valid(v: &Voicing, pcs: &HashSet<usize>, root_pc: usize) -> (r: bool)
    ensures
        r == spec_is_valid(v.frets@, pcs@, root_pc as int),
{
    if v.strings_played() < 3 {
        return false;
    }
    if !has_same_pcs(v, pcs) {
        return false;
    }
    match v.bass_pc() {
        Some(b) => {
            if b != root_pc {
                return false;
            }
        },
        None => {
            return false;
        },
    }
    if has_gap(v) {
        return false;
    }
    is_playable(v)
}

/// The fret lists of a list of voicings.
pub open spec fn frets_of(vs: Seq<Voicing>) -> Seq<Seq<Option<u8>>> {
    vs.map_values(|v: Voicing| v.frets@)
}

proof fn lemma_frets_of_push(vs: Seq<Voicing>, v: Voicing)
    ensures
        frets_of(vs.push(v)) == frets_of(vs).push(v.frets@),
{
    assert(frets_of(vs.push(v)) =~= frets_of(vs).push(v.frets@));
}

proof fn lemma_take_push<A>(s: Seq<A>, i: int)
    requires
        0 <= i < s.len(),
    ensures
        s.take(i + 1) == s.take(i).push(s[i]),
        s.take(i + 1).drop_last() == s.take(i),
        s.take(i + 1).last() == s[i],
{
    assert(s.take(i + 1) =~= s.take(i).push(s[i]));
    assert(s.take(i + 1).drop_last() =~= s.take(i));
}

// ----- interval signature -----

/// Every pitch class lies within an octave above the first one's reach, so
/// that `p + 12 - first` neither wraps nor goes below zero.
pub open spec fn signature_defined(pcs: Seq<usize>) -> bool {
    forall|i: int|
        0 <= i < pcs.len() ==> #[trigger] pcs[i] + 12 >= pcs[0] && pcs[i] + 12 <= usize::MAX
}

/// Some pitch class of the chord lies `k` semitones (mod 12) above the first one.
pub open spec fn has_interval(pcs: Seq<usize>, k: int) -> bool {
    exists|i: int| 0 <= i < pcs.len() && (#[trigger] pcs[i] + 12 - pcs[0]) % 12 == k
}

/// The intervals below `n` that the chord holds, ascending.
pub open spec fn intervals_below(pcs: Seq<usize>, n: nat) -> Seq<usize>
    decreases n,
{
    if n == 0 {
        seq![]
    } else {
        let r = intervals_below(pcs, (n - 1) as nat);
        if has_interval(pcs, n - 1) { r.push((n - 1) as usize) } else { r }
    }
}

/// The chord quality: the distinct intervals above the first pitch class, ascending.
pub open spec fn spec_quality_signature(pcs: Seq<usize>) -> Seq<usize> {
    intervals_below(pcs, 12)
}

fn holds_interval(pcs: &[usize], k: usize) -> (r: bool)
    requires
        signature_defined(pcs@),
    ensures
        r == has_interval(pcs@, k as int),
{
    let mut i: usize = 0;
    while i < pcs.len()
        invariant
            0 <= i <= pcs.len(),
            signature_defined(pcs@),
            forall|j: int| 0 <= j < i ==> (#[trigger] pcs@[j] + 12 - pcs@[0]) % 12 != k,
        decreases pcs.len() - i,
    {
        if (pcs[i] + 12 - pcs[0]) % 12 == k {
            return true;
        }
        i += 1;
    }
    false
}

/// The chord's distinct intervals above its first pitch class, ascending.
pub fn quality_signature(pcs: &[usize]) -> (r: Vec<usize>)
    requires
        signature_defined(pcs@),
    ensures
        r@ == spec_quality_signature(pcs@),
{
    let mut r: Vec<usize> = Vec::new();
    let mut k: usize = 0;
    while k < 12
        invariant
            0 <= k <= 12,
            signature_defined(pcs@),
            r@ == intervals_below(pcs@, k as nat),
        decreases 12 - k,
    {
        if holds_interval(pcs, k) {
            r.push(k);
        }
        k += 1;
    }
    r
}

// ----- ordering and duplicates -----

/// The voicings whose lowest fret is `k`.
pub open spec fn lowest_is(k: int) -> spec_fn(Seq<Option<u8>>) -> bool {
    |f: Seq<Option<u8>>| spec_lowest_fret(f) == k
}

/// The voicings with lowest fret below `n`, grouped by lowest fret, each group in input order.
pub open spec fn sort_prefix(s: Seq<Seq<Option<u8>>>, n: nat) -> Seq<Seq<Option<u8>>>
    decreases n,
{
    if n == 0 {
        seq![]
    } else {
        sort_prefix(s, (n - 1) as nat) + s.filter(lowest_is(n - 1))
    }
}

/// Stable sort by lowest fret: voicings grouped by lowest fret in ascending order,
/// those with equal lowest fret kept in input order.
pub open spec fn sort_by_lowest_fret(s: Seq<Seq<Option<u8>>>) -> Seq<Seq<Option<u8>>> {
    sort_prefix(s, 256)
}

/// Removes each element equal to the one before it.
pub open spec fn spec_dedup(s: Seq<Seq<Option<u8>>>) -> Seq<Seq<Option<u8>>>
    decreases s.len(),
{
    if s.len() == 0 {
        s
    } else {
        let d = spec_dedup(s.drop_last());
        if d.len() > 0 && d.last() == s.last() { d } else { d.push(s.last()) }
    }
}

fn copy_voicing(v: &Voicing) -> (r: Voicing)
    ensures
        r.frets@ == v.frets@,
{
    Voicing { frets: v.frets }
}

fn same_frets(a: &Voicing, b: &Voicing) -> (r: bool)
    ensures
        r == (a.frets@ == b.frets@),
{
    let mut i: usize = 0;
    while i < 6
        invariant
            0 <= i <= 6,
            forall|j: int| 0 <= j < i ==> a.frets@[j] == b.frets@[j],
        decreases 6 - i,
    {
        if a.frets[i] != b.frets[i] {
            return false;
        }
        i += 1;
    }
    proof {
        assert(a.frets@ =~= b.frets@);
    }
    true
}

/// Stable sort of the voicings by lowest fret.
fn sort_voicings(vs: &Vec<Voicing>) -> (r: Vec<Voicing>)
    ensures
        frets_of(r@) == sort_by_lowest_fret(frets_of(vs@)),
{
    let ghost s = frets_of(vs@);
    let mut out: Vec<Voicing> = Vec::new();
    let mut k: usize = 0;
    while k < 256
        invariant
            0 <= k <= 256,
            s == frets_of(vs@),
            frets_of(out@) == sort_prefix(s, k as nat),
        decreases 256 - k,
    {
        let mut j: usize = 0;
        while j < vs.len()
            invariant
                0 <= j <= vs.len(),
                k < 256,
                s == frets_of(vs@),
                frets_of(out@) == sort_prefix(s, k as nat) + s.take(j as int).filter(lowest_is(k as int)),
            decreases vs.len() - j,
        {
            proof {
                lemma_take_push(s, j as int);
                s.take(j as int).lemma_filter_push(s[j as int], lowest_is(k as int));
            }
            if vs[j].lowest_fret() as usize == k {
                let c = copy_voicing(&vs[j]);
                proof {
                    lemma_frets_of_push(out@, c);
                }
                out.push(c);
            }
            j += 1;
        }
        proof {
            assert(s.take(vs.len() as int) =~= s);
        }
        k += 1;
    }
    out
}

/// Drops each voicing equal to the one before it.
fn dedup_voicings(vs: &Vec<Voicing>) -> (r: Vec<Voicing>)
    ensures
        frets_of(r@) == spec_dedup(frets_of(vs@)),
{
    let ghost s = frets_of(vs@);
    let mut out: Vec<Voicing> = Vec::new();
    let mut i: usize = 0;
    while i < vs.len()
        invariant
            0 <= i <= vs.len(),
            s == frets_of(vs@),
            frets_of(out@) == spec_dedup(s.take(i as int)),
        decreases vs.len() - i,
    {
        proof {
            lemma_take_push(s, i as int);
        }
        let n = out.len();
        if n > 0 && same_frets(&out[n - 1], &vs[i]) {
        } else {
            let c = copy_voicing(&vs[i]);
            proof {
                lemma_frets_of_push(out@, c);
            }
            out.push(c);
        }
        i += 1;
    }
    proof {
        assert(s.take(vs.len() as int) =~= s);
    }
    out
}

// ----- voicings from the shape tables -----

/// The shapes transposed to `root`, those running past the last fret left out.
pub open spec fn shape_voicings(shapes: Seq<Shape>, root: int) -> Seq<Seq<Option<u8>>>
    decreases shapes.len(),
{
    if shapes.len() == 0 {
        seq![]
    } else {
        let prev = shape_voicings(shapes.drop_last(), root);
        match spec_apply(shapes.last(), root) {
            Some(f) => prev.push(f),
            None => prev,
        }
    }
}

/// The playable voicings.
pub open spec fn playable_pred() -> spec_fn(Seq<Option<u8>>) -> bool {
    |f: Seq<Option<u8>>| spec_is_playable(f)
}

/// Voicings of a chord from its shape table: transposed, playable, sorted by
/// lowest fret, repeats next to each other removed.
pub open spec fn spec_voicings_from_shapes(shapes: Seq<Shape>, root: int) -> Seq<Seq<Option<u8>>> {
    spec_dedup(sort_by_lowest_fret(shape_voicings(shapes, root).filter(playable_pred())))
}

fn voicings_from_shapes(shapes: &Vec<Shape>, root_pc: usize) -> (r: Vec<Voicing>)
    requires
        shapes_well_formed(shapes@),
        root_pc + 12 <= usize::MAX,
    ensures
        frets_of(r@) == spec_voicings_from_shapes(shapes@, root_pc as int),
{
    let mut found: Vec<Voicing> = Vec::new();
    let mut i: usize = 0;
    while i < shapes.len()
        invariant
            0 <= i <= shapes.len(),
            shapes_well_formed(shapes@),
            root_pc + 12 <= usize::MAX,
            frets_of(found@) == shape_voicings(shapes@.take(i as int), root_pc as int).filter(
                playable_pred(),
            ),
        decreases shapes.len() - i,
    {
        proof {
            lemma_take_push(shapes@, i as int);
        }
        let ghost prev = shape_voicings(shapes@.take(i as int), root_pc as int);
        match shapes[i].apply(root_pc) {
            Some(v) => {
                proof {
                    prev.lemma_filter_push(v.frets@, playable_pred());
                }
                if is_playable(&v) {
                    proof {
                        lemma_frets_of_push(found@, v);
                    }
                    found.push(v);
                }
            },
            None => {},
        }
        i += 1;
    }
    proof {
        assert(shapes@.take(shapes.len() as int) =~= shapes@);
    }
    let sorted = sort_voicings(&found);
    dedup_voicings(&sorted)
}

// ----- search over fret positions -----

/// Frets `lo .. lo + n` of string `s` whose note belongs to the chord, ascending.
pub open spec fn fret_candidates(pcs: Set<usize>, s: int, lo: int, n: nat) -> Seq<Option<u8>>
    decreases n,
{
    if n == 0 {
        seq![]
    } else {
        let prev = fret_candidates(pcs, s, lo, (n - 1) as nat);
        let f = lo + n - 1;
        if chord_has(pcs, (spec_open_pc(s) + f) % 12) { prev.push(Some(f as u8)) } else { prev }
    }
}

/// First fret of the five-fret window that starts at `start` (the nut is handled apart).
pub open spec fn window_low(start: int) -> int {
    if start > 1 { start } else { 1 }
}

/// Last fret of the five-fret window that starts at `start`.
pub open spec fn window_high(start: int) -> int {
    if start + 4 < MAX_FRET { start + 4 } else { MAX_FRET as int }
}

/// What string `s` may do in the window at `start`: be muted, ring open if its
/// open note is a chord tone, or stop a chord tone inside the window.
pub open spec fn string_options(pcs: Set<usize>, start: int, s: int) -> Seq<Option<u8>> {
    let lo = window_low(start);
    let hi = window_high(start);
    let base = if chord_has(pcs, spec_open_pc(s)) {
        seq![None, Some(0u8)]
    } else {
        seq![None]
    };
    base + fret_candidates(pcs, s, lo, (hi - lo + 1) as nat)
}

/// The options of every string for the window at `start`.
pub open spec fn spec_opts(pcs: Set<usize>, start: int) -> Seq<Seq<Option<u8>>> {
    Seq::new(6, |s: int| string_options(pcs, start, s))
}

/// The option lists as sequences.
pub open spec fn options_view(opts: Seq<Vec<Option<u8>>>) -> Seq<Seq<Option<u8>>> {
    opts.map_values(|o: Vec<Option<u8>>| o@)
}

/// Every way to complete `prefix` (strings before `idx` chosen) by picking an
/// option for each remaining string; earlier strings vary slowest.
pub open spec fn expand(opts: Seq<Seq<Option<u8>>>, idx: nat, prefix: Seq<Option<u8>>) -> Seq<Seq<Option<u8>>>
    decreases 6 - idx, opts[idx as int].len() + 1,
{
    if idx >= 6 {
        seq![prefix]
    } else {
        expand_with(opts, idx, prefix, opts[idx as int].len())
    }
}

/// The completions of `prefix` whose string `idx` takes one of its first `n` options.
pub open spec fn expand_with(opts: Seq<Seq<Option<u8>>>, idx: nat, prefix: Seq<Option<u8>>, n: nat) -> Seq<Seq<Option<u8>>>
    decreases 6 - idx, n,
{
    if n == 0 || idx >= 6 {
        seq![]
    } else {
        expand_with(opts, idx, prefix, (n - 1) as nat) + expand(
            opts,
            idx + 1,
            prefix.push(opts[idx as int][n - 1]),
        )
    }
}

/// The voicings the search keeps for chord `pcs` with root `root`.
pub open spec fn valid_pred(pcs: Set<usize>, root: int) -> spec_fn(Seq<Option<u8>>) -> bool {
    |f: Seq<Option<u8>>| spec_is_valid(f, pcs, root)
}

/// The valid voicings found in the windows starting at frets `0 .. n`, window by window.
pub open spec fn candidates_from(pcs: Set<usize>, root: int, n: nat) -> Seq<Seq<Option<u8>>>
    decreases n,
{
    if n == 0 {
        seq![]
    } else {
        candidates_from(pcs, root, (n - 1) as nat) + expand(spec_opts(pcs, n - 1), 0, seq![]).filter(
            valid_pred(pcs, root),
        )
    }
}

/// Voicings are told apart by position in pairs of frets.
pub open spec fn bucket(frets: Seq<Option<u8>>) -> int {
    spec_lowest_fret(frets) / 2
}

/// Keeps each voicing whose position (lowest fret halved) no earlier voicing has.
pub open spec fn first_per_bucket(s: Seq<Seq<Option<u8>>>) -> Seq<Seq<Option<u8>>>
    decreases s.len(),
{
    if s.len() == 0 {
        s
    } else {
        let p = first_per_bucket(s.drop_last());
        if exists|j: int| 0 <= j < s.len() - 1 && bucket(#[trigger] s[j]) == bucket(s.last()) {
            p
        } else {
            p.push(s.last())
        }
    }
}

/// The first `n` elements (all of them when fewer).
pub open spec fn at_most(s: Seq<Seq<Option<u8>>>, n: nat) -> Seq<Seq<Option<u8>>> {
    if s.len() > n { s.take(n as int) } else { s }
}

/// Most voicings the search returns.
pub const MAX_SEARCHED: usize = 6;

/// Voicings found by searching every five-fret window from the nut up to fret 18:
/// the valid ones, sorted by lowest fret, repeats next to each other removed, then
/// the first of each position, at most six.
pub open spec fn spec_algorithmic_voicings(pcs: Set<usize>, root: int) -> Seq<Seq<Option<u8>>> {
    at_most(
        first_per_bucket(spec_dedup(sort_by_lowest_fret(candidates_from(pcs, root, 19)))),
        MAX_SEARCHED as nat,
    )
}

/// The options of every string for the window that starts at fret `start`.
fn build_opts(pcs: &HashSet<usize>, start: u8) -> (r: Vec<Vec<Option<u8>>>)
    requires
        start <= 18,
    ensures
        r@.len() == 6,
        options_view(r@) == spec_opts(pcs@, start as int),
{
    let mut opts: Vec<Vec<Option<u8>>> = Vec::new();
    let lo: u8 = if start > 1 { start } else { 1 };
    let hi: u8 = if start + 4 < 22 { start + 4 } else { 22 };
    let mut s: usize = 0;
    while s < 6
        invariant
            0 <= s <= 6,
            start <= 18,
            lo == window_low(start as int),
            hi == window_high(start as int),
            opts@.len() == s,
            forall|t: int| 0 <= t < s ==> (#[trigger] opts@[t])@ == string_options(pcs@, start as int, t),
        decreases 6 - s,
    {
        let open = open_pc(s);
        let mut o: Vec<Option<u8>> = Vec::new();
        o.push(None);
        if chord_contains(pcs, open) {
            o.push(Some(0));
        }
        let ghost base = o@;
        assert(base == if chord_has(pcs@, spec_open_pc(s as int)) {
            seq![None, Some(0u8)]
        } else {
            seq![None]
        });
        let mut f: u8 = lo;
        while f <= hi
            invariant
                lo <= f <= hi + 1,
                hi <= 22,
                open == spec_open_pc(s as int),
                o@ == base + fret_candidates(pcs@, s as int, lo as int, (f - lo) as nat),
            decreases hi + 1 - f,
        {
            let ghost prev = fret_candidates(pcs@, s as int, lo as int, (f - lo) as nat);
            if chord_contains(pcs, (open + f as usize) % 12) {
                o.push(Some(f));
                assert(base + prev.push(Some(f)) =~= (base + prev).push(Some(f)));
            }
            f += 1;
        }
        opts.push(o);
        s += 1;
    }
    proof {
        assert(options_view(opts@) =~= spec_opts(pcs@, start as int));
    }
    opts
}

proof fn lemma_expand_done(opts: Seq<Seq<Option<u8>>>, prefix: Seq<Option<u8>>)
    ensures
        expand(opts, 6, prefix) == seq![prefix],
{
}

/// Appends, in enumeration order, every valid completion of the strings
/// chosen so far (`cur` below `idx`).
fn cartesian(
    opts: &Vec<Vec<Option<u8>>>,
    idx: usize,
    cur: [Option<u8>; 6],
    pcs: &HashSet<usize>,
    root_pc: usize,
    all: &mut Vec<Voicing>,
)
    requires
        idx <= 6,
        opts@.len() == 6,
    ensures
        frets_of(final(all)@) == frets_of(old(all)@) + expand(
            options_view(opts@),
            idx as nat,
            cur@.take(idx as int),
        ).filter(valid_pred(pcs@, root_pc as int)),
    decreases 6 - idx,
{
    let ghost ov = options_view(opts@);
    let ghost vp = valid_pred(pcs@, root_pc as int);
    let ghost prefix = cur@.take(idx as int);
    if idx == 6 {
        let v = Voicing { frets: cur };
        proof {
            assert(prefix =~= cur@);
            lemma_expand_done(ov, prefix);
            reveal_with_fuel(Seq::filter, 2);
            assert(seq![prefix].drop_last() =~= Seq::<Seq<Option<u8>>>::empty());
        }
        if is_valid(&v, pcs, root_pc) {
            proof {
                lemma_frets_of_push(all@, v);
            }
            all.push(v);
        } else {
            assert(frets_of(all@) =~= frets_of(all@) + Seq::<Seq<Option<u8>>>::empty());
        }
        return;
    }
    let options = &opts[idx];
    assert(options@ == ov[idx as int]);
    let ghost start = frets_of(all@);
    let mut j: usize = 0;
    while j < options.len()
        invariant
            0 <= j <= options.len(),
            idx < 6,
            opts@.len() == 6,
            ov == options_view(opts@),
            vp == valid_pred(pcs@, root_pc as int),
            options@ == ov[idx as int],
            prefix == cur@.take(idx as int),
            frets_of(all@) == start + expand_with(ov, idx as nat, prefix, j as nat).filter(vp),
        decreases options.len() - j,
    {
        let mut next = cur;
        next[idx] = options[j];
        proof {
            assert(next@.take(idx + 1) =~= prefix.push(ov[idx as int][j as int]));
        }
        let ghost before = frets_of(all@);
        cartesian(opts, idx + 1, next, pcs, root_pc, all);
        proof {
            let a = expand_with(ov, idx as nat, prefix, j as nat);
            let b = expand(ov, (idx + 1) as nat, prefix.push(ov[idx as int][j as int]));
            assert(expand_with(ov, idx as nat, prefix, (j + 1) as nat) == a + b);
            Seq::filter_distributes_over_add(a, b, vp);
        }
        j += 1;
    }
    proof {
        assert(expand(ov, idx as nat, prefix) == expand_with(ov, idx as nat, prefix, options.len() as nat));
    }
}

/// Keeps the first voicing of each position (lowest fret halved), at most six.
fn first_of_each_position(vs: &Vec<Voicing>) -> (r: Vec<Voicing>)
    ensures
        frets_of(r@) == at_most(first_per_bucket(frets_of(vs@)), MAX_SEARCHED as nat),
{
    let ghost s = frets_of(vs@);
    let mut used: HashSet<u8> = HashSet::new();
    let mut kept: Vec<Voicing> = Vec::new();
    let mut i: usize = 0;
    while i < vs.len()
        invariant
            0 <= i <= vs.len(),
            s == frets_of(vs@),
            frets_of(kept@) == at_most(first_per_bucket(s.take(i as int)), 6),
            forall|b: u8| used@.contains(b) <==> exists|j: int| 0 <= j < i && bucket(#[trigger] s[j]) == b,
        decreases vs.len() - i,
    {
        proof {
            lemma_take_push(s, i as int);
        }
        let ghost fp = first_per_bucket(s.take(i as int));
        let ghost before = used@;
        let b = vs[i].lowest_fret() / 2;
        assert(b == bucket(s[i as int]));
        if used.insert(b) {
            proof {
                assert forall|j: int| 0 <= j < s.take(i + 1).len() - 1 implies bucket(
                    #[trigger] s.take(i + 1)[j],
                ) != bucket(s.take(i + 1).last()) by {
                    if bucket(s.take(i + 1)[j]) == bucket(s.take(i + 1).last()) {
                        assert(bucket(s[j]) == b);
                        assert(before.contains(b));
                    }
                }
                assert(first_per_bucket(s.take(i + 1)) == fp.push(s[i as int]));
            }
            if kept.len() < 6 {
                let c = copy_voicing(&vs[i]);
                proof {
                    lemma_frets_of_push(kept@, c);
                    assert(frets_of(kept@).len() == kept@.len());
                    assert(fp.len() < 6);
                }
                kept.push(c);
            } else {
                proof {
                    assert(fp.push(s[i as int]).take(6) =~= fp.take(6));
                }
            }
        } else {
            proof {
                let j0 = choose|j: int| 0 <= j < i && bucket(#[trigger] s[j]) == b;
                assert(s.take(i + 1)[j0] == s[j0]);
                assert(first_per_bucket(s.take(i + 1)) == fp);
            }
        }
        proof {
            assert forall|c: u8| used@.contains(c) <==> exists|j: int|
                0 <= j < i + 1 && bucket(#[trigger] s[j]) == c by {
                if c == b {
                    assert(bucket(s[i as int]) == c);
                }
            }
        }
        i += 1;
    }
    proof {
        assert(s.take(vs.len() as int) =~= s);
    }
    kept
}

/// Searches the fretboard for voicings of the chord `chord_pcs` with `root_pc` in the bass.
pub fn algorithmic_voicings(chord_pcs: &[usize], root_pc: usize) -> (r: Vec<Voicing>)
    ensures
        frets_of(r@) == spec_algorithmic_voicings(chord_pcs@.to_set(), root_pc as int),
{
    let mut pcs: HashSet<usize> = HashSet::new();
    let mut k: usize = 0;
    while k < chord_pcs.len()
        invariant
            0 <= k <= chord_pcs.len(),
            pcs@ == chord_pcs@.take(k as int).to_set(),
        decreases chord_pcs.len() - k,
    {
        proof {
            lemma_take_push(chord_pcs@, k as int);
            assert(chord_pcs@.take(k + 1).to_set() =~= chord_pcs@.take(k as int).to_set().insert(chord_pcs@[k as int]));
        }
        pcs.insert(chord_pcs[k]);
        k += 1;
    }
    proof {
        assert(chord_pcs@.take(chord_pcs.len() as int) =~= chord_pcs@);
    }
    let mut all: Vec<Voicing> = Vec::new();
    let mut start: u8 = 0;
    while start <= 18
        invariant
            0 <= start <= 19,
            frets_of(all@) == candidates_from(pcs@, root_pc as int, start as nat),
        decreases 19 - start,
    {
        let opts = build_opts(&pcs, start);
        let cur: [Option<u8>; 6] = [None, None, None, None, None, None];
        proof {
            assert(cur@.take(0) =~= Seq::<Option<u8>>::empty());
        }
        cartesian(&opts, 0, cur, &pcs, root_pc, &mut all);
        start += 1;
    }
    let sorted = sort_voicings(&all);
    let deduped = dedup_voicings(&sorted);
    first_of_each_position(&deduped)
}

/// Voicings of the chord with pitch classes `pcs` and root `root`: from the shape
/// table of its quality when it has one, else from the fretboard search.
pub open spec fn spec_generate_voicings(pcs: Seq<usize>, root: int) -> Seq<Seq<Option<u8>>> {
    match spec_shapes_for(spec_quality_signature(pcs)) {
        Some(shapes) => spec_voicings_from_shapes(shapes, root),
        None => spec_algorithmic_voicings(pcs.to_set(), root),
    }
}

/// Guitar voicings of the chord whose pitch classes are `chord_pcs` (the first
/// one taken as the reference for its quality), with `root_pc` as root.
///
/// Triads, power chords, suspended chords and the common sevenths come from
/// hand-made shapes moved up the neck; any other chord is searched for.
pub fn generate_voicings(chord_pcs: &[usize], root_pc: usize) -> (r: Vec<Voicing>)
    requires
        signature_defined(chord_pcs@),
        spec_shapes_for(spec_quality_signature(chord_pcs@)) is Some ==> root_pc + 12 <= usize::MAX,
    ensures
        frets_of(r@) == spec_generate_voicings(chord_pcs@, root_pc as int),
{
    let intervals = quality_signature(chord_pcs);
    match shapes_for(intervals.as_slice()) {
        Some(shapes) => voicings_from_shapes(&shapes, root_pc),
        None => algorithmic_voicings(chord_pcs, root_pc),
    }
}

// ----- laws of the single-voicing measures -----

proof fn lemma_fretted_values_members(frets: Seq<Option<u8>>)
    ensures
        forall|x: u8| fretted_values(frets).contains(x) <==> exists|i: int|
            0 <= i < frets.len() && #[trigger] frets[i] == Some(x) && x > 0,
    decreases frets.len(),
{
    if frets.len() > 0 {
        let init = frets.drop_last();
        let last = frets.last();
        lemma_fretted_values_members(init);
        let fi = fretted_values(init);
        let fv = fretted_values(frets);
        assert forall|x: u8| fv.contains(x) <==> exists|i: int|
            0 <= i < frets.len() && #[trigger] frets[i] == Some(x) && x > 0 by {
            let in_init = exists|i: int| 0 <= i < init.len() && #[trigger] init[i] == Some(x) && x > 0;
            let at_last = last == Some(x) && x > 0;
            if exists|i: int| 0 <= i < frets.len() && #[trigger] frets[i] == Some(x) && x > 0 {
                let i = choose|i: int| 0 <= i < frets.len() && #[trigger] frets[i] == Some(x) && x > 0;
                if i < frets.len() - 1 {
                    assert(init[i] == Some(x));
                    assert(in_init);
                } else {
                    assert(at_last);
                }
            }
            if in_init {
                let i = choose|i: int| 0 <= i < init.len() && #[trigger] init[i] == Some(x) && x > 0;
                assert(frets[i] == Some(x));
            }
            if at_last {
                assert(frets[frets.len() - 1] == Some(x));
            }
            if is_fretted(last) {
                assert(fv == fi.push(last->0));
                if fv.contains(x) && !fi.contains(x) {
                    let j = choose|j: int| 0 <= j < fv.len() && fv[j] == x;
                    assert(j == fv.len() - 1);
                    assert(at_last);
                }
                if fi.contains(x) {
                    let j = choose|j: int| 0 <= j < fi.len() && fi[j] == x;
                    assert(fv[j] == x);
                }
                if at_last {
                    assert(fv[fv.len() - 1] == x);
                }
            } else {
                assert(fv == fi);
            }
        }
    }
}

proof fn lemma_min_max_bounds(s: Seq<u8>)
    requires
        s.len() > 0,
    ensures
        s.contains(seq_min(s) as u8),
        s.contains(seq_max(s) as u8),
        forall|i: int| 0 <= i < s.len() ==> seq_min(s) <= #[trigger] s[i] <= seq_max(s),
    decreases s.len(),
{
    if s.len() > 1 {
        let init = s.drop_last();
        lemma_min_max_bounds(init);
        assert forall|i: int| 0 <= i < s.len() implies seq_min(s) <= #[trigger] s[i] <= seq_max(s) by {
            if i < s.len() - 1 {
                assert(s[i] == init[i]);
            }
        }
        if (s.last() as int) < seq_min(init) {
            assert(s[s.len() - 1] == s.last());
        } else {
            let j = choose|j: int| 0 <= j < init.len() && init[j] == seq_min(init) as u8;
            assert(s[j] == init[j]);
        }
        if (s.last() as int) > seq_max(init) {
            assert(s[s.len() - 1] == s.last());
        } else {
            let j = choose|j: int| 0 <= j < init.len() && init[j] == seq_max(init) as u8;
            assert(s[j] == init[j]);
        }
    } else {
        assert(s[0] == s[s.len() - 1]);
    }
}

/// The lowest fret is the smallest fret above the nut among the played
/// strings (0 when all played strings are open), and the span is the distance
/// from it to the highest one.
pub proof fn lemma_lowest_fret_is_lowest(frets: Seq<Option<u8>>)
    ensures
        forall|i: int| 0 <= i < frets.len() && is_fretted(#[trigger] frets[i])
            ==> spec_lowest_fret(frets) <= frets[i]->0 <= spec_lowest_fret(frets) + spec_span(frets),
        spec_lowest_fret(frets) == 0 <==> forall|i: int|
            0 <= i < frets.len() ==> !is_fretted(#[trigger] frets[i]),
        spec_lowest_fret(frets) != 0 ==> exists|i: int|
            0 <= i < frets.len() && #[trigger] frets[i] == Some(spec_lowest_fret(frets) as u8),
        spec_span(frets) >= 0,
{
    let fv = fretted_values(frets);
    lemma_fretted_values_members(frets);
    if fv.len() > 0 {
        lemma_min_max_bounds(fv);
        assert forall|i: int| 0 <= i < frets.len() && is_fretted(#[trigger] frets[i])
            implies spec_lowest_fret(frets) <= frets[i]->0 <= spec_lowest_fret(frets) + spec_span(frets) by {
            let f = frets[i]->0;
            assert(fv.contains(f));
            let j = choose|j: int| 0 <= j < fv.len() && fv[j] == f;
            assert(seq_min(fv) <= fv[j] <= seq_max(fv));
        }
        let m = seq_min(fv) as u8;
        assert(fv.contains(m));
        assert(m > 0);
        let i = choose|i: int| 0 <= i < frets.len() && #[trigger] frets[i] == Some(m) && m > 0;
        assert(is_fretted(frets[i]));
    } else {
        assert forall|i: int| 0 <= i < frets.len() implies !is_fretted(#[trigger] frets[i]) by {
            if is_fretted(frets[i]) {
                assert(fv.contains(frets[i]->0));
            }
        }
    }
}

/// A playable voicing spans at most four frets.
pub proof fn lemma_playable_span(frets: Seq<Option<u8>>)
    requires
        spec_is_playable(frets),
    ensures
        spec_span(frets) <= 4,
{
}

/// The bass note is a pitch class.
pub proof fn lemma_bass_is_pitch_class(frets: Seq<Option<u8>>, i: nat)
    ensures
        bass_from(frets, i) matches Some(pc) ==> 0 <= pc < 12,
    decreases frets.len() - i,
{
    if i < frets.len() && !(frets[i as int] is Some) {
        lemma_bass_is_pitch_class(frets, i + 1);
    }
}

/// The interval signature lists distinct intervals in ascending order, all
/// below 12, and starts with 0 (the first note itself) when the chord is not empty.
pub proof fn lemma_signature_shape(pcs: Seq<usize>)
    ensures
        forall|i: int, j: int| 0 <= i < j < spec_quality_signature(pcs).len()
            ==> #[trigger] spec_quality_signature(pcs)[i] < #[trigger] spec_quality_signature(pcs)[j],
        forall|i: int| 0 <= i < spec_quality_signature(pcs).len() ==> #[trigger] spec_quality_signature(pcs)[i] < 12,
        forall|k: int| 0 <= k < 12 ==> (spec_quality_signature(pcs).contains(k as usize) <==> has_interval(pcs, k)),
        pcs.len() > 0 && signature_defined(pcs) ==> spec_quality_signature(pcs).len() > 0 && spec_quality_signature(pcs)[0] == 0,
{
    lemma_intervals_below(pcs, 12);
    if pcs.len() > 0 && signature_defined(pcs) {
        assert((pcs[0] + 12 - pcs[0]) % 12 == 0);
        assert(has_interval(pcs, 0));
        assert(spec_quality_signature(pcs).contains(0usize));
        let s = spec_quality_signature(pcs);
        let j = choose|j: int| 0 <= j < s.len() && s[j] == 0usize;
        if j > 0 {
            assert(s[0] < s[j]);
        }
    }
}

proof fn lemma_intervals_below(pcs: Seq<usize>, n: nat)
    requires
        n <= 12,
    ensures
        forall|i: int, j: int| 0 <= i < j < intervals_below(pcs, n).len()
            ==> #[trigger] intervals_below(pcs, n)[i] < #[trigger] intervals_below(pcs, n)[j],
        forall|i: int| 0 <= i < intervals_below(pcs, n).len() ==> #[trigger] intervals_below(pcs, n)[i] < n,
        forall|k: int| 0 <= k < n ==> (intervals_below(pcs, n).contains(k as usize) <==> has_interval(pcs, k)),
        forall|x: usize| n <= x ==> !#[trigger] intervals_below(pcs, n).contains(x),
    decreases n,
{
    if n > 0 {
        let prev = intervals_below(pcs, (n - 1) as nat);
        lemma_intervals_below(pcs, (n - 1) as nat);
        let r = intervals_below(pcs, n);
        if has_interval(pcs, n - 1) {
            assert(r == prev.push((n - 1) as usize));
            assert(r[r.len() - 1] == (n - 1) as usize);
        }
        assert forall|k: int| 0 <= k < n implies (r.contains(k as usize) <==> has_interval(pcs, k)) by {
            if k < n - 1 {
                if r.contains(k as usize) && !prev.contains(k as usize) {
                    let j = choose|j: int| 0 <= j < r.len() && r[j] == k as usize;
                    assert(j == r.len() - 1);
                }
                if prev.contains(k as usize) {
                    let j = choose|j: int| 0 <= j < prev.len() && prev[j] == k as usize;
                    assert(r[j] == prev[j]);
                }
            } else {
                if !has_interval(pcs, k) && r.contains(k as usize) {
                    assert(prev.contains(k as usize));
                }
            }
        }
        assert forall|x: usize| n <= x implies !#[trigger] r.contains(x) by {
            if r.contains(x) {
                let j = choose|j: int| 0 <= j < r.len() && r[j] == x;
                if j < prev.len() {
                    assert(prev[j] == r[j]);
                }
            }
        }
    }
}

/// The interval signature does not depend on the key: moving every note of a
/// chord up by the same number of semitones leaves it unchanged.
pub proof fn lemma_signature_transposition(pcs: Seq<usize>, moved: Seq<usize>, k: int)
    requires
        0 <= k < 12,
        moved.len() == pcs.len(),
        forall|i: int| 0 <= i < pcs.len() ==> #[trigger] pcs[i] < 12,
        forall|i: int| 0 <= i < pcs.len() ==> #[trigger] moved[i] == (pcs[i] + k) % 12,
    ensures
        spec_quality_signature(moved) == spec_quality_signature(pcs),
{
    assert forall|x: int| has_interval(moved, x) == has_interval(pcs, x) by {
        assert forall|i: int| 0 <= i < pcs.len() implies (#[trigger] moved[i] + 12 - moved[0]) % 12
            == (pcs[i] + 12 - pcs[0]) % 12 by {
            let a = pcs[i] as int;
            let b = pcs[0] as int;
            assert(moved[i] == (a + k) % 12);
            assert(moved[0] == (b + k) % 12);
            if a + k < 12 && b + k < 12 {
            } else if a + k >= 12 && b + k < 12 {
                assert(moved[i] == a + k - 12);
            } else if a + k < 12 && b + k >= 12 {
                assert(moved[0] == b + k - 12);
            } else {
                assert(moved[i] == a + k - 12);
                assert(moved[0] == b + k - 12);
            }
        }
        if has_interval(moved, x) {
            let i = choose|i: int| 0 <= i < moved.len() && (#[trigger] moved[i] + 12 - moved[0]) % 12 == x;
            assert((pcs[i] + 12 - pcs[0]) % 12 == x);
        }
        if has_interval(pcs, x) {
            let i = choose|i: int| 0 <= i < pcs.len() && (#[trigger] pcs[i] + 12 - pcs[0]) % 12 == x;
            assert((moved[i] + 12 - moved[0]) % 12 == x);
        }
    }
    lemma_same_intervals(pcs, moved, 12);
}

proof fn lemma_same_intervals(a: Seq<usize>, b: Seq<usize>, n: nat)
    requires
        forall|x: int| has_interval(a, x) == has_interval(b, x),
    ensures
        intervals_below(a, n) == intervals_below(b, n),
    decreases n,
{
    if n > 0 {
        lemma_same_intervals(a, b, (n - 1) as nat);
        assert(has_interval(a, n - 1) == has_interval(b, n - 1));
    }
}

} // verus!
