//! What every list of voicings from `generate_voicings` satisfies, whatever
//! the chord: the order, the absence of repeats, the search's own checks, and
//! where the transposed shapes put their root.

use vstd::prelude::*;
use crate::voicings::{
    spec_lowest_fret, bucket, lowest_is, sort_prefix, sort_by_lowest_fret, spec_dedup,
    first_per_bucket, at_most, candidates_from, expand, spec_opts, valid_pred,
    spec_algorithmic_voicings, MAX_SEARCHED, shape_voicings, playable_pred,
    spec_voicings_from_shapes, spec_generate_voicings, spec_quality_signature,
};
use crate::voicings::{
    MAX_FRET, expand_with, fret_candidates, string_options, window_low, window_high,
};
use crate::shapes::{Shape, spec_shapes_for, spec_apply, shape_shift, overflows, shifted};
use crate::shapes::{
    within_signature, sounds_signature_except, omitted_interval, string_interval, sounds_interval,
    sounds_interval_on, lemma_tables_voice_their_signature, lemma_transposed_string,
};
use crate::voicings::{
    chord_has, played_has, string_pc, has_interval, lemma_signature_shape, same_pc_set,
};

verus! {

broadcast use vstd::seq_lib::group_seq_properties;

/// Every element of `s` has property `p`.
pub open spec fn all_satisfy(s: Seq<Seq<Option<u8>>>, p: spec_fn(Seq<Option<u8>>) -> bool) -> bool {
    forall|i: int| 0 <= i < s.len() ==> #[trigger] p(s[i])
}

/// Voicings come in ascending order of lowest fret.
pub open spec fn ordered_by_lowest_fret(s: Seq<Seq<Option<u8>>>) -> bool {
    forall|i: int, j: int|
        0 <= i < j < s.len() ==> spec_lowest_fret(#[trigger] s[i]) <= spec_lowest_fret(#[trigger] s[j])
}

/// No voicing equals the one right after it.
pub open spec fn no_adjacent_repeats(s: Seq<Seq<Option<u8>>>) -> bool {
    forall|i: int| 0 <= i < s.len() - 1 ==> #[trigger] s[i] != s[i + 1]
}

/// No two voicings share a position (lowest fret halved).
pub open spec fn distinct_positions(s: Seq<Seq<Option<u8>>>) -> bool {
    forall|i: int, j: int| 0 <= i < j < s.len() ==> bucket(#[trigger] s[i]) != bucket(#[trigger] s[j])
}

proof fn lemma_filter_keeps(s: Seq<Seq<Option<u8>>>, q: spec_fn(Seq<Option<u8>>) -> bool, p: spec_fn(Seq<Option<u8>>) -> bool)
    requires
        all_satisfy(s, p),
    ensures
        all_satisfy(s.filter(q), p),
        all_satisfy(s.filter(q), q),
{
    assert forall|i: int| 0 <= i < s.filter(q).len() implies #[trigger] p(s.filter(q)[i]) && q(s.filter(q)[i]) by {
        let x = s.filter(q)[i];
        assert(s.filter(q).contains(x));
        s.lemma_filter_contains_rev(q, x);
        let j = choose|j: int| 0 <= j < s.len() && s[j] == x;
        assert(p(s[j]));
        s.lemma_filter_pred(q, i);
    }
}

proof fn lemma_sort_prefix(s: Seq<Seq<Option<u8>>>, n: nat, p: spec_fn(Seq<Option<u8>>) -> bool)
    requires
        all_satisfy(s, p),
    ensures
        all_satisfy(sort_prefix(s, n), p),
        ordered_by_lowest_fret(sort_prefix(s, n)),
        forall|i: int| 0 <= i < sort_prefix(s, n).len() ==> spec_lowest_fret(#[trigger] sort_prefix(s, n)[i]) < n,
    decreases n,
{
    if n > 0 {
        let prev = sort_prefix(s, (n - 1) as nat);
        let q = lowest_is(n - 1);
        let f = s.filter(q);
        lemma_sort_prefix(s, (n - 1) as nat, p);
        lemma_filter_keeps(s, q, p);
        assert(sort_prefix(s, n) == prev + f);
        assert forall|i: int| 0 <= i < f.len() implies spec_lowest_fret(#[trigger] f[i]) == n - 1 by {
            assert(q(f[i]));
        }
        let r = prev + f;
        assert forall|i: int| 0 <= i < r.len() implies #[trigger] p(r[i]) by {
            if i < prev.len() {
                assert(r[i] == prev[i]);
            } else {
                assert(r[i] == f[i - prev.len()]);
            }
        }
        assert forall|i: int| 0 <= i < r.len() implies spec_lowest_fret(#[trigger] r[i]) < n by {
            if i < prev.len() {
                assert(r[i] == prev[i]);
            } else {
                assert(r[i] == f[i - prev.len()]);
            }
        }
        assert forall|i: int, j: int| 0 <= i < j < r.len() implies spec_lowest_fret(#[trigger] r[i])
            <= spec_lowest_fret(#[trigger] r[j]) by {
            if j < prev.len() {
                assert(r[i] == prev[i] && r[j] == prev[j]);
            } else if i < prev.len() {
                assert(r[i] == prev[i]);
                assert(r[j] == f[j - prev.len()]);
            } else {
                assert(r[i] == f[i - prev.len()]);
                assert(r[j] == f[j - prev.len()]);
            }
        }
    }
}

proof fn lemma_sort(s: Seq<Seq<Option<u8>>>, p: spec_fn(Seq<Option<u8>>) -> bool)
    requires
        all_satisfy(s, p),
    ensures
        all_satisfy(sort_by_lowest_fret(s), p),
        ordered_by_lowest_fret(sort_by_lowest_fret(s)),
{
    lemma_sort_prefix(s, 256, p);
}

proof fn lemma_dedup(s: Seq<Seq<Option<u8>>>, p: spec_fn(Seq<Option<u8>>) -> bool)
    requires
        all_satisfy(s, p),
    ensures
        all_satisfy(spec_dedup(s), p),
        ordered_by_lowest_fret(s) ==> ordered_by_lowest_fret(spec_dedup(s)),
        no_adjacent_repeats(spec_dedup(s)),
        forall|i: int| 0 <= i < spec_dedup(s).len() ==> s.contains(#[trigger] spec_dedup(s)[i]),
    decreases s.len(),
{
    if s.len() > 0 {
        let init = s.drop_last();
        lemma_dedup(init, p);
        let d = spec_dedup(init);
        let r = spec_dedup(s);
        assert forall|i: int| 0 <= i < d.len() implies s.contains(#[trigger] d[i]) by {
            assert(init.contains(d[i]));
            let j = choose|j: int| 0 <= j < init.len() && init[j] == d[i];
            assert(s[j] == d[i]);
        }
        if ordered_by_lowest_fret(s) {
            assert(ordered_by_lowest_fret(init));
            assert forall|i: int| 0 <= i < d.len() implies spec_lowest_fret(#[trigger] d[i]) <= spec_lowest_fret(s.last()) by {
                assert(init.contains(d[i]));
                let j = choose|j: int| 0 <= j < init.len() && init[j] == d[i];
                assert(s[j] == d[i]);
            }
        }
        if !(d.len() > 0 && d.last() == s.last()) {
            assert(r == d.push(s.last()));
            assert(s.contains(s.last()));
        }
    }
}

proof fn lemma_first_per_bucket(s: Seq<Seq<Option<u8>>>, p: spec_fn(Seq<Option<u8>>) -> bool)
    requires
        all_satisfy(s, p),
    ensures
        all_satisfy(first_per_bucket(s), p),
        ordered_by_lowest_fret(s) ==> ordered_by_lowest_fret(first_per_bucket(s)),
        distinct_positions(first_per_bucket(s)),
        forall|i: int| 0 <= i < first_per_bucket(s).len() ==> s.contains(#[trigger] first_per_bucket(s)[i]),
    decreases s.len(),
{
    if s.len() > 0 {
        let init = s.drop_last();
        lemma_first_per_bucket(init, p);
        let d = first_per_bucket(init);
        assert forall|i: int| 0 <= i < d.len() implies s.contains(#[trigger] d[i]) by {
            assert(init.contains(d[i]));
            let j = choose|j: int| 0 <= j < init.len() && init[j] == d[i];
            assert(s[j] == d[i]);
        }
        if !(exists|j: int| 0 <= j < s.len() - 1 && bucket(#[trigger] s[j]) == bucket(s.last())) {
            let r = d.push(s.last());
            assert(first_per_bucket(s) == r);
            assert(s.contains(s.last()));
            assert forall|i: int| 0 <= i < d.len() implies bucket(#[trigger] d[i]) != bucket(s.last()) by {
                assert(init.contains(d[i]));
                let j = choose|j: int| 0 <= j < init.len() && init[j] == d[i];
                assert(s[j] == d[i]);
            }
            assert forall|i: int, j: int| 0 <= i < j < r.len() implies bucket(#[trigger] r[i]) != bucket(#[trigger] r[j]) by {
                if j == r.len() - 1 {
                    assert(r[i] == d[i]);
                } else {
                    assert(r[i] == d[i] && r[j] == d[j]);
                }
            }
            if ordered_by_lowest_fret(s) {
                assert(ordered_by_lowest_fret(init));
                assert forall|i: int| 0 <= i < d.len() implies spec_lowest_fret(#[trigger] d[i]) <= spec_lowest_fret(s.last()) by {
                    assert(init.contains(d[i]));
                    let j = choose|j: int| 0 <= j < init.len() && init[j] == d[i];
                    assert(s[j] == d[i]);
                }
            }
        }
    }
}

proof fn lemma_at_most(s: Seq<Seq<Option<u8>>>, n: nat, p: spec_fn(Seq<Option<u8>>) -> bool)
    requires
        all_satisfy(s, p),
    ensures
        all_satisfy(at_most(s, n), p),
        at_most(s, n).len() <= n,
        ordered_by_lowest_fret(s) ==> ordered_by_lowest_fret(at_most(s, n)),
        distinct_positions(s) ==> distinct_positions(at_most(s, n)),
{
    if s.len() > n {
        assert forall|i: int, j: int| 0 <= i < j < at_most(s, n).len() implies at_most(s, n)[i] == s[i] && at_most(s, n)[j] == s[j] by {}
    }
}

proof fn lemma_candidates_valid(pcs: Set<usize>, root: int, n: nat)
    ensures
        all_satisfy(candidates_from(pcs, root, n), valid_pred(pcs, root)),
    decreases n,
{
    if n > 0 {
        let prev = candidates_from(pcs, root, (n - 1) as nat);
        let e = expand(spec_opts(pcs, n - 1), 0, seq![]);
        let vp = valid_pred(pcs, root);
        lemma_candidates_valid(pcs, root, (n - 1) as nat);
        assert forall|i: int| 0 <= i < e.filter(vp).len() implies #[trigger] vp(e.filter(vp)[i]) by {
            e.lemma_filter_pred(vp, i);
        }
        let r = prev + e.filter(vp);
        assert forall|i: int| 0 <= i < r.len() implies #[trigger] vp(r[i]) by {
            if i < prev.len() {
                assert(r[i] == prev[i]);
            } else {
                assert(r[i] == e.filter(vp)[i - prev.len()]);
            }
        }
    }
}

/// The fretboard search only returns voicings that pass its checks: at least
/// three strings sound, they sound exactly the chord's pitch classes, the root
/// is in the bass, no muted string lies between played ones, and a hand can
/// hold the shape. It returns at most six, in ascending order of lowest fret,
/// no two at the same position (lowest fret halved).
pub proof fn lemma_search_results(pcs: Set<usize>, root: int)
    ensures
        all_satisfy(spec_algorithmic_voicings(pcs, root), valid_pred(pcs, root)),
        spec_algorithmic_voicings(pcs, root).len() <= MAX_SEARCHED,
        ordered_by_lowest_fret(spec_algorithmic_voicings(pcs, root)),
        distinct_positions(spec_algorithmic_voicings(pcs, root)),
{
    let vp = valid_pred(pcs, root);
    let c = candidates_from(pcs, root, 19);
    lemma_candidates_valid(pcs, root, 19);
    lemma_sort(c, vp);
    let s = sort_by_lowest_fret(c);
    lemma_dedup(s, vp);
    let d = spec_dedup(s);
    lemma_first_per_bucket(d, vp);
    lemma_at_most(first_per_bucket(d), MAX_SEARCHED as nat, vp);
}

/// Voicings from the shape tables are playable, in ascending order of lowest
/// fret, with no voicing repeated right after itself.
pub proof fn lemma_shape_results(shapes: Seq<Shape>, root: int)
    ensures
        all_satisfy(spec_voicings_from_shapes(shapes, root), playable_pred()),
        ordered_by_lowest_fret(spec_voicings_from_shapes(shapes, root)),
        no_adjacent_repeats(spec_voicings_from_shapes(shapes, root)),
{
    let pp = playable_pred();
    let a = shape_voicings(shapes, root);
    let truth = |f: Seq<Option<u8>>| true;
    lemma_filter_keeps(a, pp, truth);
    let f = a.filter(pp);
    lemma_sort(f, pp);
    lemma_dedup(sort_by_lowest_fret(f), pp);
}

/// Whatever the chord, its voicings are playable, come in ascending order of
/// lowest fret, and no voicing follows an equal one.
pub proof fn lemma_generated_voicings(pcs: Seq<usize>, root: int)
    ensures
        all_satisfy(spec_generate_voicings(pcs, root), playable_pred()),
        ordered_by_lowest_fret(spec_generate_voicings(pcs, root)),
        no_adjacent_repeats(spec_generate_voicings(pcs, root)),
{
    match spec_shapes_for(spec_quality_signature(pcs)) {
        Some(shapes) => {
            lemma_shape_results(shapes, root);
        },
        None => {
            lemma_search_results(pcs.to_set(), root);
            let r = spec_algorithmic_voicings(pcs.to_set(), root);
            assert forall|i: int| 0 <= i < r.len() implies #[trigger] playable_pred()(r[i]) by {
                assert(valid_pred(pcs.to_set(), root)(r[i]));
            }
            assert forall|i: int| 0 <= i < r.len() - 1 implies #[trigger] r[i] != r[i + 1] by {
                assert(bucket(r[i]) != bucket(r[i + 1]));
            }
        },
    }
}

/// Every played string of the voicing is stopped at most at the last fret.
pub open spec fn on_the_neck(f: Seq<Option<u8>>) -> bool {
    forall|i: int| 0 <= i < f.len() && #[trigger] f[i] is Some ==> f[i]->0 <= MAX_FRET
}

/// The voicings that stay on the neck.
pub open spec fn on_the_neck_pred() -> spec_fn(Seq<Option<u8>>) -> bool {
    |f: Seq<Option<u8>>| on_the_neck(f)
}

/// Every option of every string is muted or a fret on the neck.
pub open spec fn options_on_the_neck(opts: Seq<Seq<Option<u8>>>) -> bool {
    forall|s: int, k: int| 0 <= s < opts.len() && 0 <= k < opts[s].len() && #[trigger] opts[s][k] is Some
        ==> opts[s][k]->0 <= MAX_FRET
}

proof fn lemma_candidates_on_neck(pcs: Set<usize>, s: int, lo: int, n: nat)
    requires
        0 <= lo,
        lo + n - 1 <= MAX_FRET,
    ensures
        forall|k: int| 0 <= k < fret_candidates(pcs, s, lo, n).len() && #[trigger] fret_candidates(pcs, s, lo, n)[k] is Some
            ==> fret_candidates(pcs, s, lo, n)[k]->0 <= MAX_FRET,
    decreases n,
{
    if n > 0 {
        lemma_candidates_on_neck(pcs, s, lo, (n - 1) as nat);
        let prev = fret_candidates(pcs, s, lo, (n - 1) as nat);
        let r = fret_candidates(pcs, s, lo, n);
        assert forall|k: int| 0 <= k < r.len() && #[trigger] r[k] is Some implies r[k]->0 <= MAX_FRET by {
            if k < prev.len() {
                assert(r[k] == prev[k]);
            } else {
                assert(r[k] == Some((lo + n - 1) as u8));
            }
        }
    }
}

proof fn lemma_opts_on_neck(pcs: Set<usize>, start: int)
    requires
        0 <= start <= 18,
    ensures
        options_on_the_neck(spec_opts(pcs, start)),
{
    let opts = spec_opts(pcs, start);
    assert forall|s: int, k: int| 0 <= s < opts.len() && 0 <= k < opts[s].len() && #[trigger] opts[s][k] is Some
        implies opts[s][k]->0 <= MAX_FRET by {
        let lo = window_low(start);
        let hi = window_high(start);
        lemma_candidates_on_neck(pcs, s, lo, (hi - lo + 1) as nat);
        let base = if crate::voicings::chord_has(pcs, crate::voicings::spec_open_pc(s)) {
            seq![None, Some(0u8)]
        } else {
            seq![None]
        };
        let c = fret_candidates(pcs, s, lo, (hi - lo + 1) as nat);
        assert(opts[s] == base + c);
        if k >= base.len() {
            assert(opts[s][k] == c[k - base.len()]);
        }
    }
}

proof fn lemma_expand_on_neck(opts: Seq<Seq<Option<u8>>>, idx: nat, prefix: Seq<Option<u8>>)
    requires
        options_on_the_neck(opts),
        opts.len() == 6,
        on_the_neck(prefix),
    ensures
        all_satisfy(expand(opts, idx, prefix), on_the_neck_pred()),
    decreases 6 - idx, opts[idx as int].len() + 1,
{
    if idx < 6 {
        lemma_expand_with_on_neck(opts, idx, prefix, opts[idx as int].len());
    }
}

proof fn lemma_expand_with_on_neck(opts: Seq<Seq<Option<u8>>>, idx: nat, prefix: Seq<Option<u8>>, n: nat)
    requires
        options_on_the_neck(opts),
        opts.len() == 6,
        on_the_neck(prefix),
        idx < 6,
        n <= opts[idx as int].len(),
    ensures
        all_satisfy(expand_with(opts, idx, prefix, n), on_the_neck_pred()),
    decreases 6 - idx, n,
{
    if n > 0 {
        lemma_expand_with_on_neck(opts, idx, prefix, (n - 1) as nat);
        let o = opts[idx as int][n - 1];
        let next = prefix.push(o);
        assert forall|i: int| 0 <= i < next.len() && #[trigger] next[i] is Some implies next[i]->0 <= MAX_FRET by {
            if i < prefix.len() {
                assert(next[i] == prefix[i]);
            }
        }
        lemma_expand_on_neck(opts, idx + 1, next);
        let a = expand_with(opts, idx, prefix, (n - 1) as nat);
        let b = expand(opts, idx + 1, next);
        let r = a + b;
        assert(expand_with(opts, idx, prefix, n) == r);
        assert forall|i: int| 0 <= i < r.len() implies #[trigger] on_the_neck_pred()(r[i]) by {
            if i < a.len() {
                assert(r[i] == a[i]);
            } else {
                assert(r[i] == b[i - a.len()]);
            }
        }
    }
}

proof fn lemma_candidates_from_on_neck(pcs: Set<usize>, root: int, n: nat)
    requires
        n <= 19,
    ensures
        all_satisfy(candidates_from(pcs, root, n), on_the_neck_pred()),
    decreases n,
{
    if n > 0 {
        lemma_candidates_from_on_neck(pcs, root, (n - 1) as nat);
        let opts = spec_opts(pcs, n - 1);
        lemma_opts_on_neck(pcs, n - 1);
        lemma_expand_on_neck(opts, 0, seq![]);
        let e = expand(opts, 0, seq![]);
        let vp = valid_pred(pcs, root);
        lemma_filter_keeps(e, vp, on_the_neck_pred());
        let prev = candidates_from(pcs, root, (n - 1) as nat);
        let r = prev + e.filter(vp);
        assert forall|i: int| 0 <= i < r.len() implies #[trigger] on_the_neck_pred()(r[i]) by {
            if i < prev.len() {
                assert(r[i] == prev[i]);
            } else {
                assert(r[i] == e.filter(vp)[i - prev.len()]);
            }
        }
    }
}

proof fn lemma_shape_voicings_on_neck(shapes: Seq<Shape>, root: int)
    ensures
        all_satisfy(shape_voicings(shapes, root), on_the_neck_pred()),
    decreases shapes.len(),
{
    if shapes.len() > 0 {
        lemma_shape_voicings_on_neck(shapes.drop_last(), root);
        let prev = shape_voicings(shapes.drop_last(), root);
        let sh = shapes.last();
        if spec_apply(sh, root) is Some {
            let f = spec_apply(sh, root)->0;
            let shift = shape_shift(sh, root);
            assert forall|i: int| 0 <= i < f.len() && #[trigger] f[i] is Some implies f[i]->0 <= MAX_FRET by {
                assert(!overflows(sh, shift, i));
            }
            let r = prev.push(f);
            assert forall|i: int| 0 <= i < r.len() implies #[trigger] on_the_neck_pred()(r[i]) by {
                if i < prev.len() {
                    assert(r[i] == prev[i]);
                }
            }
        }
    }
}

/// No voicing reaches past the last fret of the neck.
pub proof fn lemma_generated_voicings_on_the_neck(pcs: Seq<usize>, root: int)
    ensures
        all_satisfy(spec_generate_voicings(pcs, root), on_the_neck_pred()),
{
    let np = on_the_neck_pred();
    match spec_shapes_for(spec_quality_signature(pcs)) {
        Some(shapes) => {
            lemma_shape_voicings_on_neck(shapes, root);
            let a = shape_voicings(shapes, root);
            lemma_filter_keeps(a, playable_pred(), np);
            let f = a.filter(playable_pred());
            lemma_sort(f, np);
            lemma_dedup(sort_by_lowest_fret(f), np);
        },
        None => {
            let p = pcs.to_set();
            lemma_candidates_from_on_neck(p, root, 19);
            let c = candidates_from(p, root, 19);
            lemma_sort(c, np);
            lemma_dedup(sort_by_lowest_fret(c), np);
            let d = spec_dedup(sort_by_lowest_fret(c));
            lemma_first_per_bucket(d, np);
            lemma_at_most(first_per_bucket(d), MAX_SEARCHED as nat, np);
        },
    }
}


// ----- the notes a voicing sounds -----

/// Every played string of `f` sounds a note of the chord `pcs`, and every note
/// of the chord is sounded, except one lying `omit` semitones above `root`.
pub open spec fn sounds_chord(f: Seq<Option<u8>>, pcs: Set<usize>, root: int, omit: int) -> bool {
    &&& forall|i: int| 0 <= i < f.len() && f[i] is Some ==> chord_has(pcs, #[trigger] string_pc(f, i))
    &&& forall|p: usize| #[trigger] pcs.contains(p) && (p + 12 - root) % 12 != omit ==> played_has(f, p as int)
}

/// [`sounds_chord`] as a predicate on voicings.
pub open spec fn sounds_chord_pred(pcs: Set<usize>, root: int, omit: int) -> spec_fn(Seq<Option<u8>>) -> bool {
    |f: Seq<Option<u8>>| sounds_chord(f, pcs, root, omit)
}

/// `a` lies `k` semitones above `b` exactly when `a` is `b` moved up by `k`.
proof fn lemma_interval_back(a: int, b: int, k: int)
    requires
        0 <= a < 12,
        0 <= b < 12,
        0 <= k < 12,
    ensures
        ((a + 12 - b) % 12 == k) <==> (a == (b + k) % 12),
{
}

proof fn lemma_shape_sounds_chord(shape: Shape, pcs: Seq<usize>)
    requires
        pcs.len() > 0,
        forall|i: int| 0 <= i < pcs.len() ==> #[trigger] pcs[i] < 12,
        within_signature(shape, spec_quality_signature(pcs)),
        sounds_signature_except(shape, spec_quality_signature(pcs), omitted_interval(spec_quality_signature(pcs))),
        spec_apply(shape, pcs[0] as int) is Some,
    ensures
        sounds_chord(
            spec_apply(shape, pcs[0] as int)->0,
            pcs.to_set(),
            pcs[0] as int,
            omitted_interval(spec_quality_signature(pcs)),
        ),
{
    let root = pcs[0] as int;
    let sig = spec_quality_signature(pcs);
    let omit = omitted_interval(sig);
    let f = spec_apply(shape, root)->0;
    let s = pcs.to_set();
    lemma_signature_shape(pcs);
    lemma_transposed_string(shape, root, 0);
    assert forall|i: int| 0 <= i < f.len() && f[i] is Some implies chord_has(s, #[trigger] string_pc(f, i)) by {
        lemma_transposed_string(shape, root, i);
        let iv = string_interval(shape, i);
        assert(0 <= iv < 12);
        assert(sig.contains(iv as usize));
        assert(has_interval(pcs, iv));
        let idx = choose|idx: int| 0 <= idx < pcs.len() && (#[trigger] pcs[idx] + 12 - pcs[0]) % 12 == iv;
        lemma_interval_back(pcs[idx] as int, root, iv);
        assert(s.contains(pcs[idx]));
    }
    assert forall|p: usize| #[trigger] s.contains(p) && (p + 12 - root) % 12 != omit implies played_has(f, p as int) by {
        assert(pcs.contains(p));
        let idx = choose|idx: int| 0 <= idx < pcs.len() && pcs[idx] == p;
        let k = (p + 12 - root) % 12;
        assert((pcs[idx] + 12 - pcs[0]) % 12 == k);
        assert(has_interval(pcs, k));
        assert(sig.contains(k as usize));
        let j = choose|j: int| 0 <= j < sig.len() && sig[j] == k as usize;
        assert(sounds_interval(shape, sig[j] as int));
        let i = choose|i: int| 0 <= i < 6 && #[trigger] sounds_interval_on(shape, i, k);
        lemma_transposed_string(shape, root, i);
        lemma_interval_back(p as int, root, k);
        assert(string_pc(f, i) == p);
    }
}

proof fn lemma_shape_voicings_sound(shapes: Seq<Shape>, pcs: Seq<usize>)
    requires
        pcs.len() > 0,
        forall|i: int| 0 <= i < pcs.len() ==> #[trigger] pcs[i] < 12,
        forall|k: int| 0 <= k < shapes.len() ==> #[trigger] within_signature(shapes[k], spec_quality_signature(pcs))
            && sounds_signature_except(shapes[k], spec_quality_signature(pcs), omitted_interval(spec_quality_signature(pcs))),
    ensures
        all_satisfy(
            shape_voicings(shapes, pcs[0] as int),
            sounds_chord_pred(pcs.to_set(), pcs[0] as int, omitted_interval(spec_quality_signature(pcs))),
        ),
    decreases shapes.len(),
{
    if shapes.len() > 0 {
        let root = pcs[0] as int;
        let sp = sounds_chord_pred(pcs.to_set(), root, omitted_interval(spec_quality_signature(pcs)));
        let init = shapes.drop_last();
        assert forall|k: int| 0 <= k < init.len() implies #[trigger] within_signature(init[k], spec_quality_signature(pcs))
            && sounds_signature_except(init[k], spec_quality_signature(pcs), omitted_interval(spec_quality_signature(pcs))) by {
            assert(init[k] == shapes[k]);
        }
        lemma_shape_voicings_sound(init, pcs);
        let prev = shape_voicings(init, root);
        let sh = shapes.last();
        assert(within_signature(shapes[shapes.len() - 1], spec_quality_signature(pcs)));
        if spec_apply(sh, root) is Some {
            lemma_shape_sounds_chord(sh, pcs);
            let r = prev.push(spec_apply(sh, root)->0);
            assert forall|i: int| 0 <= i < r.len() implies #[trigger] sp(r[i]) by {
                if i < prev.len() {
                    assert(r[i] == prev[i]);
                }
            }
        }
    }
}

/// Every voicing generated for a chord (its pitch classes `pcs`, root first)
/// sounds only notes of the chord on its played strings, and sounds every note
/// of the chord, the fifth of a dominant seventh excepted (its open C form
/// leaves the fifth out).
pub proof fn lemma_generated_voicings_sound_the_chord(pcs: Seq<usize>)
    requires
        pcs.len() > 0,
        forall|i: int| 0 <= i < pcs.len() ==> #[trigger] pcs[i] < 12,
    ensures
        forall|k: int, i: int|
            0 <= k < spec_generate_voicings(pcs, pcs[0] as int).len()
                && 0 <= i < spec_generate_voicings(pcs, pcs[0] as int)[k].len()
                && spec_generate_voicings(pcs, pcs[0] as int)[k][i] is Some
                ==> chord_has(pcs.to_set(), #[trigger] string_pc(spec_generate_voicings(pcs, pcs[0] as int)[k], i)),
        forall|k: int, p: usize|
            0 <= k < spec_generate_voicings(pcs, pcs[0] as int).len() && pcs.contains(p)
                && (p + 12 - pcs[0]) % 12 != omitted_interval(spec_quality_signature(pcs))
                ==> #[trigger] played_has(spec_generate_voicings(pcs, pcs[0] as int)[k], p as int),
        spec_quality_signature(pcs) != seq![0usize, 4, 7, 10] ==> forall|k: int, p: usize|
            0 <= k < spec_generate_voicings(pcs, pcs[0] as int).len() && pcs.contains(p)
                ==> #[trigger] played_has(spec_generate_voicings(pcs, pcs[0] as int)[k], p as int),
{
    let root = pcs[0] as int;
    let sig = spec_quality_signature(pcs);
    let omit = omitted_interval(sig);
    let sp = sounds_chord_pred(pcs.to_set(), root, omit);
    let r = spec_generate_voicings(pcs, root);
    match spec_shapes_for(sig) {
        Some(shapes) => {
            lemma_tables_voice_their_signature(sig);
            lemma_shape_voicings_sound(shapes, pcs);
            let a = shape_voicings(shapes, root);
            lemma_filter_keeps(a, playable_pred(), sp);
            let f = a.filter(playable_pred());
            lemma_sort(f, sp);
            lemma_dedup(sort_by_lowest_fret(f), sp);
        },
        None => {
            let vp = valid_pred(pcs.to_set(), root);
            lemma_search_results(pcs.to_set(), root);
            assert forall|k: int| 0 <= k < r.len() implies #[trigger] sp(r[k]) by {
                assert(vp(r[k]));
                assert(same_pc_set(r[k], pcs.to_set()));
                assert forall|i: int| 0 <= i < r[k].len() && r[k][i] is Some
                    implies chord_has(pcs.to_set(), #[trigger] string_pc(r[k], i)) by {
                    assert(played_has(r[k], string_pc(r[k], i)));
                }
            }
        },
    }
    assert(all_satisfy(r, sp));
    assert forall|k: int, i: int|
        0 <= k < r.len() && 0 <= i < r[k].len() && r[k][i] is Some
        implies chord_has(pcs.to_set(), #[trigger] string_pc(r[k], i)) by {
        assert(sp(r[k]));
    }
    assert forall|k: int, p: usize| 0 <= k < r.len() && pcs.contains(p) && (p + 12 - pcs[0]) % 12 != omit
        implies #[trigger] played_has(r[k], p as int) by {
        assert(sp(r[k]));
        assert(pcs.to_set().contains(p));
    }
    if sig != seq![0usize, 4, 7, 10] {
        assert(omit == -1);
        assert forall|k: int, p: usize| 0 <= k < r.len() && pcs.contains(p)
            implies #[trigger] played_has(r[k], p as int) by {
            assert(sp(r[k]));
            assert(pcs.to_set().contains(p));
        }
    }
}

} // verus!
