//! The 88-key piano keyboard, from A0 to C8.

use vstd::prelude::*;
use crate::theory::{note_name, spec_note_name};
use crate::labels::{digit, spec_digit};

verus! {

/// Number of keys on the keyboard.
pub const KEY_COUNT: usize = 88;

/// Number of white keys on the keyboard.
pub const WHITE_KEY_COUNT: usize = 52;

/// A key of the keyboard. Key `number` 0 is A0; its pitch is
/// 27.5 Hz times 2 to the power `number / 12`.
pub struct PianoKey {
    pub name: String,
    pub number: usize,
    pub chromatic_idx: usize,
    pub is_black: bool,
    pub white_idx: usize,
}

/// Pitch classes played on black keys.
pub open spec fn spec_is_black(pc: int) -> bool {
    pc == 1 || pc == 3 || pc == 6 || pc == 8 || pc == 10
}

/// Pitch class of key `i` (key 0 is an A).
pub open spec fn key_pc(i: int) -> int {
    (i + 9) % 12
}

/// Octave number of key `i` in scientific pitch notation.
pub open spec fn key_octave(i: int) -> int {
    (i + 9) / 12
}

/// Number of white keys below key `i`.
pub open spec fn whites_before(i: nat) -> nat
    decreases i,
{
    if i == 0 {
        0
    } else {
        whites_before((i - 1) as nat) + if spec_is_black(key_pc(i - 1)) { 0nat } else { 1nat }
    }
}

/// Column of key `i`: a white key's index among the white keys; a black key
/// takes the index of the white key just below it.
pub open spec fn spec_white_idx(i: nat) -> int {
    if spec_is_black(key_pc(i as int)) { whites_before(i) - 1 } else { whites_before(i) as int }
}

/// Key `i` as laid out by [`generate_keys`].
pub open spec fn key_matches(k: PianoKey, i: int) -> bool {
    &&& k.number == i
    &&& k.chromatic_idx == key_pc(i)
    &&& k.is_black == spec_is_black(key_pc(i))
    &&& k.white_idx == spec_white_idx(i as nat)
    &&& k.name@ == spec_note_name(key_pc(i)) + spec_digit(key_octave(i))
}

fn is_black_pc(pc: usize) -> (b: bool)
    ensures
        b == spec_is_black(pc as int),
{
    pc == 1 || pc == 3 || pc == 6 || pc == 8 || pc == 10
}

/// The keys from A0 up to C8, in order.
pub fn generate_keys() -> (keys: Vec<PianoKey>)
    ensures
        keys@.len() == KEY_COUNT,
        forall|i: int| 0 <= i < KEY_COUNT ==> key_matches(#[trigger] keys@[i], i),
{
    let mut keys: Vec<PianoKey> = Vec::with_capacity(88);
    let mut w_idx: usize = 0;
    let mut i: usize = 0;
    while i < 88
        invariant
            0 <= i <= 88,
            keys@.len() == i,
            w_idx == whites_before(i as nat),
            w_idx <= i,
            i > 0 ==> w_idx >= 1,
            forall|j: int| 0 <= j < i ==> key_matches(#[trigger] keys@[j], j),
        decreases 88 - i,
    {
        let c_idx = (i + 9) % 12;
        let black = is_black_pc(c_idx);
        assert(i == 0 ==> !black);
        let mut name = String::from_str(note_name(c_idx));
        name.append(digit((i + 9) / 12));
        keys.push(
            PianoKey {
                name,
                number: i,
                chromatic_idx: c_idx,
                is_black: black,
                white_idx: if black { w_idx - 1 } else { w_idx },
            },
        );
        if !black {
            w_idx += 1;
        }
        i += 1;
    }
    keys
}

proof fn lemma_whites_octave(i: nat)
    ensures
        whites_before(i + 12) == whites_before(i) + 7,
    decreases i,
{
    if i == 0 {
        reveal_with_fuel(whites_before, 13);
    } else {
        lemma_whites_octave((i - 1) as nat);
        assert(key_pc(i as int + 11) == key_pc(i as int - 1));
    }
}

proof fn lemma_whites_monotone(i: nat, j: nat)
    requires
        i <= j,
    ensures
        whites_before(i) <= whites_before(j),
        i < j && !spec_is_black(key_pc(i as int)) ==> whites_before(i) < whites_before(j),
    decreases j - i,
{
    if i < j {
        lemma_whites_monotone(i, (j - 1) as nat);
    }
}

proof fn lemma_whites_after_octaves(k: nat)
    ensures
        whites_before(4 + 12 * k) == 3 + 7 * k,
    decreases k,
{
    if k == 0 {
        reveal_with_fuel(whites_before, 5);
    } else {
        lemma_whites_after_octaves((k - 1) as nat);
        lemma_whites_octave((4 + 12 * (k - 1)) as nat);
        assert(4 + 12 * k == (4 + 12 * (k - 1)) + 12);
    }
}

/// The keyboard has 52 white keys; taken from left to right, the white keys get
/// the columns 0, 1, ..., 51, and a black key shares the column of the white
/// key just below it.
pub proof fn lemma_keyboard_columns()
    ensures
        whites_before(KEY_COUNT as nat) == WHITE_KEY_COUNT,
        forall|i: nat, j: nat| i < j < KEY_COUNT && !spec_is_black(key_pc(i as int)) && !spec_is_black(key_pc(j as int))
            ==> #[trigger] spec_white_idx(i) < #[trigger] spec_white_idx(j),
        forall|i: nat| i < KEY_COUNT && !spec_is_black(key_pc(i as int)) ==> 0 <= #[trigger] spec_white_idx(i) < WHITE_KEY_COUNT,
        forall|i: nat| 0 < i < KEY_COUNT && spec_is_black(key_pc(i as int)) ==> #[trigger] spec_white_idx(i) == spec_white_idx((i - 1) as nat),
{
    lemma_whites_after_octaves(7);
    assert forall|i: nat, j: nat| i < j < KEY_COUNT && !spec_is_black(key_pc(i as int)) && !spec_is_black(key_pc(j as int))
        implies #[trigger] spec_white_idx(i) < #[trigger] spec_white_idx(j) by {
        lemma_whites_monotone(i, j);
    }
    assert forall|i: nat| i < KEY_COUNT && !spec_is_black(key_pc(i as int)) implies 0 <= #[trigger] spec_white_idx(i) < WHITE_KEY_COUNT by {
        lemma_whites_monotone(i + 1, KEY_COUNT as nat);
    }
    assert forall|i: nat| 0 < i < KEY_COUNT && spec_is_black(key_pc(i as int)) implies #[trigger] spec_white_idx(i) == spec_white_idx((i - 1) as nat) by {
        assert(!spec_is_black(key_pc(i - 1)));
    }
}

} // verus!
